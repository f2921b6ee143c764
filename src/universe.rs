use vstd::prelude::*;

use crate::id::{Luid, Uuid};
use indexmap::IndexSet;

verus! {

#[verifier::external_type_specification]
#[verifier::external_body]
#[verifier::reject_recursive_types(T)]
#[verifier::reject_recursive_types(S)]
pub struct ExIndexSet<T, S>(IndexSet<T, S>);

/// The universe: every UUID known to an installation, in order of first
/// insertion. A UUID's position is its Luid.
pub type Universe = IndexSet<Uuid>;

/// A set of Luids that remembers the order in which they were inserted.
pub type LuidIndexSet = IndexSet<Luid>;

/// What an index set of UUIDs holds, in insertion order.
pub uninterp spec fn uuid_index_seq(s: IndexSet<u128>) -> Seq<u128>;

/// What an index set of Luids holds, in insertion order.
pub uninterp spec fn luid_index_seq(s: IndexSet<usize>) -> Seq<usize>;

/// Relies on `IndexSet::new`: an empty set.
#[verifier::external_body]
pub(crate) fn universe_new() -> (r: Universe)
    ensures
        uuid_index_seq(r) == Seq::<Uuid>::empty(),
{
    IndexSet::new()
}

/// Relies on `IndexSet::insert_full`: an item already present keeps its index
/// and leaves the set unchanged; a new one is appended at the end. The number of
/// items is a `usize`.
#[verifier::external_body]
pub(crate) fn universe_insert_full(u: &mut Universe, x: Uuid) -> (r: (usize, bool))
    ensures
        uuid_index_seq(*final(u)).len() <= usize::MAX,
        uuid_index_seq(*old(u)).contains(x) ==> {
            &&& uuid_index_seq(*final(u)) == uuid_index_seq(*old(u))
            &&& r.0 < uuid_index_seq(*old(u)).len()
            &&& uuid_index_seq(*old(u))[r.0 as int] == x
            &&& !r.1
        },
        !uuid_index_seq(*old(u)).contains(x) ==> {
            &&& uuid_index_seq(*final(u)) == uuid_index_seq(*old(u)).push(x)
            &&& r.0 == uuid_index_seq(*old(u)).len()
            &&& r.1
        },
{
    u.insert_full(x)
}

/// Relies on `IndexSet::get_index_of`: the index of an item, if present.
#[verifier::external_body]
pub(crate) fn universe_get_index_of(u: &Universe, x: Uuid) -> (r: Option<usize>)
    ensures
        r matches Some(i) ==> i < uuid_index_seq(*u).len() && uuid_index_seq(*u)[i as int] == x,
        r is None <==> !uuid_index_seq(*u).contains(x),
{
    u.get_index_of(&x)
}

/// Relies on `IndexSet::get_index`: the item at an index, if the index is in range.
#[verifier::external_body]
pub(crate) fn universe_get_index(u: &Universe, i: usize) -> (r: Option<Uuid>)
    ensures
        i < uuid_index_seq(*u).len() ==> r == Some(uuid_index_seq(*u)[i as int]),
        i >= uuid_index_seq(*u).len() ==> r is None,
{
    u.get_index(i).copied()
}

/// Relies on `IndexSet::len`: the number of items.
#[verifier::external_body]
pub(crate) fn universe_len(u: &Universe) -> (r: usize)
    ensures
        r == uuid_index_seq(*u).len(),
{
    u.len()
}

/// Relies on `IndexSet::new`: an empty set.
#[verifier::external_body]
pub(crate) fn luid_set_new() -> (r: LuidIndexSet)
    ensures
        luid_index_seq(r) == Seq::<Luid>::empty(),
{
    IndexSet::new()
}

/// Relies on `IndexSet::insert`: an item already present leaves the set
/// unchanged; a new one is appended at the end.
#[verifier::external_body]
pub(crate) fn luid_set_insert(s: &mut LuidIndexSet, x: Luid) -> (r: bool)
    ensures
        luid_index_seq(*old(s)).contains(x) ==> luid_index_seq(*final(s)) == luid_index_seq(*old(s))
            && !r,
        !luid_index_seq(*old(s)).contains(x) ==> luid_index_seq(*final(s)) == luid_index_seq(
            *old(s),
        ).push(x) && r,
{
    s.insert(x)
}

/// Relies on `IndexSet::get_index`: the item at an index, if the index is in range.
#[verifier::external_body]
pub(crate) fn luid_set_get_index(s: &LuidIndexSet, i: usize) -> (r: Option<Luid>)
    ensures
        i < luid_index_seq(*s).len() ==> r == Some(luid_index_seq(*s)[i as int]),
        i >= luid_index_seq(*s).len() ==> r is None,
{
    s.get_index(i).copied()
}

/// Relies on `IndexSet::len`: the number of items.
#[verifier::external_body]
pub(crate) fn luid_set_len(s: &LuidIndexSet) -> (r: usize)
    ensures
        r == luid_index_seq(*s).len(),
{
    s.len()
}

/// What inserting `x` into a universe does: a UUID it holds keeps its Luid and
/// nothing changes; a new one is appended and gets the next Luid.
pub open spec fn insert_step(before: Seq<Uuid>, after: Seq<Uuid>, x: Uuid, r: Luid) -> bool {
    if before.contains(x) {
        after == before && r < before.len() && before[r as int] == x
    } else {
        after == before.push(x) && r == before.len()
    }
}

/// Inserts a UUID into the universe and returns its Luid.
pub fn insert_uuid(u: &mut Universe, x: Uuid) -> (r: Luid)
    ensures
        insert_step(uuid_index_seq(*old(u)), uuid_index_seq(*final(u)), x, r),
        uuid_index_seq(*final(u)).len() <= usize::MAX,
{
    universe_insert_full(u, x).0
}

/// The Luid of a UUID, if the universe holds it.
pub fn lookup_uuid(u: &Universe, x: &Uuid) -> (r: Option<Luid>)
    ensures
        r matches Some(l) ==> l < uuid_index_seq(*u).len() && uuid_index_seq(*u)[l as int] == *x,
        r is None <==> !uuid_index_seq(*u).contains(*x),
{
    universe_get_index_of(u, *x)
}

/// The UUID of a Luid, if it is in range.
pub fn resolve_luid(u: &Universe, l: Luid) -> (r: Option<Uuid>)
    ensures
        l < uuid_index_seq(*u).len() ==> r == Some(uuid_index_seq(*u)[l as int]),
        l >= uuid_index_seq(*u).len() ==> r is None,
{
    universe_get_index(u, l)
}

/// An empty universe.
pub fn new_universe() -> (r: Universe)
    ensures
        uuid_index_seq(r) == Seq::<Uuid>::empty(),
{
    universe_new()
}

} // verus!
