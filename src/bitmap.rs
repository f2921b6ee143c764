use vstd::prelude::*;

use roaring::RoaringTreemap;

verus! {

#[verifier::external_type_specification]
#[verifier::external_body]
pub struct ExRoaringTreemap(RoaringTreemap);

/// The integers that a compressed bitmap holds.
pub uninterp spec fn treemap_set(t: RoaringTreemap) -> Set<u64>;

/// The members of `s` that are at most `v`.
pub open spec fn at_most(s: Set<u64>, v: u64) -> Set<u64> {
    s.filter(|y: u64| y <= v)
}

/// The members of a set of integers that are at most `x` are finite, and at most `x + 1`.
pub proof fn lemma_at_most_bound(s: Set<u64>, x: u64)
    ensures
        at_most(s, x).finite(),
        at_most(s, x).len() <= x + 1,
{
    let r = vstd::set_lib::set_int_range(0, x + 1);
    vstd::set_lib::lemma_int_range(0, x + 1);
    let f = |i: int| i as u64;
    let full = r.map(f);
    vstd::set_lib::lemma_map_size_bound(r, full, f);
    assert forall|y: u64| at_most(s, x).contains(y) implies full.contains(y) by {
        assert(r.contains(y as int));
        assert(f(y as int) == y);
    }
    vstd::set_lib::lemma_len_subset(at_most(s, x), full);
}

/// At most one member of a set of integers has `n` members at most it.
pub proof fn lemma_rank_unique(s: Set<u64>, x: u64, y: u64)
    requires
        s.contains(x),
        s.contains(y),
        at_most(s, x).len() == at_most(s, y).len(),
    ensures
        x == y,
{
    if x < y {
        lemma_at_most_bound(s, y);
        assert(at_most(s, x).insert(y).subset_of(at_most(s, y)));
        vstd::set_lib::lemma_len_subset(at_most(s, x).insert(y), at_most(s, y));
        lemma_at_most_bound(s, x);
        assert(!at_most(s, x).contains(y));
    } else if y < x {
        lemma_at_most_bound(s, x);
        assert(at_most(s, y).insert(x).subset_of(at_most(s, x)));
        vstd::set_lib::lemma_len_subset(at_most(s, y).insert(x), at_most(s, x));
        lemma_at_most_bound(s, y);
        assert(!at_most(s, y).contains(x));
    }
}

/// Relies on `RoaringTreemap::new`: an empty bitmap.
#[verifier::external_body]
pub(crate) fn treemap_new() -> (r: RoaringTreemap)
    ensures
        treemap_set(r) == Set::<u64>::empty(),
{
    RoaringTreemap::new()
}

/// Relies on `RoaringTreemap::insert`: adds a value; `true` if it was absent.
#[verifier::external_body]
pub(crate) fn treemap_insert(t: &mut RoaringTreemap, v: u64) -> (r: bool)
    ensures
        treemap_set(*final(t)) == treemap_set(*old(t)).insert(v),
        r == !treemap_set(*old(t)).contains(v),
{
    t.insert(v)
}

/// Relies on `RoaringTreemap::remove`: removes a value; `true` if it was present.
#[verifier::external_body]
pub(crate) fn treemap_remove(t: &mut RoaringTreemap, v: u64) -> (r: bool)
    ensures
        treemap_set(*final(t)) == treemap_set(*old(t)).remove(v),
        r == treemap_set(*old(t)).contains(v),
{
    t.remove(v)
}

/// Relies on `RoaringTreemap::contains`: membership.
#[verifier::external_body]
pub(crate) fn treemap_contains(t: &RoaringTreemap, v: u64) -> (r: bool)
    ensures
        r == treemap_set(*t).contains(v),
{
    t.contains(v)
}

/// Relies on `BitOrAssign<&RoaringTreemap> for RoaringTreemap`: in-place union.
#[verifier::external_body]
pub(crate) fn treemap_union_with(t: &mut RoaringTreemap, other: &RoaringTreemap)
    ensures
        treemap_set(*final(t)) == treemap_set(*old(t)).union(treemap_set(*other)),
{
    std::ops::BitOrAssign::bitor_assign(t, other)
}

/// Relies on `RoaringTreemap::rank`: the number of members that are at most `v`.
#[verifier::external_body]
pub(crate) fn treemap_rank(t: &RoaringTreemap, v: u64) -> (r: u64)
    ensures
        r == at_most(treemap_set(*t), v).len(),
        treemap_set(*t).contains(v) ==> r >= 1,
{
    t.rank(v)
}

/// Relies on `RoaringTreemap::select`: the member with exactly `n` smaller
/// members (so `n + 1` members at most it), or `None` where there are no more
/// than `n` members.
#[verifier::external_body]
pub(crate) fn treemap_select(t: &RoaringTreemap, n: u64) -> (r: Option<u64>)
    ensures
        r matches Some(x) ==> treemap_set(*t).contains(x) && at_most(treemap_set(*t), x).len() == n + 1,
        r is None ==> forall|x: u64| #[trigger] treemap_set(*t).contains(x) ==> at_most(treemap_set(*t), x).len() != n + 1,
{
    t.select(n)
}

/// Relies on `RoaringTreemap::iter`: the members in increasing order.
#[verifier::external_body]
pub(crate) fn treemap_to_vec(t: &RoaringTreemap) -> (r: Vec<u64>)
    ensures
        r@.to_set() == treemap_set(*t),
        forall|i: int, j: int| 0 <= i < j < r@.len() ==> r@[i] < r@[j],
{
    t.iter().collect()
}

} // verus!
