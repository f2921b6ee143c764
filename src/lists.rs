use vstd::prelude::*;

use crate::id::{Luid, Uuid};
use tinyvec::TinyVec;

verus! {

/// An ordered list of UUIDs (the source commits of a patch); up to two are
/// stored inline.
#[verifier::external_body]
pub struct UuidList {
    inner: TinyVec<[Uuid; 2]>,
}

/// What a `UuidList` holds, in order.
pub uninterp spec fn uuid_list_seq(l: UuidList) -> Seq<Uuid>;

impl View for UuidList {
    type V = Seq<Uuid>;

    open spec fn view(&self) -> Seq<Uuid> {
        uuid_list_seq(*self)
    }
}

impl UuidList {
    /// Relies on `TinyVec::new`: an empty list.
    #[verifier::external_body]
    pub(crate) fn empty() -> (r: UuidList)
        ensures
            uuid_list_seq(r) == Seq::<Uuid>::empty(),
    {
        UuidList { inner: TinyVec::new() }
    }

    /// Relies on `TinyVec::push`: appends at the end.
    #[verifier::external_body]
    pub(crate) fn push(&mut self, x: Uuid)
        ensures
            uuid_list_seq(*final(self)) == uuid_list_seq(*old(self)).push(x),
    {
        self.inner.push(x)
    }

    /// Relies on `TinyVec::clear`: removes every item.
    #[verifier::external_body]
    pub(crate) fn clear(&mut self)
        ensures
            uuid_list_seq(*final(self)) == Seq::<Uuid>::empty(),
    {
        self.inner.clear()
    }

    /// Relies on `TinyVec::len`: the number of items.
    #[verifier::external_body]
    pub(crate) fn len(&self) -> (r: usize)
        ensures
            r == uuid_list_seq(*self).len(),
    {
        self.inner.len()
    }

    /// Relies on `TinyVec`'s slice `get`: the item at an index, if in range.
    #[verifier::external_body]
    pub(crate) fn get(&self, i: usize) -> (r: Option<Uuid>)
        ensures
            i < uuid_list_seq(*self).len() ==> r == Some(uuid_list_seq(*self)[i as int]),
            i >= uuid_list_seq(*self).len() ==> r is None,
    {
        self.inner.get(i).copied()
    }

    /// A list holding the given UUIDs in order.
    pub fn from_vec(v: &Vec<Uuid>) -> (r: UuidList)
        ensures
            r@ == v@,
    {
        let mut r = UuidList::empty();
        let mut i: usize = 0;
        while i < v.len()
            invariant
                i <= v@.len(),
                r@ == v@.subrange(0, i as int),
            decreases v@.len() - i,
        {
            r.push(v[i]);
            assert(v@.subrange(0, i + 1) == v@.subrange(0, i as int).push(v@[i as int]));
            i = i + 1;
        }
        assert(v@.subrange(0, v@.len() as int) == v@);
        r
    }

    /// The UUIDs of the list, in order.
    pub fn to_vec(&self) -> (r: Vec<Uuid>)
        ensures
            r@ == self@,
    {
        let mut r: Vec<Uuid> = Vec::new();
        let n = self.len();
        let mut i: usize = 0;
        while i < n
            invariant
                n == self@.len(),
                i <= n,
                r@ == self@.subrange(0, i as int),
            decreases n - i,
        {
            let x = self.get(i).unwrap();
            r.push(x);
            assert(self@.subrange(0, i + 1) == self@.subrange(0, i as int).push(x));
            i = i + 1;
        }
        assert(self@.subrange(0, n as int) == self@);
        r
    }
}

/// An ordered list of Luids (the source commits of a derivation); up to two are
/// stored inline.
#[verifier::external_body]
pub struct LuidList {
    inner: TinyVec<[Luid; 2]>,
}

/// What a `LuidList` holds, in order.
pub uninterp spec fn luid_list_seq(l: LuidList) -> Seq<Luid>;

impl View for LuidList {
    type V = Seq<Luid>;

    open spec fn view(&self) -> Seq<Luid> {
        luid_list_seq(*self)
    }
}

impl LuidList {
    /// Relies on `TinyVec::new`: an empty list.
    #[verifier::external_body]
    pub(crate) fn empty() -> (r: LuidList)
        ensures
            luid_list_seq(r) == Seq::<Luid>::empty(),
    {
        LuidList { inner: TinyVec::new() }
    }

    /// Relies on `TinyVec::push`: appends at the end.
    #[verifier::external_body]
    pub(crate) fn push(&mut self, x: Luid)
        ensures
            luid_list_seq(*final(self)) == luid_list_seq(*old(self)).push(x),
    {
        self.inner.push(x)
    }

    /// Relies on `TinyVec::len`: the number of items.
    #[verifier::external_body]
    pub(crate) fn len(&self) -> (r: usize)
        ensures
            r == luid_list_seq(*self).len(),
    {
        self.inner.len()
    }

    /// Relies on `TinyVec`'s slice `get`: the item at an index, if in range.
    #[verifier::external_body]
    pub(crate) fn get(&self, i: usize) -> (r: Option<Luid>)
        ensures
            i < luid_list_seq(*self).len() ==> r == Some(luid_list_seq(*self)[i as int]),
            i >= luid_list_seq(*self).len() ==> r is None,
    {
        self.inner.get(i).copied()
    }

    /// The Luids of the list, in order.
    pub fn to_vec(&self) -> (r: Vec<Luid>)
        ensures
            r@ == self@,
    {
        let mut r: Vec<Luid> = Vec::new();
        let n = self.len();
        let mut i: usize = 0;
        while i < n
            invariant
                n == self@.len(),
                i <= n,
                r@ == self@.subrange(0, i as int),
            decreases n - i,
        {
            let x = self.get(i).unwrap();
            r.push(x);
            assert(self@.subrange(0, i + 1) == self@.subrange(0, i as int).push(x));
            i = i + 1;
        }
        assert(self@.subrange(0, n as int) == self@);
        r
    }
}

impl Default for LuidList {
    fn default() -> (r: LuidList)
        ensures
            r@ == Seq::<Luid>::empty(),
    {
        LuidList::empty()
    }
}

/// The ways in which one commit was derived: each is the list of its source
/// commits and the patch that produced it. Normally there is exactly one,
/// stored inline.
#[verifier::external_body]
pub struct Derivations {
    inner: TinyVec<[(LuidList, Luid); 1]>,
}

/// What a `Derivations` holds, in order.
pub uninterp spec fn derivations_seq(d: Derivations) -> Seq<(Seq<Luid>, Luid)>;

impl View for Derivations {
    type V = Seq<(Seq<Luid>, Luid)>;

    open spec fn view(&self) -> Seq<(Seq<Luid>, Luid)> {
        derivations_seq(*self)
    }
}

impl Derivations {
    /// Relies on `TinyVec::from` on a one-item array: a list of that item.
    #[verifier::external_body]
    pub(crate) fn single(sources: LuidList, patch: Luid) -> (r: Derivations)
        ensures
            derivations_seq(r) == seq![(luid_list_seq(sources), patch)],
    {
        Derivations { inner: TinyVec::from([(sources, patch)]) }
    }

    /// Relies on `TinyVec::len`: the number of derivations.
    #[verifier::external_body]
    pub(crate) fn len(&self) -> (r: usize)
        ensures
            r == derivations_seq(*self).len(),
    {
        self.inner.len()
    }

    /// Relies on `TinyVec`'s slice `get`: the sources of a derivation, if the
    /// index is in range.
    #[verifier::external_body]
    pub(crate) fn sources(&self, i: usize) -> (r: Option<&LuidList>)
        ensures
            r is Some <==> i < derivations_seq(*self).len(),
            r matches Some(l) ==> luid_list_seq(*l) == derivations_seq(*self)[i as int].0,
    {
        self.inner.get(i).map(|d| &d.0)
    }

    /// Relies on `TinyVec`'s slice `get`: the patch of a derivation, if the
    /// index is in range.
    #[verifier::external_body]
    pub(crate) fn patch(&self, i: usize) -> (r: Option<Luid>)
        ensures
            i < derivations_seq(*self).len() ==> r == Some(derivations_seq(*self)[i as int].1),
            i >= derivations_seq(*self).len() ==> r is None,
    {
        self.inner.get(i).map(|d| d.1)
    }
}

} // verus!
