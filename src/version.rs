use vstd::prelude::*;

use crate::bitmap::{
    at_most, lemma_at_most_bound, lemma_rank_unique, treemap_contains, treemap_new, treemap_rank,
    treemap_select, treemap_set,
};
use crate::context::Context;
use crate::id::{Luid, Slid, Uuid, Vlid};
use crate::universe::{universe_get_index_of, uuid_index_seq, Universe};
use roaring::RoaringTreemap;

verus! {

/// The materialized membership of one commit, with the coordinate spaces
/// derived from it.
pub struct Version {
    /// The live Luids.
    pub version_universe: RoaringTreemap,
    /// Vlids that belong to some subset ("sort").
    pub s0: RoaringTreemap,
    /// For each subset, by its position in `s0`, the Vlids it holds.
    pub s0i: Vec<RoaringTreemap>,
    pub ctx: Context,
}

/// The position (from 0) that a member takes in the increasing order of a set of
/// integers; `None` for a non-member.
pub open spec fn position_in(s: Set<u64>, x: int) -> Option<int> {
    if 0 <= x <= u64::MAX && s.contains(x as u64) {
        Some(at_most(s, x as u64).len() - 1)
    } else {
        None
    }
}

/// The member of a set of integers that has position `n` (from 0), if any.
pub open spec fn has_position(s: Set<u64>, x: u64, n: int) -> bool {
    s.contains(x) && at_most(s, x).len() == n + 1
}

/// `select` on a bitmap, as a local id.
fn select_lid(t: &RoaringTreemap, n: usize) -> (r: Option<usize>)
    ensures
        r matches Some(x) ==> has_position(treemap_set(*t), x as u64, n as int),
        r is None ==> forall|x: u64| #[trigger] treemap_set(*t).contains(x) && x <= usize::MAX
            ==> !has_position(treemap_set(*t), x, n as int),
{
    match treemap_select(t, n as u64) {
        Some(x) => {
            if x <= usize::MAX as u64 {
                Some(x as usize)
            } else {
                proof {
                    assert forall|y: u64| #[trigger] treemap_set(*t).contains(y) && y <= usize::MAX
                        implies !has_position(treemap_set(*t), y, n as int) by {
                        if has_position(treemap_set(*t), y, n as int) {
                            lemma_rank_unique(treemap_set(*t), x, y);
                        }
                    }
                }
                None
            }
        },
        None => None,
    }
}

/// `rank` on a bitmap, less one, as a local id: the position of a member.
fn position_lid(t: &RoaringTreemap, x: usize) -> (r: Option<usize>)
    ensures
        r matches Some(p) ==> position_in(treemap_set(*t), x as int) == Some(p as int),
        r is None ==> position_in(treemap_set(*t), x as int) is None,
{
    if !treemap_contains(t, x as u64) {
        return None;
    }
    let rank = treemap_rank(t, x as u64);
    proof {
        lemma_at_most_bound(treemap_set(*t), x as u64);
    }
    Some((rank - 1) as usize)
}

/// The subset position of a Vlid in `v`, then its position within that subset.
pub open spec fn subset_coordinates(v: Version, vlid: int) -> Option<(int, int)> {
    match position_in(treemap_set(v.s0), vlid) {
        Some(a) => if 0 <= a < v.s0i@.len() {
            match position_in(treemap_set(v.s0i@[a]), vlid) {
                Some(b) => Some((a, b)),
                None => None,
            }
        } else {
            None
        },
        None => None,
    }
}

impl Version {
    /// A version with the given members, no subsets and an empty context.
    pub fn from_members(members: RoaringTreemap) -> (r: Version)
        ensures
            r.version_universe == members,
            treemap_set(r.s0) == Set::<u64>::empty(),
            r.s0i@.len() == 0,
    {
        Version { version_universe: members, s0: treemap_new(), s0i: Vec::new(), ctx: Context::default() }
    }

    /// The live Luids.
    pub open spec fn members(&self) -> Set<u64> {
        treemap_set(self.version_universe)
    }

    /// The Luid at a position of this version.
    pub fn vlid_to_luid(&self, vlid: Vlid) -> (r: Option<Luid>)
        ensures
            r matches Some(l) ==> has_position(self.members(), l as u64, vlid as int),
            r is None ==> forall|l: u64| #[trigger] self.members().contains(l) && l <= usize::MAX
                ==> !has_position(self.members(), l, vlid as int),
    {
        select_lid(&self.version_universe, vlid)
    }

    /// The position of a Luid in this version, if it is live.
    pub fn luid_to_vlid(&self, luid: Luid) -> (r: Option<Vlid>)
        ensures
            r matches Some(v) ==> position_in(self.members(), luid as int) == Some(v as int),
            r is None ==> position_in(self.members(), luid as int) is None,
    {
        position_lid(&self.version_universe, luid)
    }

    /// The Vlid at a position of the subset bitmap.
    pub fn slids0_to_vlid(&self, slid: Slid) -> (r: Option<Vlid>)
        ensures
            r matches Some(v) ==> has_position(treemap_set(self.s0), v as u64, slid as int),
            r is None ==> forall|v: u64| #[trigger] treemap_set(self.s0).contains(v) && v <= usize::MAX
                ==> !has_position(treemap_set(self.s0), v, slid as int),
    {
        select_lid(&self.s0, slid)
    }

    /// The position of a Vlid in the subset bitmap.
    pub fn vlid_to_slids0(&self, vlid: Vlid) -> (r: Option<Slid>)
        ensures
            r matches Some(s) ==> position_in(treemap_set(self.s0), vlid as int) == Some(s as int),
            r is None ==> position_in(treemap_set(self.s0), vlid as int) is None,
    {
        position_lid(&self.s0, vlid)
    }

    /// The first subset that holds a Vlid.
    pub fn slids0_of_vlid(&self, vlid: Vlid) -> (r: Option<Slid>)
        ensures
            r matches Some(i) ==> i < self.s0i@.len() && treemap_set(self.s0i@[i as int]).contains(
                vlid as u64,
            ) && forall|j: int| 0 <= j < i ==> !treemap_set(#[trigger] self.s0i@[j]).contains(vlid as u64),
            r is None ==> forall|j: int| 0 <= j < self.s0i@.len() ==> !treemap_set(
                #[trigger] self.s0i@[j],
            ).contains(vlid as u64),
    {
        let mut i: usize = 0;
        while i < self.s0i.len()
            invariant
                i <= self.s0i@.len(),
                forall|j: int| 0 <= j < i ==> !treemap_set(#[trigger] self.s0i@[j]).contains(vlid as u64),
            decreases self.s0i@.len() - i,
        {
            if treemap_contains(&self.s0i[i], vlid as u64) {
                return Some(i);
            }
            i = i + 1;
        }
        None
    }

    /// The Vlid at a position of one subset.
    pub fn slid_to_vlid(&self, slids0: Slid, slid: Slid) -> (r: Option<Vlid>)
        ensures
            slids0 >= self.s0i@.len() ==> r is None,
            r matches Some(v) ==> has_position(treemap_set(self.s0i@[slids0 as int]), v as u64, slid as int),
            slids0 < self.s0i@.len() && r is None ==> forall|v: u64| #[trigger] treemap_set(
                self.s0i@[slids0 as int],
            ).contains(v) && v <= usize::MAX ==> !has_position(
                treemap_set(self.s0i@[slids0 as int]),
                v,
                slid as int,
            ),
    {
        if slids0 >= self.s0i.len() {
            return None;
        }
        select_lid(&self.s0i[slids0], slid)
    }

    /// The position of a Vlid within one subset.
    pub fn vlid_to_slid(&self, slids0: Slid, vlid: Vlid) -> (r: Option<Slid>)
        ensures
            slids0 >= self.s0i@.len() ==> r is None,
            slids0 < self.s0i@.len() ==> (r matches Some(s) ==> position_in(
                treemap_set(self.s0i@[slids0 as int]),
                vlid as int,
            ) == Some(s as int)),
            slids0 < self.s0i@.len() ==> (r is None ==> position_in(
                treemap_set(self.s0i@[slids0 as int]),
                vlid as int,
            ) is None),
    {
        if slids0 >= self.s0i.len() {
            return None;
        }
        position_lid(&self.s0i[slids0], vlid)
    }

    /// The subset position of a Vlid, then its position within that subset.
    pub fn vlid_to_slids0_and_slid(&self, vlid: Vlid) -> (r: Option<(Slid, Slid)>)
        ensures
            r matches Some((a, b)) ==> position_in(treemap_set(self.s0), vlid as int) == Some(a as int)
                && a < self.s0i@.len() && position_in(treemap_set(self.s0i@[a as int]), vlid as int)
                == Some(b as int),
            r is None ==> subset_coordinates(*self, vlid as int) is None,
    {
        let slids0 = match self.vlid_to_slids0(vlid) {
            Some(s) => s,
            None => return None,
        };
        let slid = match self.vlid_to_slid(slids0, vlid) {
            Some(s) => s,
            None => return None,
        };
        Some((slids0, slid))
    }

    /// The subset coordinates of a live Luid.
    pub fn luid_to_slids0_and_slid(&self, luid: Luid) -> (r: Option<(Slid, Slid)>)
        ensures
            r matches Some((a, b)) ==> exists|v: Vlid| position_in(self.members(), luid as int) == Some(
                v as int,
            ) && position_in(treemap_set(self.s0), v as int) == Some(a as int) && a < self.s0i@.len()
                && position_in(treemap_set(self.s0i@[a as int]), v as int) == Some(b as int),
            r is None ==> match position_in(self.members(), luid as int) {
                Some(v) => subset_coordinates(*self, v) is None,
                None => true,
            },
    {
        let vlid = match self.luid_to_vlid(luid) {
            Some(v) => v,
            None => return None,
        };
        self.vlid_to_slids0_and_slid(vlid)
    }

    /// The subset coordinates of a UUID that the universe knows and this version holds.
    pub fn uuid_to_slids0_and_slid(&self, universe: &Universe, uuid: &Uuid) -> (r: Option<(Slid, Slid)>)
        ensures
            !uuid_index_seq(*universe).contains(*uuid) ==> r is None,
            r matches Some((a, b)) ==> exists|l: Luid, v: Vlid|
                l < uuid_index_seq(*universe).len() && uuid_index_seq(*universe)[l as int] == *uuid
                && position_in(self.members(), l as int) == Some(v as int) && position_in(
                treemap_set(self.s0),
                v as int,
            ) == Some(a as int) && a < self.s0i@.len() && position_in(
                treemap_set(self.s0i@[a as int]),
                v as int,
            ) == Some(b as int),
            r is None && uuid_index_seq(*universe).contains(*uuid) ==> exists|l: Luid|
                l < uuid_index_seq(*universe).len() && #[trigger] uuid_index_seq(*universe)[l as int] == *uuid && match position_in(
                self.members(),
                l as int,
            ) {
                Some(v) => subset_coordinates(*self, v) is None,
                None => true,
            },
    {
        let luid = match universe_get_index_of(universe, *uuid) {
            Some(l) => l,
            None => return None,
        };
        self.luid_to_slids0_and_slid(luid)
    }

    /// The subset position of a live Luid.
    pub fn luid_to_slids0(&self, luid: Luid) -> (r: Option<Slid>)
        ensures
            r matches Some(a) ==> exists|v: Vlid| position_in(self.members(), luid as int) == Some(v as int)
                && position_in(treemap_set(self.s0), v as int) == Some(a as int),
            r is None ==> match position_in(self.members(), luid as int) {
                Some(v) => position_in(treemap_set(self.s0), v) is None,
                None => true,
            },
    {
        let vlid = match self.luid_to_vlid(luid) {
            Some(v) => v,
            None => return None,
        };
        self.vlid_to_slids0(vlid)
    }

    /// The subset position of a UUID that the universe knows and this version holds.
    pub fn uuid_to_slids0(&self, universe: &Universe, uuid: &Uuid) -> (r: Option<Slid>)
        ensures
            !uuid_index_seq(*universe).contains(*uuid) ==> r is None,
            r matches Some(a) ==> exists|l: Luid, v: Vlid|
                l < uuid_index_seq(*universe).len() && uuid_index_seq(*universe)[l as int] == *uuid
                && position_in(self.members(), l as int) == Some(v as int) && position_in(
                treemap_set(self.s0),
                v as int,
            ) == Some(a as int),
            r is None && uuid_index_seq(*universe).contains(*uuid) ==> exists|l: Luid|
                l < uuid_index_seq(*universe).len() && #[trigger] uuid_index_seq(*universe)[l as int] == *uuid && match position_in(
                self.members(),
                l as int,
            ) {
                Some(v) => position_in(treemap_set(self.s0), v) is None,
                None => true,
            },
    {
        let luid = match universe_get_index_of(universe, *uuid) {
            Some(l) => l,
            None => return None,
        };
        self.luid_to_slids0(luid)
    }
}

} // verus!
