use vstd::prelude::*;

use crate::id::{Luid, Uuid};
use crate::lists::LuidList;
use crate::state::{luid_in, TotalState};
use crate::universe::{universe_get_index, universe_get_index_of, uuid_index_seq};
use std::collections::{BTreeMap, BTreeSet};

verus! {

broadcast use vstd::std_specs::btree::group_btree_axioms, vstd::laws_cmp::group_laws_cmp;

/// Why a merge cannot proceed.
#[derive(Debug, Clone, Copy, PartialEq, Eq, Structural)]
pub enum MergeError {
    WorkingPatchNotEmpty,
    CommitNotFound,
    DetachedHead,
    NoCommonAncestor,
}

impl MergeError {
    /// A human-readable description of the error.
    pub fn message(&self) -> (r: String)
        ensures
            *self == MergeError::WorkingPatchNotEmpty ==> r@ == "Working patch is not empty"@,
            *self == MergeError::CommitNotFound ==> r@ == "Commit not found"@,
            *self == MergeError::DetachedHead ==> r@ == "Detached head"@,
            *self == MergeError::NoCommonAncestor ==> r@ == "No common ancestor"@,
    {
        match self {
            MergeError::WorkingPatchNotEmpty => String::from_str("Working patch is not empty"),
            MergeError::CommitNotFound => String::from_str("Commit not found"),
            MergeError::DetachedHead => String::from_str("Detached head"),
            MergeError::NoCommonAncestor => String::from_str("No common ancestor"),
        }
    }

}

/// `p` is a source of some derivation of `child`, both Luids of the universe.
pub open spec fn parent_of(t: TotalState, child: Luid, p: Luid) -> bool {
    &&& child < t.uuids().len()
    &&& p < t.uuids().len()
    &&& t.commits@.contains_key(child)
    &&& exists|d: int, k: int|
        0 <= d < t.commits@[child]@.len() && 0 <= k < t.commits@[child]@[d].0.len() && #[trigger] t.commits@[child]@[d].0[k] == p
}

/// Each commit of `path` is a parent of the one before it.
pub open spec fn descent_path(t: TotalState, path: Seq<Luid>) -> bool {
    &&& path.len() >= 1
    &&& forall|i: int| 0 <= i < path.len() - 1 ==> #[trigger] parent_of(t, path[i], path[i + 1])
}

/// `a` is `c` or an ancestor of `c`.
pub open spec fn ancestor_or_self(t: TotalState, c: Luid, a: Luid) -> bool {
    exists|path: Seq<Luid>| #[trigger] descent_path(t, path) && path[0] == c && path.last() == a
}

proof fn lemma_ancestor_self(t: TotalState, c: Luid)
    ensures
        ancestor_or_self(t, c, c),
{
    let path = seq![c];
    assert(descent_path(t, path) && path[0] == c && path.last() == c);
}

proof fn lemma_ancestor_step(t: TotalState, c: Luid, m: Luid, a: Luid)
    requires
        ancestor_or_self(t, c, m),
        parent_of(t, m, a),
    ensures
        ancestor_or_self(t, c, a),
{
    let path = choose|path: Seq<Luid>| #[trigger] descent_path(t, path) && path[0] == c && path.last() == m;
    let p2 = path.push(a);
    assert forall|i: int| 0 <= i < p2.len() - 1 implies #[trigger] parent_of(t, p2[i], p2[i + 1]) by {
        if i < path.len() - 1 {
            assert(p2[i] == path[i] && p2[i + 1] == path[i + 1]);
        } else {
            assert(p2[i] == m && p2[i + 1] == a);
        }
    }
    assert(descent_path(t, p2) && p2[0] == c && p2.last() == a);
}

/// The parents of a commit over all its derivations, in order.
fn parents_of(t: &TotalState, luid: Luid) -> (r: Vec<Luid>)
    requires
        t.wf(),
    ensures
        forall|i: int| 0 <= i < r@.len() ==> parent_of(*t, luid, #[trigger] r@[i]),
        forall|p: Luid| #[trigger] parent_of(*t, luid, p) ==> r@.contains(p),
{
    let mut r: Vec<Luid> = Vec::new();
    let n = crate::universe::universe_len(&t.universe);
    if luid >= n {
        return r;
    }
    let derivs = match t.commits.get(&luid) {
        Some(d) => d,
        None => return r,
    };
    assert(t.commits@[luid] == *derivs);
    let nd = derivs.len();
    let mut d: usize = 0;
    while d < nd
        invariant
            nd == derivs@.len(),
            d <= nd,
            n == t.uuids().len(),
            luid < n,
            t.commits@.contains_key(luid),
            t.commits@[luid] == *derivs,
            forall|i: int| 0 <= i < r@.len() ==> parent_of(*t, luid, #[trigger] r@[i]),
            forall|dd: int, k: int|
                0 <= dd < d && 0 <= k < derivs@[dd].0.len() && #[trigger] derivs@[dd].0[k] < n ==> r@.contains(
                    derivs@[dd].0[k],
                ),
        decreases nd - d,
    {
        let srcs: &LuidList = derivs.sources(d).unwrap();
        let ns = srcs.len();
        let mut k: usize = 0;
        while k < ns
            invariant
                nd == derivs@.len(),
                d < nd,
                ns == srcs@.len(),
                srcs@ == derivs@[d as int].0,
                k <= ns,
                n == t.uuids().len(),
                luid < n,
                t.commits@.contains_key(luid),
                t.commits@[luid] == *derivs,
                forall|i: int| 0 <= i < r@.len() ==> parent_of(*t, luid, #[trigger] r@[i]),
                forall|dd: int, kk: int|
                    0 <= dd < d && 0 <= kk < derivs@[dd].0.len() && #[trigger] derivs@[dd].0[kk] < n ==> r@.contains(
                        derivs@[dd].0[kk],
                    ),
                forall|kk: int| 0 <= kk < k && #[trigger] derivs@[d as int].0[kk] < n ==> r@.contains(
                    derivs@[d as int].0[kk],
                ),
            decreases ns - k,
        {
            let p = srcs.get(k).unwrap();
            if p < n {
                assert(t.commits@[luid]@[d as int].0[k as int] == p);
                let ghost before = r@;
                r.push(p);
                proof {
                    assert forall|x: Luid| before.contains(x) implies r@.contains(x) by {
                        let a = choose|a: int| 0 <= a < before.len() && before[a] == x;
                        assert(r@[a] == x);
                    }
                    assert(r@[before.len() as int] == p);
                }
            }
            k = k + 1;
        }
        d = d + 1;
    }
    proof {
        assert forall|p: Luid| #[trigger] parent_of(*t, luid, p) implies r@.contains(p) by {
            let (dd, kk) = choose|dd: int, kk: int|
                0 <= dd < t.commits@[luid]@.len() && 0 <= kk < t.commits@[luid]@[dd].0.len()
                    && #[trigger] t.commits@[luid]@[dd].0[kk] == p;
            assert(derivs@[dd].0[kk] == p);
        }
    }
    r
}

/// Every parent of a member of `s` is a member of `s`.
pub open spec fn closed_under_parents(t: TotalState, s: Set<Luid>) -> bool {
    forall|x: Luid, p: Luid| #[trigger] s.contains(x) && #[trigger] parent_of(t, x, p) ==> s.contains(p)
}

proof fn lemma_closed_holds_path(t: TotalState, s: Set<Luid>, path: Seq<Luid>)
    requires
        closed_under_parents(t, s),
        descent_path(t, path),
        s.contains(path[0]),
    ensures
        s.contains(path.last()),
    decreases path.len(),
{
    if path.len() > 1 {
        let prefix = path.drop_last();
        assert forall|i: int| 0 <= i < prefix.len() - 1 implies #[trigger] parent_of(t, prefix[i], prefix[i + 1]) by {
            assert(prefix[i] == path[i] && prefix[i + 1] == path[i + 1]);
        }
        lemma_closed_holds_path(t, s, prefix);
        let j = path.len() - 2;
        assert(parent_of(t, path[j], path[j + 1]));
        assert(prefix.last() == path[j]);
    }
}

proof fn lemma_pop_members(old: Seq<Luid>, x: Luid)
    requires
        old.len() > 0,
        x == old.last(),
    ensures
        forall|y: Luid| #[trigger] old.contains(y) ==> y == x || old.drop_last().contains(y),
{
    assert forall|y: Luid| #[trigger] old.contains(y) implies y == x || old.drop_last().contains(y) by {
        let a = choose|a: int| 0 <= a < old.len() && old[a] == y;
        if a < old.len() - 1 {
            assert(old.drop_last()[a] == y);
        }
    }
}

proof fn lemma_ancestor_known(t: TotalState, c: Luid, l: Luid)
    requires
        c < t.uuids().len(),
        ancestor_or_self(t, c, l),
    ensures
        l < t.uuids().len(),
{
    let path = choose|path: Seq<Luid>| #[trigger] descent_path(t, path) && path[0] == c && path.last() == l;
    if path.len() > 1 {
        let j = path.len() - 2;
        assert(parent_of(t, path[j], path[j + 1]));
    }
}

/// `l` is `c0` or an ancestor of it, and `c1` or an ancestor of it.
pub open spec fn common_ancestor(t: TotalState, c0: Luid, c1: Luid, l: Luid) -> bool {
    ancestor_or_self(t, c0, l) && ancestor_or_self(t, c1, l)
}

/// `l` is a lowest common ancestor of `c0` and `c1`: a common ancestor (or
/// self) of both, none of whose proper descendants is one.
pub open spec fn lowest_common_ancestor(t: TotalState, c0: Luid, c1: Luid, l: Luid) -> bool {
    &&& common_ancestor(t, c0, c1, l)
    &&& l < t.uuids().len()
    &&& forall|d: Luid| #[trigger] common_ancestor(t, c0, c1, d) && ancestor_or_self(t, d, l) ==> ancestor_or_self(t, l, d)
}

/// Of the lowest common ancestors of `c0` and `c1`, `l` has the greatest UUID.
pub open spec fn chosen_lowest_common_ancestor(t: TotalState, c0: Luid, c1: Luid, l: Luid) -> bool {
    &&& lowest_common_ancestor(t, c0, c1, l)
    &&& forall|m: Luid| #[trigger] lowest_common_ancestor(t, c0, c1, m) ==> t.uuids()[m as int] <= t.uuids()[l as int]
}

/// No commit is its own proper ancestor.
pub open spec fn acyclic(t: TotalState) -> bool {
    forall|x: Luid, y: Luid| #[trigger] ancestor_or_self(t, x, y) && #[trigger] ancestor_or_self(t, y, x) ==> x == y
}

/// Symmetry: the chosen lowest common ancestor of `c0` and `c1` is that of `c1`
/// and `c0`.
pub proof fn law_lowest_common_ancestor_symmetric(t: TotalState, c0: Luid, c1: Luid, l: Luid, m: Luid)
    requires
        t.uuids().no_duplicates(),
        chosen_lowest_common_ancestor(t, c0, c1, l),
        chosen_lowest_common_ancestor(t, c1, c0, m),
    ensures
        l == m,
{
    assert forall|d: Luid| #[trigger] common_ancestor(t, c0, c1, d) && ancestor_or_self(t, d, m) implies ancestor_or_self(
        t,
        m,
        d,
    ) by {
        assert(common_ancestor(t, c1, c0, d));
    }
    assert forall|d: Luid| #[trigger] common_ancestor(t, c1, c0, d) && ancestor_or_self(t, d, l) implies ancestor_or_self(
        t,
        l,
        d,
    ) by {
        assert(common_ancestor(t, c0, c1, d));
    }
    assert(lowest_common_ancestor(t, c0, c1, m));
    assert(lowest_common_ancestor(t, c1, c0, l));
    assert(t.uuids()[l as int] == t.uuids()[m as int]);
}

/// An ancestor (or self) `a` of `c` is a lowest common ancestor of `c` and `a`.
proof fn lemma_ancestor_is_lowest(t: TotalState, c: Luid, a: Luid)
    requires
        ancestor_or_self(t, c, a),
        a < t.uuids().len(),
    ensures
        lowest_common_ancestor(t, c, a, a),
        lowest_common_ancestor(t, a, c, a),
{
    lemma_ancestor_self(t, a);
}

impl TotalState {
    /// The commits that `c` reaches through its derivations, itself included.
    pub fn ancestors(&self, c: Luid) -> (r: BTreeSet<Luid>)
        requires
            self.wf(),
            c < self.uuids().len(),
        ensures
            forall|l: Luid| #[trigger] r@.contains(l) <==> ancestor_or_self(*self, c, l),
    {
        let n = crate::universe::universe_len(&self.universe);
        let mut visited: BTreeSet<Luid> = BTreeSet::new();
        let mut stack: Vec<Luid> = Vec::new();
        stack.push(c);
        assert(stack@[0] == c);
        let ghost mut seen: Set<int> = Set::empty();
        proof {
            lemma_ancestor_self(*self, c);
        }
        loop
            invariant_except_break
                self.wf(),
                n == self.uuids().len(),
                c < n,
                seen.finite(),
                seen.subset_of(vstd::set_lib::set_int_range(0, n as int)),
                forall|l: Luid| #[trigger] visited@.contains(l) <==> seen.contains(l as int),
                forall|l: Luid| #[trigger] visited@.contains(l) ==> ancestor_or_self(*self, c, l) && l < n,
                forall|i: int| 0 <= i < stack@.len() ==> ancestor_or_self(*self, c, #[trigger] stack@[i])
                    && stack@[i] < n,
                visited@.contains(c) || stack@.contains(c),
                forall|x: Luid, p: Luid| #[trigger] visited@.contains(x) && #[trigger] parent_of(*self, x, p)
                    ==> visited@.contains(p) || stack@.contains(p),
            ensures
                forall|l: Luid| #[trigger] visited@.contains(l) ==> ancestor_or_self(*self, c, l),
                visited@.contains(c),
                closed_under_parents(*self, visited@),
            decreases n - seen.len(), stack@.len(),
        {
            let ghost full_stack = stack@;
            let x = match stack.pop() {
                Some(x) => x,
                None => break,
            };
            proof {
                lemma_pop_members(full_stack, x);
                assert(stack@ == full_stack.drop_last());
                assert(ancestor_or_self(*self, c, full_stack[full_stack.len() - 1]));
            }
            if visited.contains(&x) {
                continue;
            }
            let ghost old_visited = visited@;
            visited.insert(x);
            proof {
                vstd::set_lib::lemma_int_range(0, n as int);
                seen = seen.insert(x as int);
                vstd::set_lib::lemma_len_subset(seen, vstd::set_lib::set_int_range(0, n as int));
            }
            let parents = parents_of(self, x);
            let ghost s_pre = stack@;
            let mut i: usize = 0;
            while i < parents.len()
                invariant
                    i <= parents@.len(),
                    n == self.uuids().len(),
                    x < n,
                    ancestor_or_self(*self, c, x),
                    forall|j: int| 0 <= j < parents@.len() ==> parent_of(*self, x, #[trigger] parents@[j]),
                    forall|j: int| 0 <= j < i ==> stack@.contains(#[trigger] parents@[j]),
                    forall|k: int| 0 <= k < stack@.len() ==> ancestor_or_self(*self, c, #[trigger] stack@[k])
                        && stack@[k] < n,
                    forall|y: Luid| #[trigger] s_pre.contains(y) ==> stack@.contains(y),
                decreases parents@.len() - i,
            {
                let ghost before = stack@;
                proof {
                    lemma_ancestor_step(*self, c, x, parents@[i as int]);
                }
                stack.push(parents[i]);
                proof {
                    assert forall|y: Luid| before.contains(y) implies stack@.contains(y) by {
                        let a = choose|a: int| 0 <= a < before.len() && before[a] == y;
                        assert(stack@[a] == y);
                    }
                    assert(stack@[before.len() as int] == parents@[i as int]);
                }
                i = i + 1;
            }
            proof {
                assert forall|y: Luid, p: Luid| #[trigger] visited@.contains(y) && #[trigger] parent_of(*self, y, p)
                    implies visited@.contains(p) || stack@.contains(p) by {
                    if y == x {
                        assert(parents@.contains(p));
                        let j = choose|j: int| 0 <= j < parents@.len() && parents@[j] == p;
                        assert(stack@.contains(parents@[j]));
                    } else {
                        assert(old_visited.contains(y));
                        if !old_visited.contains(p) {
                            assert(full_stack.contains(p));
                            if p != x {
                                assert(s_pre.contains(p));
                            }
                        }
                    }
                }
                if !old_visited.contains(c) && c != x {
                    assert(s_pre.contains(c));
                }
            }
        }
        proof {
            assert forall|l: Luid| #[trigger] visited@.contains(l) <==> ancestor_or_self(*self, c, l) by {
                if ancestor_or_self(*self, c, l) {
                    let path = choose|path: Seq<Luid>| #[trigger] descent_path(*self, path) && path[0] == c
                        && path.last() == l;
                    lemma_closed_holds_path(*self, visited@, path);
                }
            }
        }
        visited
    }

    /// A lowest common ancestor (or self) of two commits: a commit that both
    /// reach and none of whose proper descendants both reach; among several, the
    /// one with the greatest UUID. A commit with itself gives that commit. `None`
    /// where a commit is unknown or there is no lowest common ancestor.
    pub fn lca(&self, commit0: &Uuid, commit1: &Uuid) -> (r: Option<Luid>)
        requires
            self.wf(),
        ensures
            !self.uuids().contains(*commit0) || !self.uuids().contains(*commit1) ==> r is None,
            self.uuids().contains(*commit0) && self.uuids().contains(*commit1) ==> {
                let c0 = luid_in(self.uuids(), *commit0);
                let c1 = luid_in(self.uuids(), *commit1);
                &&& r matches Some(l) ==> lowest_common_ancestor(*self, c0, c1, l)
                &&& c0 != c1 ==> (r matches Some(l) ==> chosen_lowest_common_ancestor(*self, c0, c1, l))
                &&& r is None <==> !exists|l: Luid| #[trigger] lowest_common_ancestor(*self, c0, c1, l)
                &&& *commit0 == *commit1 ==> r == Some(c0)
                &&& acyclic(*self) && ancestor_or_self(*self, c0, c1) ==> r == Some(c1)
                &&& acyclic(*self) && ancestor_or_self(*self, c1, c0) ==> r == Some(c0)
            },
    {
        let c0 = match universe_get_index_of(&self.universe, *commit0) {
            Some(l) => l,
            None => return None,
        };
        let c1 = match universe_get_index_of(&self.universe, *commit1) {
            Some(l) => l,
            None => return None,
        };
        proof {
            crate::state::lemma_luid_at(self.uuids(), self.uuids()[c0 as int], c0 as int);
            crate::state::lemma_luid_at(self.uuids(), self.uuids()[c1 as int], c1 as int);
        }
        if c0 == c1 {
            proof {
                lemma_ancestor_self(*self, c0);
                lemma_ancestor_is_lowest(*self, c0, c0);
            }
            return Some(c0);
        }
        let a0 = self.ancestors(c0);
        let a1 = self.ancestors(c1);
        let cands = crate::lifecycle::members_of(&a1);
        let mut best: Option<Luid> = None;
        let mut best_uuid: Uuid = 0;
        let mut i: usize = 0;
        while i < cands.len()
            invariant
                i <= cands@.len(),
                self.wf(),
                c0 < self.uuids().len(),
                c1 < self.uuids().len(),
                cands@.to_set() == a1@,
                forall|l: Luid| #[trigger] a0@.contains(l) <==> ancestor_or_self(*self, c0, l),
                forall|l: Luid| #[trigger] a1@.contains(l) <==> ancestor_or_self(*self, c1, l),
                best matches Some(b) ==> lowest_common_ancestor(*self, c0, c1, b) && best_uuid == self.uuids()[b as int],
                forall|j: int| 0 <= j < i && #[trigger] lowest_common_ancestor(*self, c0, c1, cands@[j]) ==> (
                best matches Some(b) && self.uuids()[cands@[j] as int] <= self.uuids()[b as int]),
            decreases cands@.len() - i,
        {
            let l = cands[i];
            assert(cands@.to_set().contains(l));
            proof {
                lemma_ancestor_known(*self, c1, l);
            }
            let ghost best0 = best;
            if a0.contains(&l) {
                let al = self.ancestors(l);
                let mut lowest = true;
                let mut j: usize = 0;
                while j < cands.len()
                    invariant
                        j <= cands@.len(),
                        self.wf(),
                        c1 < self.uuids().len(),
                        l < self.uuids().len(),
                        cands@.to_set() == a1@,
                        forall|x: Luid| #[trigger] a0@.contains(x) <==> ancestor_or_self(*self, c0, x),
                        forall|x: Luid| #[trigger] a1@.contains(x) <==> ancestor_or_self(*self, c1, x),
                        forall|x: Luid| #[trigger] al@.contains(x) <==> ancestor_or_self(*self, l, x),
                        lowest <==> forall|jj: int| 0 <= jj < j && #[trigger] common_ancestor(*self, c0, c1, cands@[jj])
                            && ancestor_or_self(*self, cands@[jj], l) ==> ancestor_or_self(*self, l, cands@[jj]),
                    decreases cands@.len() - j,
                {
                    let d = cands[j];
                    assert(cands@.to_set().contains(d));
                    proof {
                        lemma_ancestor_known(*self, c1, d);
                    }
                    let ghost lowest0 = lowest;
                    if a0.contains(&d) {
                        let ad = self.ancestors(d);
                        if ad.contains(&l) && !al.contains(&d) {
                            lowest = false;
                        }
                    }
                    proof {
                        assert(cands@[j as int] == d);
                        assert(common_ancestor(*self, c0, c1, d) <==> a0@.contains(d));
                        if lowest {
                            assert forall|jj: int| 0 <= jj < j + 1 && #[trigger] common_ancestor(*self, c0, c1, cands@[jj])
                                && ancestor_or_self(*self, cands@[jj], l) implies ancestor_or_self(*self, l, cands@[jj]) by {
                                if jj < j {
                                    assert(lowest0);
                                }
                            }
                        }
                    }
                    j = j + 1;
                }
                proof {
                    if lowest {
                        assert forall|d: Luid| #[trigger] common_ancestor(*self, c0, c1, d) && ancestor_or_self(*self, d, l)
                            implies ancestor_or_self(*self, l, d) by {
                            assert(a1@.contains(d));
                            assert(cands@.to_set().contains(d));
                            let jj = choose|jj: int| 0 <= jj < cands@.len() && cands@[jj] == d;
                        }
                        assert(lowest_common_ancestor(*self, c0, c1, l));
                    } else {
                        assert(!lowest_common_ancestor(*self, c0, c1, l));
                    }
                }
                if lowest {
                    let x = universe_get_index(&self.universe, l).unwrap();
                    let better = match best {
                        None => true,
                        Some(_) => x > best_uuid,
                    };
                    if better {
                        best = Some(l);
                        best_uuid = x;
                    }
                }
            }
            proof {
                assert forall|j: int| 0 <= j < i + 1 && #[trigger] lowest_common_ancestor(*self, c0, c1, cands@[j]) implies (
                best matches Some(b) && self.uuids()[cands@[j] as int] <= self.uuids()[b as int]) by {
                    if j < i {
                        assert(best0 matches Some(b0) && self.uuids()[cands@[j] as int] <= self.uuids()[b0 as int]);
                    } else {
                        assert(a0@.contains(l));
                    }
                }
            }
            i = i + 1;
        }
        proof {
            assert forall|m: Luid| #[trigger] lowest_common_ancestor(*self, c0, c1, m) implies (best matches Some(b)
                && self.uuids()[m as int] <= self.uuids()[b as int]) by {
                assert(a1@.contains(m));
                assert(cands@.to_set().contains(m));
                let j = choose|j: int| 0 <= j < cands@.len() && cands@[j] == m;
            }
            if acyclic(*self) && ancestor_or_self(*self, c0, c1) {
                lemma_ancestor_is_lowest(*self, c0, c1);
                let b = best->Some_0;
                assert(common_ancestor(*self, c0, c1, c1));
                assert(ancestor_or_self(*self, c1, b));
                assert(ancestor_or_self(*self, b, c1));
            }
            if acyclic(*self) && ancestor_or_self(*self, c1, c0) {
                lemma_ancestor_is_lowest(*self, c1, c0);
                let b = best->Some_0;
                assert(common_ancestor(*self, c0, c1, c0));
                assert(ancestor_or_self(*self, c0, b));
                assert(ancestor_or_self(*self, b, c0));
            }
        }
        best
    }

    /// Checks that `commit` can be merged into the working state: the working
    /// patch stages nothing, builds on exactly one commit, and that commit and
    /// `commit` have a common ancestor. Applying the merge is not done yet.
    pub fn merge(&mut self, commit: &Uuid) -> (r: Result<(), MergeError>)
        requires
            old(self).wf(),
        ensures
            *final(self) == *old(self),
            !old(self).uuids().contains(*commit) ==> r == Err::<(), MergeError>(MergeError::CommitNotFound),
            old(self).uuids().contains(*commit) ==> mergeable(
                *old(self),
                luid_in(old(self).uuids(), *commit),
                r,
            ),
    {
        let commit_luid = match universe_get_index_of(&self.universe, *commit) {
            Some(l) => l,
            None => return Err(MergeError::CommitNotFound),
        };
        proof {
            crate::state::lemma_luid_at(self.uuids(), self.uuids()[commit_luid as int], commit_luid as int);
        }
        self.merge_luid(commit_luid)
    }

    fn merge_luid(&mut self, other_commit_luid: Luid) -> (r: Result<(), MergeError>)
        requires
            old(self).wf(),
            other_commit_luid < old(self).uuids().len(),
        ensures
            *final(self) == *old(self),
            mergeable(*old(self), other_commit_luid, r),
    {
        if !self.working_patch.is_empty() {
            return Err(MergeError::WorkingPatchNotEmpty);
        }
        if self.working_patch.source_commits.len() != 1 {
            return Err(MergeError::DetachedHead);
        }
        let this_commit = self.working_patch.source_commits.get(0).unwrap();
        let other_commit = universe_get_index(&self.universe, other_commit_luid).unwrap();
        proof {
            crate::state::lemma_luid_at(self.uuids(), self.uuids()[other_commit_luid as int], other_commit_luid as int);
            assert(self.uuids().contains(self.staged().sources()[0]));
        }
        match self.lca(&this_commit, &other_commit) {
            Some(_) => Ok(()),
            None => Err(MergeError::NoCommonAncestor),
        }
    }
}

/// The outcome of checking a merge of commit `other` into the working state of
/// `t`: an unempty working patch, then a working patch on other than exactly one
/// commit, are refused; otherwise the merge is possible exactly where the two
/// commits have a lowest common ancestor.
pub open spec fn mergeable(t: TotalState, other: Luid, r: Result<(), MergeError>) -> bool {
    if !t.staged().universe_patch.is_empty_spec() {
        r == Err::<(), MergeError>(MergeError::WorkingPatchNotEmpty)
    } else if t.staged().sources().len() != 1 {
        r == Err::<(), MergeError>(MergeError::DetachedHead)
    } else if exists|l: Luid| #[trigger] lowest_common_ancestor(t, luid_in(t.uuids(), t.staged().sources()[0]), other, l) {
        r is Ok
    } else {
        r == Err::<(), MergeError>(MergeError::NoCommonAncestor)
    }
}

} // verus!
