use vstd::prelude::*;

use crate::bitmap::treemap_set;
use crate::id::{Luid, Uuid};
use crate::lists::Derivations;
use crate::patch::{Patch, UuidSetPatch};
use crate::universe::{luid_index_seq, uuid_index_seq, LuidIndexSet, Universe};
use crate::version::Version;
use std::collections::{BTreeMap, BTreeSet, HashMap};
use vstd::std_specs::iter::IteratorSpec;

verus! {

broadcast use vstd::std_specs::btree::group_btree_axioms, vstd::laws_cmp::group_laws_cmp,
    vstd::std_specs::hash::group_hash_axioms;

/// For each target commit, the ways in which it was derived.
pub type Commits = BTreeMap<Luid, Derivations>;

/// Every known patch, by its own Luid.
pub type Patches = BTreeMap<Luid, Patch>;

/// Commits with no recorded descendant yet.
pub type Heads = BTreeSet<Luid>;

/// Materialized versions, by commit Luid.
pub type VersionCache = HashMap<Luid, Version>;

pub type WorkingPatch = Patch;

pub type WorkingState = LuidIndexSet;

/// Failures of the history engine.
#[derive(Debug, Clone, Copy, PartialEq, Eq, Structural)]
pub enum StateError {
    /// An unknown UUID, commit or patch was named.
    NotFound,
    /// The working patch holds uncommitted edits.
    PreconditionViolation,
    /// A commit is referenced that no loaded patch produces.
    MissingPatch,
    /// A commit turned out to be its own ancestor.
    CyclicHistory,
}

impl StateError {
    /// A human-readable description of the error.
    pub fn message(&self) -> (r: String)
        ensures
            *self == StateError::NotFound ==> r@ == "not found"@,
            *self == StateError::PreconditionViolation ==> r@ == "the working patch is not empty; commit before this operation"@,
            *self == StateError::MissingPatch ==> r@ == "a commit is referenced that no loaded patch produces"@,
            *self == StateError::CyclicHistory ==> r@ == "the commit history contains a cycle"@,
    {
        match self {
            StateError::NotFound => String::from_str("not found"),
            StateError::PreconditionViolation => String::from_str("the working patch is not empty; commit before this operation"),
            StateError::MissingPatch => String::from_str("a commit is referenced that no loaded patch produces"),
            StateError::CyclicHistory => String::from_str("the commit history contains a cycle"),
        }
    }

}

/// The whole state of an installation: the universe, the commit graph, the
/// patches, the heads, the cached versions, and the working patch and state
/// that edits go to before they are committed.
pub struct TotalState {
    pub universe: Universe,
    pub commits: Commits,
    pub patches: Patches,
    pub heads: Heads,
    pub version_cache: VersionCache,
    pub working_patch: WorkingPatch,
    pub working_state: WorkingState,
}

impl TotalState {
    /// The UUIDs of the universe, by Luid.
    pub open spec fn uuids(&self) -> Seq<Uuid> {
        uuid_index_seq(self.universe)
    }

    /// The Luids of the working state, in insertion order.
    pub open spec fn working(&self) -> Seq<Luid> {
        luid_index_seq(self.working_state)
    }

    /// The patch that edits accumulate in.
    pub open spec fn staged(&self) -> Patch {
        self.working_patch
    }

    /// The invariant of the state: the universe holds each UUID once; every
    /// cached version, commit and working Luid is a Luid of the universe; every
    /// head and every commit that the working patch builds on has a cached version.
    pub open spec fn wf(&self) -> bool {
        let u = self.uuids();
        &&& u.len() <= usize::MAX
        &&& u.no_duplicates()
        &&& cache_bounded(self.version_cache@, u.len())
        &&& forall|k: Luid| #[trigger] self.commits@.contains_key(k) ==> k < u.len()
        &&& forall|h: Luid| #[trigger] self.heads@.contains(h) ==> self.version_cache@.contains_key(h)
        &&& forall|i: int| 0 <= i < self.working().len() ==> #[trigger] self.working()[i] < u.len()
        &&& sources_materialized(u, self.version_cache@, self.working_patch)
    }
}

/// The Luids of those UUIDs of `xs` that the universe `u` holds.
pub open spec fn luids_of(u: Seq<Uuid>, xs: Set<Uuid>) -> Set<u64> {
    Set::new(|l: u64| l < u.len() && xs.contains(u[l as int]))
}

/// The UUIDs that a merge map supersedes: those mapped to another UUID.
pub open spec fn superseded(m: Map<Uuid, Uuid>) -> Set<Uuid> {
    Set::new(|x: Uuid| m.contains_key(x) && m[x] != x)
}

/// The membership that a set patch makes of `base`: deletions and superseded
/// UUIDs removed, then additions added.
pub open spec fn apply_set_patch(base: Set<u64>, u: Seq<Uuid>, p: UuidSetPatch) -> Set<u64> {
    base.difference(luids_of(u, p.deletions@)).difference(luids_of(u, superseded(p.merges@))).union(
        luids_of(u, p.additions@),
    )
}

/// The union of the memberships of the given commits.
pub open spec fn union_of(cache: Map<Luid, Version>, ls: Seq<Luid>) -> Set<u64> {
    Set::new(|x: u64| exists|i: int| 0 <= i < ls.len() && (#[trigger] cache[ls[i]]).members().contains(x))
}

/// The Luid of a UUID that the universe holds.
pub open spec fn luid_in(u: Seq<Uuid>, x: Uuid) -> Luid {
    (choose|i: int| 0 <= i < u.len() && u[i] == x) as Luid
}

/// The Luids of a list of UUIDs that the universe holds.
pub open spec fn luids_in(u: Seq<Uuid>, xs: Seq<Uuid>) -> Seq<Luid> {
    xs.map_values(|x: Uuid| luid_in(u, x))
}

/// `new` extends `old` at the end.
pub open spec fn extends(old: Seq<Uuid>, new: Seq<Uuid>) -> bool {
    old.len() <= new.len() && forall|i: int| 0 <= i < old.len() ==> #[trigger] new[i] == old[i]
}

/// Every version cached in `old` is still cached, unchanged, in `new`.
pub open spec fn cache_grows(old: Map<Luid, Version>, new: Map<Luid, Version>) -> bool {
    forall|k: Luid| #[trigger] old.contains_key(k) ==> new.contains_key(k) && new[k] == old[k]
}

/// Every cached version is keyed by, and holds only, Luids below `n`.
pub open spec fn cache_bounded(c: Map<Luid, Version>, n: nat) -> bool {
    &&& forall|k: Luid| #[trigger] c.contains_key(k) ==> k < n
    &&& forall|k: Luid, x: u64| #[trigger] c.contains_key(k) && #[trigger] c[k].members().contains(x) ==> x < n
}

/// What the materialization engine may change in the universe and the version
/// cache: the universe only grows at the end and keeps its UUIDs distinct, cached
/// versions are never altered, and every cached version stays within the universe.
pub open spec fn engine_frame(u0: Seq<Uuid>, c0: Map<Luid, Version>, u: Seq<Uuid>, c: Map<Luid, Version>) -> bool {
    &&& extends(u0, u)
    &&& u.len() <= usize::MAX
    &&& u.no_duplicates()
    &&& cache_grows(c0, c)
    &&& cache_bounded(c, u.len())
}

/// The target commit of `p` already had a cached version.
pub open spec fn already_materialized(u: Seq<Uuid>, c: Map<Luid, Version>, p: Patch) -> bool {
    u.contains(p.target_commit) && c.contains_key(luid_in(u, p.target_commit))
}

/// Every source commit of `p` is known and has a cached version.
pub open spec fn sources_materialized(u: Seq<Uuid>, c: Map<Luid, Version>, p: Patch) -> bool {
    forall|i: int| 0 <= i < p.sources().len() ==> u.contains(#[trigger] p.sources()[i]) && c.contains_key(
        luid_in(u, p.sources()[i]),
    )
}

/// The state after the engine materialized the target commit of `p`: where it
/// was cached already nothing changed; otherwise its membership is the union of
/// its sources' memberships with the set patch applied, it is a head, and no
/// source other than itself is.
pub open spec fn materialized(
    u0: Seq<Uuid>,
    c0: Map<Luid, Version>,
    h0: Set<Luid>,
    u: Seq<Uuid>,
    c: Map<Luid, Version>,
    h: Set<Luid>,
    p: Patch,
) -> bool {
    let t = luid_in(u, p.target_commit);
    &&& u.contains(p.target_commit)
    &&& c.contains_key(t)
    &&& already_materialized(u0, c0, p) ==> u == u0 && c == c0 && h == h0
    &&& !already_materialized(u0, c0, p) ==> {
        &&& !c0.contains_key(t)
        &&& sources_materialized(u, c, p)
        &&& c[t].members() == apply_set_patch(union_of(c, luids_in(u, p.sources())), u, p.universe_patch)
        &&& h.contains(t)
        &&& forall|i: int|
            0 <= i < p.sources().len() && luid_in(u, #[trigger] p.sources()[i]) != t ==> !h.contains(
                luid_in(u, p.sources()[i]),
            )
    }
}

/// Where a universe has no duplicates, `luid_in` gives the position of a UUID.
pub proof fn lemma_luid_at(u: Seq<Uuid>, x: Uuid, k: int)
    requires
        u.no_duplicates(),
        0 <= k < u.len(),
        u[k] == x,
    ensures
        luid_in(u, x) == k as Luid,
{
    let i = choose|i: int| 0 <= i < u.len() && u[i] == x;
    assert(u[i] == u[k]);
}

/// In a universe that only grew, a UUID it held is still held, under the same Luid.
pub proof fn lemma_luid_extends(u0: Seq<Uuid>, u: Seq<Uuid>, x: Uuid)
    requires
        extends(u0, u),
        u.no_duplicates(),
        u0.contains(x),
    ensures
        u.contains(x),
        luid_in(u, x) == luid_in(u0, x),
{
    let a = choose|a: int| 0 <= a < u0.len() && u0[a] == x;
    assert(u[a] == u0[a]);
    assert(u0.no_duplicates()) by {
        assert forall|p: int, q: int| 0 <= p < q < u0.len() implies u0[p] != u0[q] by {
            assert(u[p] == u0[p] && u[q] == u0[q]);
        }
    }
    lemma_luid_at(u0, x, a);
    lemma_luid_at(u, x, a);
}

/// A registered history that the engine can materialize in full, with `rank`
/// as witness of acyclicity: the first derivation of each commit names a stored
/// patch that produces that commit; every source of every stored patch is a
/// known commit recorded that way; and every source ranks below its target.
pub open spec fn ranked_history(
    u: Seq<Uuid>,
    commits: Map<Luid, Derivations>,
    patches: Map<Luid, Patch>,
    rank: spec_fn(Uuid) -> int,
) -> bool {
    &&& forall|k: Luid| #[trigger] commits.contains_key(k) ==> {
        &&& k < u.len()
        &&& commits[k]@.len() > 0
        &&& patches.contains_key(commits[k]@[0].1)
        &&& patches[commits[k]@[0].1].target_commit == u[k as int]
    }
    &&& forall|q: Luid, i: int|
        patches.contains_key(q) && 0 <= i < patches[q].sources().len() ==> {
            let s = #[trigger] patches[q].sources()[i];
            &&& u.contains(s)
            &&& commits.contains_key(luid_in(u, s))
            &&& rank(s) < rank(patches[q].target_commit)
        }
}

/// A registered history that the engine can materialize in full: every source
/// of every stored patch is a recorded commit whose first derivation names a
/// stored patch producing it, and no commit is its own ancestor (some rank
/// decreases from every target to its sources).
pub open spec fn sound_history(u: Seq<Uuid>, commits: Map<Luid, Derivations>, patches: Map<Luid, Patch>) -> bool {
    exists|rank: spec_fn(Uuid) -> int| #[trigger] ranked_history(u, commits, patches, rank)
}


/// A universe that only grew keeps the commits it had materialized materialized.
pub proof fn lemma_sources_stay_materialized(
    u0: Seq<Uuid>,
    c0: Map<Luid, Version>,
    u: Seq<Uuid>,
    c: Map<Luid, Version>,
    p: Patch,
)
    requires
        extends(u0, u),
        u.no_duplicates(),
        forall|k: Luid| #[trigger] c0.contains_key(k) ==> c.contains_key(k),
        sources_materialized(u0, c0, p),
    ensures
        sources_materialized(u, c, p),
{
    assert forall|i: int| 0 <= i < p.sources().len() implies u.contains(#[trigger] p.sources()[i]) && c.contains_key(
        luid_in(u, p.sources()[i]),
    ) by {
        lemma_luid_extends(u0, u, p.sources()[i]);
    }
}

/// `c` holds at `k` what patch `p` produces: `p`'s target is the commit `k`,
/// its sources and additions are known, its sources are cached, and `k`'s
/// membership is `p`'s set patch applied to the union of its sources'.
pub open spec fn produced_by(u: Seq<Uuid>, c: Map<Luid, Version>, p: Patch, k: Luid) -> bool {
    &&& u.contains(p.target_commit)
    &&& luid_in(u, p.target_commit) == k
    &&& sources_materialized(u, c, p)
    &&& forall|a: Uuid| #[trigger] p.universe_patch.additions@.contains(a) ==> u.contains(a)
    &&& c.contains_key(k)
    &&& c[k].members() == apply_set_patch(union_of(c, luids_in(u, p.sources())), u, p.universe_patch)
}

/// Every commit cached in `c` beyond `c0` holds what some stored patch produces.
pub open spec fn new_versions_produced(
    u: Seq<Uuid>,
    c0: Map<Luid, Version>,
    c: Map<Luid, Version>,
    patches: Map<Luid, Patch>,
) -> bool {
    forall|k: Luid| #[trigger] c.contains_key(k) && !c0.contains_key(k) ==> exists|q: Luid|
        patches.contains_key(q) && #[trigger] produced_by(u, c, patches[q], k)
}

/// What a patch produced stays so while the universe and the cache only grow.
pub proof fn lemma_produced_stable(
    u0: Seq<Uuid>,
    c0: Map<Luid, Version>,
    u: Seq<Uuid>,
    c: Map<Luid, Version>,
    p: Patch,
    k: Luid,
)
    requires
        produced_by(u0, c0, p, k),
        engine_frame(u0, c0, u, c),
        cache_bounded(c0, u0.len()),
    ensures
        produced_by(u, c, p, k),
{
    lemma_luid_extends(u0, u, p.target_commit);
    lemma_sources_stay_materialized(u0, c0, u, c, p);
    assert forall|a: Uuid| #[trigger] p.universe_patch.additions@.contains(a) implies u.contains(a) by {
        lemma_luid_extends(u0, u, a);
    }
    let ls0 = luids_in(u0, p.sources());
    let ls = luids_in(u, p.sources());
    assert(ls =~= ls0) by {
        assert forall|i: int| 0 <= i < p.sources().len() implies ls[i] == ls0[i] by {
            lemma_luid_extends(u0, u, p.sources()[i]);
        }
    }
    let base = union_of(c0, ls0);
    assert(union_of(c, ls) =~= base) by {
        assert forall|i: int| 0 <= i < ls0.len() implies c[ls0[i]] == c0[ls0[i]] by {
            assert(c0.contains_key(luid_in(u0, p.sources()[i])));
        }
        assert forall|x: u64| union_of(c, ls).contains(x) == base.contains(x) by {
            if union_of(c, ls).contains(x) {
                let i = choose|i: int| 0 <= i < ls.len() && (#[trigger] c[ls[i]]).members().contains(x);
                assert(c[ls0[i]] == c0[ls0[i]]);
            }
            if base.contains(x) {
                let i = choose|i: int| 0 <= i < ls0.len() && (#[trigger] c0[ls0[i]]).members().contains(x);
                assert(c[ls0[i]] == c0[ls0[i]]);
            }
        }
    }
    let up = p.universe_patch;
    assert(apply_set_patch(base, u, up) =~= apply_set_patch(base, u0, up)) by {
        assert forall|x: u64| #[trigger] apply_set_patch(base, u, up).contains(x) == apply_set_patch(base, u0, up).contains(x) by {
            if base.contains(x) {
                let i = choose|i: int| 0 <= i < ls0.len() && (#[trigger] c0[ls0[i]]).members().contains(x);
                assert(c0.contains_key(luid_in(u0, p.sources()[i])));
                assert(x < u0.len());
                assert(u[x as int] == u0[x as int]);
            }
            if x < u.len() && up.additions@.contains(u[x as int]) {
                let a = u[x as int];
                let j = choose|j: int| 0 <= j < u0.len() && u0[j] == a;
                assert(u[j] == a);
                assert(x as int == j);
            }
            if x < u0.len() {
                assert(u[x as int] == u0[x as int]);
            }
        }
    }
}

/// A ranked history stays so while the universe grows.
pub proof fn lemma_ranked_extends(
    u0: Seq<Uuid>,
    u: Seq<Uuid>,
    commits: Map<Luid, Derivations>,
    patches: Map<Luid, Patch>,
    rank: spec_fn(Uuid) -> int,
)
    requires
        ranked_history(u0, commits, patches, rank),
        extends(u0, u),
        u.no_duplicates(),
    ensures
        ranked_history(u, commits, patches, rank),
{
    assert forall|k: Luid| #[trigger] commits.contains_key(k) implies {
        &&& k < u.len()
        &&& commits[k]@.len() > 0
        &&& patches.contains_key(commits[k]@[0].1)
        &&& patches[commits[k]@[0].1].target_commit == u[k as int]
    } by {
        assert(u[k as int] == u0[k as int]);
    }
    assert forall|q: Luid, i: int| patches.contains_key(q) && 0 <= i < patches[q].sources().len() implies {
        let s = #[trigger] patches[q].sources()[i];
        &&& u.contains(s)
        &&& commits.contains_key(luid_in(u, s))
        &&& rank(s) < rank(patches[q].target_commit)
    } by {
        lemma_luid_extends(u0, u, patches[q].sources()[i]);
    }
}

/// A sound history stays sound while the universe grows.
pub proof fn lemma_sound_extends(
    u0: Seq<Uuid>,
    u: Seq<Uuid>,
    commits: Map<Luid, Derivations>,
    patches: Map<Luid, Patch>,
)
    requires
        sound_history(u0, commits, patches),
        extends(u0, u),
        u.no_duplicates(),
    ensures
        sound_history(u, commits, patches),
{
    let rank = choose|rank: spec_fn(Uuid) -> int| #[trigger] ranked_history(u0, commits, patches, rank);
    lemma_ranked_extends(u0, u, commits, patches, rank);
}

/// The Luids of the sources of `p`.
pub open spec fn consumed(u: Seq<Uuid>, p: Patch) -> Set<Luid> {
    Set::new(|l: Luid| exists|i: int| 0 <= i < p.sources().len() && l == luid_in(u, #[trigger] p.sources()[i]))
}

/// Appending a new UUID keeps a universe free of duplicates.
pub proof fn lemma_push_distinct<A>(u: Seq<A>, x: A)
    requires
        u.no_duplicates(),
        !u.contains(x),
    ensures
        u.push(x).no_duplicates(),
{
    assert forall|a: int, b: int| 0 <= a < b < u.push(x).len() implies u.push(x)[a] != u.push(x)[b] by {
        if b == u.len() {
            assert(u[a] == u.push(x)[a]);
        }
    }
}

/// The elements of a set of UUIDs, each once.
pub fn uuids_of_set(xs: &BTreeSet<Uuid>) -> (r: Vec<Uuid>)
    ensures
        r@.to_set() == xs@,
        r@.no_duplicates(),
{
    let mut r: Vec<Uuid> = Vec::new();
    let ghost full = vstd::std_specs::btree::spec_btree_keys_iter(xs).remaining();
    for x in it: xs.iter()
        invariant
            it.seq() == full,
            r@ == it.seq().unref().subrange(0, it.index()),
    {
        r.push(*x);
    }
    assert(r@ == full.unref());
    r
}

/// The entries of a map of UUIDs.
pub fn entries_of_map(m: &HashMap<Uuid, Uuid>) -> (r: Vec<(Uuid, Uuid)>)
    ensures
        forall|i: int| 0 <= i < r@.len() ==> m@.contains_key((#[trigger] r@[i]).0) && m@[r@[i].0] == r@[i].1,
        forall|k: Uuid| #[trigger] m@.contains_key(k) ==> r@.contains((k, m@[k])),
{
    let mut r: Vec<(Uuid, Uuid)> = Vec::new();
    let ghost full = vstd::std_specs::hash::spec_hash_map_iter(m).remaining();
    for e in it: m.iter()
        invariant
            it.seq() == full,
            r@ == it.seq().subrange(0, it.index()).map_values(|p: (&Uuid, &Uuid)| (*p.0, *p.1)),
    {
        r.push((*e.0, *e.1));
    }
    assert(r@ == full.map_values(|p: (&Uuid, &Uuid)| (*p.0, *p.1)));
    assert forall|k: Uuid| #[trigger] m@.contains_key(k) implies r@.contains((k, m@[k])) by {
        assert(full.contains((&k, &m@[k])));
        let i = choose|i: int| 0 <= i < full.len() && full[i] == (&k, &m@[k]);
        assert(r@[i] == (k, m@[k]));
    }
    r
}

} // verus!
