use vstd::prelude::*;

use crate::bitmap::{treemap_set, treemap_to_vec};
use crate::id::{new_uuid_v7, Luid, Uuid, NIL_UUID};
use crate::lists::{Derivations, LuidList};
use crate::patch::Patch;
use crate::process::{process_patch, register_uuids};
use crate::state::{
    already_materialized, apply_set_patch, cache_bounded, engine_frame, extends, lemma_luid_at,
    lemma_luid_extends, lemma_push_distinct, lemma_sources_stay_materialized, new_versions_produced,
    produced_by, lemma_produced_stable, lemma_sound_extends, sound_history, consumed, cache_grows, luid_in, luids_in, materialized, sources_materialized, union_of, uuids_of_set,
    StateError, TotalState,
};
use crate::universe::{
    luid_index_seq, luid_set_get_index, luid_set_insert, luid_set_len, luid_set_new, universe_get_index,
    universe_get_index_of, universe_insert_full, universe_len, universe_new, uuid_index_seq, Universe,
};
use std::collections::{BTreeMap, BTreeSet, HashMap};
use vstd::std_specs::iter::IteratorSpec;

verus! {

broadcast use vstd::std_specs::btree::group_btree_axioms, vstd::laws_cmp::group_laws_cmp,
    vstd::std_specs::hash::group_hash_axioms;

/// The UUIDs of the given Luids.
pub open spec fn resolved(u: Seq<Uuid>, ls: Seq<Luid>) -> Seq<Uuid> {
    ls.map_values(|l: Luid| u[l as int])
}

/// The keys of a map of Luids, each once.
pub fn keys_of<V>(m: &BTreeMap<Luid, V>) -> (r: Vec<Luid>)
    ensures
        r@.to_set() == m@.dom(),
        r@.no_duplicates(),
{
    let mut r: Vec<Luid> = Vec::new();
    let ghost full = vstd::std_specs::btree::spec_keys_iter(m).remaining();
    for k in it: m.keys()
        invariant
            it.seq() == full,
            r@ == it.seq().unref().subrange(0, it.index()),
    {
        r.push(*k);
    }
    assert(r@ == full.unref());
    r
}

/// The members of a set of Luids, each once.
pub fn members_of(s: &BTreeSet<Luid>) -> (r: Vec<Luid>)
    ensures
        r@.to_set() == s@,
        r@.no_duplicates(),
{
    let mut r: Vec<Luid> = Vec::new();
    let ghost full = vstd::std_specs::btree::spec_btree_keys_iter(s).remaining();
    for k in it: s.iter()
        invariant
            it.seq() == full,
            r@ == it.seq().unref().subrange(0, it.index()),
    {
        r.push(*k);
    }
    assert(r@ == full.unref());
    r
}

/// The UUIDs of Luids that the universe holds.
fn resolve_all(universe: &Universe, ls: &Vec<Luid>) -> (r: Vec<Uuid>)
    requires
        forall|i: int| 0 <= i < ls@.len() ==> #[trigger] ls@[i] < uuid_index_seq(*universe).len(),
    ensures
        r@ == resolved(uuid_index_seq(*universe), ls@),
{
    let mut r: Vec<Uuid> = Vec::new();
    let mut i: usize = 0;
    while i < ls.len()
        invariant
            i <= ls@.len(),
            forall|i: int| 0 <= i < ls@.len() ==> #[trigger] ls@[i] < uuid_index_seq(*universe).len(),
            r@ == resolved(uuid_index_seq(*universe), ls@.subrange(0, i as int)),
        decreases ls@.len() - i,
    {
        let x = universe_get_index(universe, ls[i]).unwrap();
        r.push(x);
        assert(resolved(uuid_index_seq(*universe), ls@.subrange(0, i + 1)) =~= resolved(
            uuid_index_seq(*universe),
            ls@.subrange(0, i as int),
        ).push(x));
        i = i + 1;
    }
    assert(ls@.subrange(0, ls@.len() as int) == ls@);
    r
}

proof fn lemma_some_free(u: Seq<Uuid>, avoid: Uuid, bound: u128)
    requires
        u.no_duplicates(),
        bound == u.len() + 1,
    ensures
        exists|c: u128| c <= bound && !u.contains(c) && c != avoid,
{
    if forall|c: u128| c <= bound ==> u.contains(c) || c == avoid {
        let range = vstd::set_lib::set_int_range(0, bound + 1);
        vstd::set_lib::lemma_int_range(0, bound + 1);
        let f = |i: int| i as u128;
        let cands = range.map(f);
        assert(vstd::relations::injective_on(f, range)) by {
            assert forall|a: int, b: int| range.contains(a) && range.contains(b) && #[trigger] f(a) == #[trigger] f(b)
                implies a == b by {}
        }
        vstd::set_lib::lemma_map_size(range, cands, f);
        let taken = u.to_set().insert(avoid);
        u.unique_seq_to_set();
        assert(cands.subset_of(taken)) by {
            assert forall|c: u128| cands.contains(c) implies taken.contains(c) by {
                let i = choose|i: int| range.contains(i) && f(i) == c;
                assert(c <= bound);
                if c != avoid {
                    assert(u.contains(c));
                }
            }
        }
        vstd::set_lib::lemma_len_subset(cands, taken);
    }
}

/// The greatest UUID that the universe holds, if any.
fn greatest_uuid(universe: &Universe) -> (r: Option<Uuid>)
    ensures
        r is None <==> uuid_index_seq(*universe).len() == 0,
        r matches Some(m) ==> uuid_index_seq(*universe).contains(m) && forall|i: int|
            0 <= i < uuid_index_seq(*universe).len() ==> #[trigger] uuid_index_seq(*universe)[i] <= m,
{
    let n = universe_len(universe);
    if n == 0 {
        return None;
    }
    let mut m: Uuid = universe_get_index(universe, 0).unwrap();
    let mut i: usize = 1;
    while i < n
        invariant
            n == uuid_index_seq(*universe).len(),
            1 <= i <= n,
            uuid_index_seq(*universe).contains(m),
            forall|j: int| 0 <= j < i ==> #[trigger] uuid_index_seq(*universe)[j] <= m,
        decreases n - i,
    {
        let x = universe_get_index(universe, i).unwrap();
        if x > m {
            m = x;
        }
        i = i + 1;
    }
    Some(m)
}

/// A UUID that the universe does not hold and that differs from `avoid`: a
/// fresh time-ordered one where it lies above every UUID held, else one just
/// above the greatest held. Only where UUIDs near the top of the range are
/// held does it fall back to the first free small value.
fn fresh_uuid(universe: &Universe, avoid: Uuid) -> (r: Uuid)
    requires
        uuid_index_seq(*universe).no_duplicates(),
        uuid_index_seq(*universe).len() <= usize::MAX,
    ensures
        !uuid_index_seq(*universe).contains(r),
        r != avoid,
        (forall|i: int| 0 <= i < uuid_index_seq(*universe).len() ==> #[trigger] uuid_index_seq(*universe)[i] < u128::MAX
            - 1) ==> forall|i: int| 0 <= i < uuid_index_seq(*universe).len() ==> #[trigger] uuid_index_seq(*universe)[i] < r,
{
    let drawn = new_uuid_v7();
    match greatest_uuid(universe) {
        None => {
            if drawn != avoid {
                return drawn;
            }
        },
        Some(m) => {
            if drawn > m && drawn != avoid {
                return drawn;
            }
            if m < u128::MAX - 1 {
                if m + 1 != avoid {
                    return m + 1;
                }
                return m + 2;
            }
        },
    }
    let ghost near_top = uuid_index_seq(*universe).len() == 0 || exists|i: int|
        0 <= i < uuid_index_seq(*universe).len() && uuid_index_seq(*universe)[i] >= u128::MAX - 1;
    assert(near_top);
    let bound: u128 = universe_len(universe) as u128 + 1;
    proof {
        lemma_some_free(uuid_index_seq(*universe), avoid, bound);
    }
    let mut c: u128 = 0;
    while c <= bound
        invariant
            bound == uuid_index_seq(*universe).len() + 1,
            bound < u128::MAX,
            exists|x: u128| c <= x <= bound && !uuid_index_seq(*universe).contains(x) && x != avoid,
            near_top == (uuid_index_seq(*universe).len() == 0 || exists|i: int|
                0 <= i < uuid_index_seq(*universe).len() && uuid_index_seq(*universe)[i] >= u128::MAX - 1),
            near_top,
        decreases bound - c,
    {
        if c != avoid && universe_get_index_of(universe, c).is_none() {
            return c;
        }
        c = c + 1;
    }
    0
}

/// A list holding the given Luids in order.
fn luid_list_of(v: &Vec<Luid>) -> (r: LuidList)
    ensures
        r@ == v@,
{
    let mut r = LuidList::empty();
    let mut i: usize = 0;
    while i < v.len()
        invariant
            i <= v@.len(),
            r@ == v@.subrange(0, i as int),
        decreases v@.len() - i,
    {
        r.push(v[i]);
        assert(v@.subrange(0, i + 1) == v@.subrange(0, i as int).push(v@[i as int]));
        i = i + 1;
    }
    assert(v@.subrange(0, v@.len() as int) == v@);
    r
}

/// The state after a successful checkout of `commit`: the working patch builds
/// on that commit alone and stages nothing, and the working state holds exactly
/// its members; nothing else changed.
pub open spec fn checked_out(old: TotalState, new: TotalState, commit: Luid) -> bool {
    &&& new.staged().target_commit == NIL_UUID
    &&& new.staged().sources() == seq![old.uuids()[commit as int]]
    &&& new.staged().universe_patch.is_empty_spec()
    &&& new.working().no_duplicates()
    &&& forall|l: Luid| #[trigger] new.working().contains(l) <==> old.version_cache@[commit].members().contains(
        l as u64,
    )
    &&& new.universe == old.universe
    &&& new.commits == old.commits
    &&& new.patches == old.patches
    &&& new.heads == old.heads
    &&& new.version_cache == old.version_cache
}

/// The state after committing the working patch of `old` as patch `p` with
/// UUID `patch_id`: both UUIDs are new, the patch is registered, its target
/// commit is materialized and becomes the only head among its sources, and the
/// working patch starts over on that commit.
pub open spec fn committed(old: TotalState, new: TotalState, patch_id: Uuid, p: Patch) -> bool {
    &&& new.wf()
    &&& extends(old.uuids(), new.uuids())
    &&& !old.uuids().contains(patch_id)
    &&& !old.uuids().contains(p.target_commit)
    &&& patch_id != p.target_commit
    &&& new.patches@ == old.patches@.insert(luid_in(new.uuids(), patch_id), p)
    &&& p.sources() == old.staged().sources()
    &&& p.universe_patch == old.staged().universe_patch
    &&& new.commits@.dom() == old.commits@.dom().insert(luid_in(new.uuids(), p.target_commit))
    &&& new.commits@[luid_in(new.uuids(), p.target_commit)]@ == seq![
        (luids_in(new.uuids(), p.sources()), luid_in(new.uuids(), patch_id)),
    ]
    &&& new.uuids().contains(p.target_commit)
    &&& ({
        let u = new.uuids();
        let c = new.version_cache@;
        let t = luid_in(u, p.target_commit);
        &&& c.contains_key(t)
        &&& c[t].members() == apply_set_patch(union_of(c, luids_in(u, p.sources())), u, p.universe_patch)
        &&& new.heads@ == old.heads@.difference(consumed(u, p)).insert(t)
    })
    &&& new.staged().target_commit == NIL_UUID
    &&& new.staged().sources() == seq![p.target_commit]
    &&& new.staged().universe_patch.is_empty_spec()
    &&& new.working_state == old.working_state
    &&& cache_grows(old.version_cache@, new.version_cache@)
}

impl TotalState {
    /// An empty state: nothing known, nothing staged.
    pub fn new() -> (r: TotalState)
        ensures
            r.wf(),
            r.uuids() == Seq::<Uuid>::empty(),
            r.commits@ == Map::<Luid, Derivations>::empty(),
            r.patches@ == Map::<Luid, Patch>::empty(),
            r.heads@ == Set::<Luid>::empty(),
            r.version_cache@ == Map::<Luid, crate::version::Version>::empty(),
            r.staged().target_commit == NIL_UUID,
            r.staged().sources() == Seq::<Uuid>::empty(),
            r.staged().universe_patch.is_empty_spec(),
            r.working() == Seq::<Luid>::empty(),
    {
        TotalState {
            universe: universe_new(),
            commits: BTreeMap::new(),
            patches: BTreeMap::new(),
            heads: BTreeSet::new(),
            version_cache: HashMap::new(),
            working_patch: Patch::new(),
            working_state: luid_set_new(),
        }
    }

    /// The UUID of a Luid.
    pub fn luid_to_uuid(&self, luid: Luid) -> (r: Option<Uuid>)
        ensures
            luid < self.uuids().len() ==> r == Some(self.uuids()[luid as int]),
            luid >= self.uuids().len() ==> r is None,
    {
        universe_get_index(&self.universe, luid)
    }

    /// The Luid of a UUID.
    pub fn uuid_to_luid(&self, uuid: &Uuid) -> (r: Option<Luid>)
        requires
            self.wf(),
        ensures
            self.uuids().contains(*uuid) ==> r == Some(luid_in(self.uuids(), *uuid)),
            !self.uuids().contains(*uuid) ==> r is None,
    {
        let r = universe_get_index_of(&self.universe, *uuid);
        proof {
            if let Some(l) = r {
                lemma_luid_at(self.uuids(), self.uuids()[l as int], l as int);
            }
        }
        r
    }

    /// The known commits (the targets of the known patches), each once.
    pub fn commits(&self) -> (r: Vec<Uuid>)
        requires
            self.wf(),
        ensures
            exists|ks: Seq<Luid>| ks.to_set() == self.commits@.dom() && ks.no_duplicates()
                && r@ == resolved(self.uuids(), ks),
    {
        let ks = keys_of(&self.commits);
        proof {
            assert forall|i: int| 0 <= i < ks@.len() implies #[trigger] ks@[i] < self.uuids().len() by {
                assert(ks@.to_set().contains(ks@[i]));
            }
        }
        resolve_all(&self.universe, &ks)
    }

    /// The heads, each once.
    pub fn heads(&self) -> (r: Vec<Uuid>)
        requires
            self.wf(),
        ensures
            exists|hs: Seq<Luid>| hs.to_set() == self.heads@ && hs.no_duplicates()
                && r@ == resolved(self.uuids(), hs),
    {
        let hs = members_of(&self.heads);
        proof {
            assert forall|i: int| 0 <= i < hs@.len() implies #[trigger] hs@[i] < self.uuids().len() by {
                assert(hs@.to_set().contains(hs@[i]));
            }
        }
        resolve_all(&self.universe, &hs)
    }

    /// The number of entities in the working state.
    pub fn count(&self) -> (r: usize)
        ensures
            r == self.working().len(),
    {
        luid_set_len(&self.working_state)
    }

    /// The entities of the working state, in the order they entered it.
    pub fn list(&self) -> (r: Vec<Uuid>)
        requires
            self.wf(),
        ensures
            r@ == resolved(self.uuids(), self.working()),
    {
        let n = luid_set_len(&self.working_state);
        let mut ls: Vec<Luid> = Vec::new();
        let mut i: usize = 0;
        while i < n
            invariant
                n == self.working().len(),
                i <= n,
                ls@ == self.working().subrange(0, i as int),
            decreases n - i,
        {
            let l = luid_set_get_index(&self.working_state, i).unwrap();
            ls.push(l);
            assert(self.working().subrange(0, i + 1) == self.working().subrange(0, i as int).push(l));
            i = i + 1;
        }
        assert(self.working().subrange(0, n as int) == self.working());
        resolve_all(&self.universe, &ls)
    }

    /// Registers a loaded patch: its own UUID, its additions, its target and its
    /// sources enter the universe; it is stored under its Luid; and its target
    /// is recorded as derived from its sources by it. Returns the patch's Luid.
    pub fn index_patch(&mut self, patch_uuid: Uuid, patch: Patch) -> (r: Luid)
        requires
            old(self).wf(),
        ensures
            final(self).wf(),
            extends(old(self).uuids(), final(self).uuids()),
            final(self).uuids().contains(patch_uuid),
            r == luid_in(final(self).uuids(), patch_uuid),
            final(self).uuids().contains(patch.target_commit),
            forall|i: int| 0 <= i < patch.sources().len() ==> final(self).uuids().contains(
                #[trigger] patch.sources()[i],
            ),
            forall|x: Uuid| #[trigger] patch.universe_patch.additions@.contains(x) ==> final(self).uuids().contains(x),
            final(self).patches@ == old(self).patches@.insert(r, patch),
            final(self).commits@.dom() == old(self).commits@.dom().insert(
                luid_in(final(self).uuids(), patch.target_commit),
            ),
            final(self).commits@[luid_in(final(self).uuids(), patch.target_commit)]@ == seq![
                (luids_in(final(self).uuids(), patch.sources()), r),
            ],
            forall|k: Luid| #[trigger] old(self).commits@.contains_key(k) && k != luid_in(
                final(self).uuids(),
                patch.target_commit,
            ) ==> final(self).commits@[k] == old(self).commits@[k],
            final(self).heads == old(self).heads,
            final(self).version_cache == old(self).version_cache,
            final(self).working_patch == old(self).working_patch,
            final(self).working_state == old(self).working_state,
            old(self).uuids().contains(patch_uuid) && old(self).uuids().contains(patch.target_commit) && (forall|i: int|
                0 <= i < patch.sources().len() ==> old(self).uuids().contains(#[trigger] patch.sources()[i])) && (forall|x: Uuid|
                #[trigger] patch.universe_patch.additions@.contains(x) ==> old(self).uuids().contains(x))
                ==> final(self).uuids() == old(self).uuids() && (old(self).patches@.contains_key(r)
                && old(self).patches@[r] == patch ==> final(self).patches@ == old(self).patches@),
    {
        let ghost u0 = self.uuids();
        let ghost before = self.uuids();
        let (pl, _) = universe_insert_full(&mut self.universe, patch_uuid);
        proof {
            if !before.contains(patch_uuid) {
                lemma_push_distinct(before, patch_uuid);
            }
        }
        let ghost u1 = self.uuids();
        let adds = uuids_of_set(&patch.universe_patch.additions);
        let add_luids = register_uuids(&mut self.universe, &adds);
        let ghost u2 = self.uuids();
        let (tl, _) = universe_insert_full(&mut self.universe, patch.target_commit);
        proof {
            if !u2.contains(patch.target_commit) {
                lemma_push_distinct(u2, patch.target_commit);
            }
        }
        let ghost u3 = self.uuids();
        let srcs = patch.source_commits.to_vec();
        let src_luids = register_uuids(&mut self.universe, &srcs);
        let ghost uf = self.uuids();
        let list = luid_list_of(&src_luids);
        self.patches.insert(pl, patch);
        self.commits.insert(tl, Derivations::single(list, pl));
        proof {
            assert(uf[pl as int] == patch_uuid);
            lemma_luid_at(uf, uf[pl as int], pl as int);
            assert(uf[tl as int] == patch.target_commit);
            lemma_luid_at(uf, uf[tl as int], tl as int);
            assert forall|i: int| 0 <= i < patch.sources().len() implies uf.contains(#[trigger] patch.sources()[i]) by {
                assert(uf[src_luids@[i] as int] == patch.sources()[i]);
            }
            assert(src_luids@ =~= luids_in(uf, patch.sources())) by {
                assert forall|i: int| 0 <= i < src_luids@.len() implies src_luids@[i] == luids_in(uf, patch.sources())[i] by {
                    lemma_luid_at(uf, uf[src_luids@[i] as int], src_luids@[i] as int);
                }
            }
            assert forall|x: Uuid| #[trigger] patch.universe_patch.additions@.contains(x) implies uf.contains(x) by {
                assert(adds@.to_set().contains(x));
                let j = choose|j: int| 0 <= j < adds@.len() && adds@[j] == x;
                assert(u2[add_luids@[j] as int] == x);
                assert(uf[add_luids@[j] as int] == x);
            }
            lemma_sources_stay_materialized(u0, self.version_cache@, uf, self.version_cache@, self.working_patch);
            assert(self.working() == old(self).working());
            if u0.contains(patch_uuid) && u0.contains(patch.target_commit) && (forall|i: int|
                0 <= i < patch.sources().len() ==> u0.contains(#[trigger] patch.sources()[i])) && (forall|x: Uuid|
                #[trigger] patch.universe_patch.additions@.contains(x) ==> u0.contains(x)) {
                assert(u1 == u0);
                assert forall|j: int| 0 <= j < adds@.len() implies u1.contains(#[trigger] adds@[j]) by {
                    assert(adds@.to_set().contains(adds@[j]));
                }
                assert(u2 == u1);
                assert(u3 == u2);
                assert forall|j: int| 0 <= j < srcs@.len() implies u3.contains(#[trigger] srcs@[j]) by {
                    assert(srcs@[j] == patch.sources()[j]);
                }
                assert(uf == u3);
                if old(self).patches@.contains_key(pl) && old(self).patches@[pl] == patch {
                    assert(self.patches@ =~= old(self).patches@);
                }
            }
            assert forall|i: int| 0 <= i < self.working().len() implies #[trigger] self.working()[i] < uf.len() by {
                assert(old(self).working()[i] < u0.len());
            }
        }
        pl
    }

    /// Makes `commit` (a Luid) the base of the working patch and copies its
    /// membership into the working state. Fails with `NotFound` where it has no
    /// cached version, and otherwise with `PreconditionViolation` where the
    /// working patch stages edits; a failure changes nothing.
    pub fn checkout_luid(&mut self, commit: Luid) -> (r: Result<(), StateError>)
        requires
            old(self).wf(),
        ensures
            final(self).wf(),
            !old(self).version_cache@.contains_key(commit) ==> r == Err::<(), StateError>(StateError::NotFound),
            old(self).version_cache@.contains_key(commit) && !old(self).staged().universe_patch.is_empty_spec()
                ==> r == Err::<(), StateError>(StateError::PreconditionViolation),
            old(self).version_cache@.contains_key(commit) && old(self).staged().universe_patch.is_empty_spec()
                ==> r is Ok,
            r is Err ==> *final(self) == *old(self),
            r is Ok ==> checked_out(*old(self), *final(self), commit),
    {
        let version = match self.version_cache.get(&commit) {
            Some(v) => v,
            None => return Err(StateError::NotFound),
        };
        if !self.working_patch.is_empty() {
            return Err(StateError::PreconditionViolation);
        }
        let ghost members = version.members();
        assert(self.version_cache@[commit] == *version);
        let uuid = universe_get_index(&self.universe, commit).unwrap();
        let n = universe_len(&self.universe);
        let elems = treemap_to_vec(&version.version_universe);
        let mut ws = luid_set_new();
        let mut i: usize = 0;
        while i < elems.len()
            invariant
                i <= elems@.len(),
                n == self.uuids().len(),
                cache_bounded(self.version_cache@, self.uuids().len()),
                self.version_cache@.contains_key(commit),
                members == self.version_cache@[commit].members(),
                elems@.to_set() == members,
                luid_index_seq(ws).no_duplicates(),
                forall|l: Luid| #[trigger] luid_index_seq(ws).contains(l) <==> exists|j: int|
                    0 <= j < i && elems@[j] == l as u64,
                forall|k: int| 0 <= k < luid_index_seq(ws).len() ==> #[trigger] luid_index_seq(ws)[k] < n,
            decreases elems@.len() - i,
        {
            let x = elems[i];
            assert(members.contains(x));
            assert(x < n);
            let ghost before = luid_index_seq(ws);
            luid_set_insert(&mut ws, x as usize);
            proof {
                if !before.contains(x as usize) {
                    assert forall|a: int, b: int| 0 <= a < b < luid_index_seq(ws).len() implies luid_index_seq(ws)[a]
                        != luid_index_seq(ws)[b] by {
                        if b == before.len() {
                            assert(before[a] == luid_index_seq(ws)[a]);
                        }
                    }
                }
                assert forall|l: Luid| #[trigger] luid_index_seq(ws).contains(l) <==> exists|j: int|
                    0 <= j < i + 1 && elems@[j] == l as u64 by {
                    if luid_index_seq(ws).contains(l) && l != x as usize {
                        let a = choose|a: int| 0 <= a < luid_index_seq(ws).len() && luid_index_seq(ws)[a] == l;
                        assert(before[a] == l);
                        assert(before.contains(l));
                    }
                    if exists|j: int| 0 <= j < i + 1 && elems@[j] == l as u64 {
                        let j = choose|j: int| 0 <= j < i + 1 && elems@[j] == l as u64;
                        if j == i {
                            assert(l == x as usize);
                            if !before.contains(x as usize) {
                                assert(luid_index_seq(ws)[before.len() as int] == l);
                            }
                        } else {
                            assert(before.contains(l));
                            let a = choose|a: int| 0 <= a < before.len() && before[a] == l;
                            assert(luid_index_seq(ws)[a] == l);
                        }
                    }
                }
            }
            i = i + 1;
        }
        self.working_patch.clear();
        self.working_patch.source_commits.push(uuid);
        self.working_state = ws;
        proof {
            assert(self.staged().sources() =~= seq![uuid]);
            assert forall|l: Luid| #[trigger] self.working().contains(l) <==> members.contains(l as u64) by {
                if members.contains(l as u64) {
                    assert(elems@.to_set().contains(l as u64));
                    let j = choose|j: int| 0 <= j < elems@.len() && elems@[j] == l as u64;
                }
            }
            lemma_luid_at(self.uuids(), self.uuids()[commit as int], commit as int);
        }
        Ok(())
    }

    /// `checkout_luid` on the Luid of a commit UUID; `NotFound` where the
    /// universe does not know the UUID.
    pub fn checkout(&mut self, commit: &Uuid) -> (r: Result<(), StateError>)
        requires
            old(self).wf(),
        ensures
            final(self).wf(),
            !old(self).uuids().contains(*commit) ==> r == Err::<(), StateError>(StateError::NotFound),
            old(self).uuids().contains(*commit) ==> {
                let l = luid_in(old(self).uuids(), *commit);
                &&& !old(self).version_cache@.contains_key(l) ==> r == Err::<(), StateError>(StateError::NotFound)
                &&& old(self).version_cache@.contains_key(l) && !old(self).staged().universe_patch.is_empty_spec()
                    ==> r == Err::<(), StateError>(StateError::PreconditionViolation)
                &&& old(self).version_cache@.contains_key(l) && old(self).staged().universe_patch.is_empty_spec()
                    ==> r is Ok
                &&& r is Ok ==> checked_out(*old(self), *final(self), l)
            },
            r is Err ==> *final(self) == *old(self),
    {
        let l = match universe_get_index_of(&self.universe, *commit) {
            Some(l) => l,
            None => return Err(StateError::NotFound),
        };
        proof {
            lemma_luid_at(self.uuids(), self.uuids()[l as int], l as int);
        }
        self.checkout_luid(l)
    }

    /// Creates a new entity with a fresh time-ordered UUID: it enters the
    /// universe and the working state, and is staged as an addition.
    pub fn add(&mut self) -> (r: Uuid)
        requires
            old(self).wf(),
        ensures
            final(self).wf(),
            !old(self).uuids().contains(r),
            r != NIL_UUID,
            (forall|i: int| 0 <= i < old(self).uuids().len() ==> #[trigger] old(self).uuids()[i] < u128::MAX - 1)
                ==> forall|i: int| 0 <= i < old(self).uuids().len() ==> #[trigger] old(self).uuids()[i] < r,
            final(self).uuids() == old(self).uuids().push(r),
            final(self).working() == old(self).working().push(old(self).uuids().len() as Luid),
            final(self).staged().universe_patch.additions@ == old(self).staged().universe_patch.additions@.insert(r),
            final(self).staged().universe_patch.deletions@ == old(self).staged().universe_patch.deletions@,
            final(self).staged().universe_patch.merges@ == old(self).staged().universe_patch.merges@,
            final(self).staged().sources() == old(self).staged().sources(),
            final(self).staged().target_commit == old(self).staged().target_commit,
            final(self).commits == old(self).commits,
            final(self).patches == old(self).patches,
            final(self).heads == old(self).heads,
            final(self).version_cache == old(self).version_cache,
    {
        let uuid = fresh_uuid(&self.universe, NIL_UUID);
        let ghost u0 = self.uuids();
        let (l, _) = universe_insert_full(&mut self.universe, uuid);
        proof {
            if !u0.contains(uuid) {
                lemma_push_distinct(u0, uuid);
            }
            lemma_luid_at(self.uuids(), self.uuids()[l as int], l as int);
            lemma_sources_stay_materialized(u0, self.version_cache@, self.uuids(), self.version_cache@, self.working_patch);
        }
        let ghost w0 = self.working();
        assert(old(self).working() == w0);
        assert(l < self.uuids().len());
        assert(!w0.contains(l)) by {
            if w0.contains(l) {
                let a = choose|a: int| 0 <= a < w0.len() && w0[a] == l;
                assert(w0[a] < u0.len());
            }
        }
        luid_set_insert(&mut self.working_state, l);
        proof {
            assert forall|l2: Luid| #[trigger] w0.contains(l2) implies self.working().contains(l2) by {
                let a = choose|a: int| 0 <= a < w0.len() && w0[a] == l2;
                assert(self.working()[a] == l2);
            }
            assert(self.working().contains(l)) by {
                if !w0.contains(l) {
                    assert(self.working()[w0.len() as int] == l);
                }
            }
            assert forall|l2: Luid| #[trigger] self.working().contains(l2) implies w0.contains(l2) || l2 == l by {
                let a = choose|a: int| 0 <= a < self.working().len() && self.working()[a] == l2;
                if a < w0.len() {
                    assert(w0[a] == l2);
                }
            }
            assert forall|i: int| 0 <= i < self.working().len() implies #[trigger] self.working()[i] < self.uuids().len() by {
                if i < w0.len() {
                    assert(w0[i] == self.working()[i]);
                    assert(w0[i] < u0.len());
                } else {
                    assert(self.working().len() > w0.len());
                    assert(!w0.contains(l));
                    assert(self.working() == w0.push(l));
                    assert(self.working()[i] == l);
                    assert(l < self.uuids().len());
                }
            }
        }
        let ghost wp0 = self.working_patch;
        self.working_patch.universe_patch.additions.insert(uuid);
        proof {
            assert(self.working_patch.sources() == wp0.sources());
        }
        uuid
    }

    /// Two UUIDs for the next commit, the patch's and the commit's: distinct,
    /// new to the universe, and above every UUID it holds.
    pub fn fresh_commit_ids(&self) -> (r: (Uuid, Uuid))
        requires
            self.wf(),
        ensures
            !self.uuids().contains(r.0),
            !self.uuids().contains(r.1),
            r.0 != r.1,
            (forall|i: int| 0 <= i < self.uuids().len() ==> #[trigger] self.uuids()[i] < u128::MAX - 1) ==> forall|i: int|
                0 <= i < self.uuids().len() ==> #[trigger] self.uuids()[i] < r.0 && self.uuids()[i] < r.1,
    {
        let patch_id = fresh_uuid(&self.universe, NIL_UUID);
        let commit_id = fresh_uuid(&self.universe, patch_id);
        (patch_id, commit_id)
    }

    /// Commits the working patch as patch `patch_id` with target commit
    /// `commit_id`: it is registered and its target is materialized; the
    /// working patch then starts over on the new commit. Returns the stored
    /// patch. Fails with `PreconditionViolation`, changing nothing, unless the
    /// two UUIDs are distinct and new to the universe.
    pub fn commit_as(&mut self, patch_id: Uuid, commit_id: Uuid) -> (r: Result<(Uuid, &Patch), StateError>)
        requires
            old(self).wf(),
        ensures
            final(self).wf(),
            old(self).uuids().contains(patch_id) || old(self).uuids().contains(commit_id) || patch_id == commit_id
                ==> r == Err::<(Uuid, &Patch), StateError>(StateError::PreconditionViolation) && *final(self)
                == *old(self),
            !(old(self).uuids().contains(patch_id) || old(self).uuids().contains(commit_id) || patch_id
                == commit_id) ==> (r matches Ok((id, p)) && id == patch_id && p.target_commit == commit_id
                && committed(*old(self), *final(self), id, *p)),
    {
        if universe_get_index_of(&self.universe, patch_id).is_some() || universe_get_index_of(
            &self.universe,
            commit_id,
        ).is_some() || patch_id == commit_id {
            return Err(StateError::PreconditionViolation);
        }
        let mut written = Patch::new();
        std::mem::swap(&mut written, &mut self.working_patch);
        written.target_commit = commit_id;
        let ghost wp = written;
        let ghost u_old = self.uuids();
        let ghost c_old = self.version_cache@;
        proof {
            assert(wp.sources() == old(self).staged().sources());
            assert forall|i: int| 0 <= i < wp.sources().len() implies u_old.contains(#[trigger] wp.sources()[i])
                && c_old.contains_key(luid_in(u_old, wp.sources()[i])) by {
                assert(old(self).staged().sources()[i] == wp.sources()[i]);
            }
            assert(self.staged().sources().len() == 0);
            assert(self.working() == old(self).working());
        }
        let pl = self.index_patch(patch_id, written);
        let ghost u_mid = self.uuids();
        let ghost c_mid = self.version_cache@;
        let ghost h_mid = self.heads@;
        proof {
            lemma_sources_stay_materialized(u_old, c_old, u_mid, c_mid, wp);
            assert(self.patches@[pl] == wp);
        }
        let res = process_patch(
            &mut self.universe,
            &mut self.version_cache,
            &self.commits,
            &mut self.heads,
            &self.patches,
            pl,
        );
        assert(res is Ok);
        self.working_patch.source_commits.push(commit_id);
        proof {
            let u = self.uuids();
            lemma_luid_extends(u_mid, u, patch_id);
            lemma_luid_extends(u_mid, u, commit_id);
            assert(luids_in(u, wp.sources()) =~= luids_in(u_mid, wp.sources())) by {
                assert forall|i: int| 0 <= i < wp.sources().len() implies luids_in(u, wp.sources())[i] == luids_in(
                    u_mid,
                    wp.sources(),
                )[i] by {
                    lemma_luid_extends(u_mid, u, wp.sources()[i]);
                }
            }
            assert(self.staged().sources() =~= seq![commit_id]);
            if !u_old.contains(commit_id) {
                assert(c_mid == c_old);
                let a = choose|a: int| 0 <= a < u_mid.len() && u_mid[a] == commit_id;
                lemma_luid_at(u_mid, commit_id, a);
                if a < u_old.len() {
                    assert(u_mid[a] == u_old[a]);
                }
                assert(!c_mid.contains_key(luid_in(u_mid, commit_id)));
                assert(!already_materialized(u_mid, c_mid, wp));
                let t = luid_in(u, commit_id);
                lemma_luid_extends(u_mid, u, commit_id);
                assert forall|i: int| 0 <= i < wp.sources().len() implies !self.heads@.contains(
                    luid_in(u, #[trigger] wp.sources()[i]),
                ) by {
                    lemma_luid_extends(u_mid, u, wp.sources()[i]);
                    assert(c_mid.contains_key(luid_in(u_mid, wp.sources()[i])));
                    assert(luid_in(u, wp.sources()[i]) != t);
                }
            }
            assert forall|i: int| 0 <= i < self.working().len() implies #[trigger] self.working()[i] < u.len() by {
                assert(old(self).working()[i] < u_old.len());
            }
        }
        Ok((patch_id, self.patches.get(&pl).unwrap()))
    }

    /// Commits the working patch under two fresh UUIDs (see `commit_as`).
    /// Returns the patch's UUID and the stored patch, which the caller persists.
    pub fn commit(&mut self) -> (r: (Uuid, &Patch))
        requires
            old(self).wf(),
        ensures
            final(self).wf(),
            committed(*old(self), *final(self), r.0, *r.1),
            (forall|i: int| 0 <= i < old(self).uuids().len() ==> #[trigger] old(self).uuids()[i] < u128::MAX - 1)
                ==> forall|i: int| 0 <= i < old(self).uuids().len() ==> #[trigger] old(self).uuids()[i] < r.0
                && old(self).uuids()[i] < r.1.target_commit,
    {
        let (patch_id, commit_id) = self.fresh_commit_ids();
        let r = self.commit_as(patch_id, commit_id);
        r.unwrap()
    }

    /// Materializes every registered patch that is not yet, then checks out the
    /// greatest head, if any. Stops at the first failure and returns it. Where
    /// the working patch stages edits, they are kept and the skipped checkout is
    /// reported as `PreconditionViolation`. A sound history with nothing staged
    /// never fails.
    pub fn process_loaded_patches(&mut self) -> (r: Result<(), StateError>)
        requires
            old(self).wf(),
        ensures
            final(self).wf(),
            final(self).patches == old(self).patches,
            final(self).commits == old(self).commits,
            extends(old(self).uuids(), final(self).uuids()),
            sound_history(old(self).uuids(), old(self).commits@, old(self).patches@)
                && old(self).staged().universe_patch.is_empty_spec() ==> r is Ok,
            (forall|k: Luid| #[trigger] old(self).patches@.contains_key(k) ==> already_materialized(
                old(self).uuids(),
                old(self).version_cache@,
                old(self).patches@[k],
            )) ==> final(self).uuids() == old(self).uuids() && final(self).version_cache@
                == old(self).version_cache@ && final(self).heads@ == old(self).heads@
                && (old(self).staged().universe_patch.is_empty_spec() ==> r is Ok),
            new_versions_produced(final(self).uuids(), old(self).version_cache@, final(self).version_cache@, final(self).patches@),
            r is Ok && !final(self).heads@.is_empty() ==> exists|h: Luid| #[trigger] final(self).heads@.contains(h)
                && (forall|x: Luid| #[trigger] final(self).heads@.contains(x) ==> x <= h)
                && final(self).staged().sources() == seq![final(self).uuids()[h as int]]
                && final(self).staged().universe_patch.is_empty_spec()
                && final(self).staged().target_commit == NIL_UUID
                && final(self).working().no_duplicates()
                && forall|l: Luid| #[trigger] final(self).working().contains(l) <==> final(self).version_cache@[h].members().contains(
                    l as u64,
                ),
            r is Err || !old(self).staged().universe_patch.is_empty_spec() ==> final(self).working_patch == old(
                self,
            ).working_patch && final(self).working_state == old(self).working_state,
            r is Ok ==> forall|k: Luid| #[trigger] final(self).patches@.contains_key(k) ==> already_materialized(
                final(self).uuids(),
                final(self).version_cache@,
                final(self).patches@[k],
            ),
    {
        let keys = keys_of(&self.patches);
        let mut i: usize = 0;
        while i < keys.len()
            invariant
                i <= keys@.len(),
                self.wf(),
                self.patches == old(self).patches,
                self.commits == old(self).commits,
                self.working_patch == old(self).working_patch,
                self.working_state == old(self).working_state,
                keys@.to_set() == self.patches@.dom(),
                extends(old(self).uuids(), self.uuids()),
                new_versions_produced(self.uuids(), old(self).version_cache@, self.version_cache@, self.patches@),
                (forall|k: Luid| #[trigger] old(self).patches@.contains_key(k) ==> already_materialized(
                    old(self).uuids(),
                    old(self).version_cache@,
                    old(self).patches@[k],
                )) ==> self.uuids() == old(self).uuids() && self.version_cache@ == old(self).version_cache@
                    && self.heads@ == old(self).heads@,
                sound_history(old(self).uuids(), old(self).commits@, old(self).patches@) ==> sound_history(
                    self.uuids(),
                    self.commits@,
                    self.patches@,
                ),
                forall|j: int| 0 <= j < i ==> already_materialized(
                    self.uuids(),
                    self.version_cache@,
                    #[trigger] self.patches@[keys@[j]],
                ),
            decreases keys@.len() - i,
        {
            let ghost u0 = self.uuids();
            let ghost c0 = self.version_cache@;
            let ghost w0 = self.working();
            proof {
                assert(keys@.to_set().contains(keys@[i as int]));
            }
            assert forall|ii: int| 0 <= ii < w0.len() implies #[trigger] w0[ii] < u0.len() by {
                assert(self.working()[ii] < u0.len());
            }
            let res = process_patch(
                &mut self.universe,
                &mut self.version_cache,
                &self.commits,
                &mut self.heads,
                &self.patches,
                keys[i],
            );
            proof {
                let u = self.uuids();
                let c = self.version_cache@;
                lemma_sources_stay_materialized(u0, c0, u, c, self.working_patch);
                assert forall|j: int| 0 <= j < i implies already_materialized(
                    u,
                    c,
                    #[trigger] self.patches@[keys@[j]],
                ) by {
                    let p = self.patches@[keys@[j]];
                    assert(already_materialized(u0, c0, p));
                    lemma_luid_extends(u0, u, p.target_commit);
                }
                assert forall|kk: Luid| #[trigger] self.commits@.contains_key(kk) implies kk < u.len() by {
                    assert(kk < u0.len());
                }
                assert(self.working() == w0);
                assert forall|ii: int| 0 <= ii < self.working().len() implies #[trigger] self.working()[ii] < u.len() by {
                    assert(w0[ii] < u0.len());
                }
                if sound_history(u0, self.commits@, self.patches@) {
                    lemma_sound_extends(u0, u, self.commits@, self.patches@);
                }
                assert forall|k: Luid| #[trigger] c.contains_key(k) && !old(self).version_cache@.contains_key(k) implies exists|qq: Luid|
                    self.patches@.contains_key(qq) && #[trigger] produced_by(u, c, self.patches@[qq], k) by {
                    if c0.contains_key(k) {
                        let qq = choose|qq: Luid| self.patches@.contains_key(qq) && #[trigger] produced_by(u0, c0, self.patches@[qq], k);
                        lemma_produced_stable(u0, c0, u, c, self.patches@[qq], k);
                    }
                }
            }
            match res {
                Err(e) => return Err(e),
                Ok(()) => {},
            }
            i = i + 1;
        }
        proof {
            assert forall|k: Luid| #[trigger] self.patches@.contains_key(k) implies already_materialized(
                self.uuids(),
                self.version_cache@,
                self.patches@[k],
            ) by {
                assert(keys@.to_set().contains(k));
                let j = choose|j: int| 0 <= j < keys@.len() && keys@[j] == k;
            }
        }
        let hs = members_of(&self.heads);
        if hs.len() > 0 && !self.working_patch.is_empty() {
            return Err(StateError::PreconditionViolation);
        }
        if hs.len() == 0 {
            assert(self.heads@ =~= Set::<Luid>::empty()) by {
                assert forall|x: Luid| !self.heads@.contains(x) by {
                    if self.heads@.contains(x) {
                        assert(hs@.to_set().contains(x));
                    }
                }
            }
            return Ok(());
        }
        let mut best: Luid = hs[0];
        let mut j: usize = 1;
        while j < hs.len()
            invariant
                1 <= j <= hs@.len(),
                hs@.contains(best),
                forall|a: int| 0 <= a < j ==> hs@[a] <= best,
            decreases hs@.len() - j,
        {
            if hs[j] > best {
                best = hs[j];
            }
            j = j + 1;
        }
        let ghost before = *self;
        let r = self.checkout_luid(best);
        proof {
            assert(hs@.to_set().contains(best));
            assert forall|x: Luid| #[trigger] self.heads@.contains(x) implies x <= best by {
                assert(hs@.to_set().contains(x));
                let a = choose|a: int| 0 <= a < hs@.len() && hs@[a] == x;
            }
            if r is Ok {
                assert(self.uuids() == before.uuids());
            }
            assert(self.version_cache@.contains_key(best));
        }
        r
    }
}

} // verus!
