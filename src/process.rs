use vstd::prelude::*;

use crate::bitmap::{treemap_insert, treemap_new, treemap_remove, treemap_set, treemap_union_with};
use crate::id::{Luid, Uuid};
use crate::patch::Patch;
use crate::state::{
    already_materialized, cache_bounded, engine_frame, extends, lemma_luid_at, luid_in, luids_in, luids_of,
    materialized, sources_materialized, superseded, union_of, Commits, Heads, Patches, StateError,
    VersionCache, apply_set_patch, entries_of_map, uuids_of_set, lemma_push_distinct, lemma_luid_extends,
    lemma_ranked_extends, ranked_history, sound_history, consumed, new_versions_produced, produced_by, lemma_produced_stable,
};
use crate::universe::{universe_get_index_of, universe_insert_full, uuid_index_seq, Universe};
use crate::version::Version;
use roaring::RoaringTreemap;

verus! {

broadcast use vstd::std_specs::btree::group_btree_axioms, vstd::laws_cmp::group_laws_cmp,
    vstd::std_specs::hash::group_hash_axioms;

fn contains_luid(v: &Vec<Luid>, x: Luid) -> (r: bool)
    ensures
        r == v@.contains(x),
{
    let mut i: usize = 0;
    while i < v.len()
        invariant
            i <= v@.len(),
            forall|j: int| 0 <= j < i ==> v@[j] != x,
        decreases v@.len() - i,
    {
        if v[i] == x {
            return true;
        }
        i = i + 1;
    }
    false
}

/// Inserts each UUID into the universe and returns their Luids, in order.
pub(crate) fn register_uuids(universe: &mut Universe, xs: &Vec<Uuid>) -> (r: Vec<Luid>)
    requires
        uuid_index_seq(*old(universe)).no_duplicates(),
    ensures
        extends(uuid_index_seq(*old(universe)), uuid_index_seq(*final(universe))),
        uuid_index_seq(*old(universe)).len() <= usize::MAX ==> uuid_index_seq(*final(universe)).len() <= usize::MAX,
        uuid_index_seq(*final(universe)).no_duplicates(),
        (forall|j: int| 0 <= j < xs@.len() ==> uuid_index_seq(*old(universe)).contains(#[trigger] xs@[j]))
            ==> uuid_index_seq(*final(universe)) == uuid_index_seq(*old(universe)),
        r@.len() == xs@.len(),
        forall|j: int| 0 <= j < r@.len() ==> (#[trigger] r@[j]) < uuid_index_seq(*final(universe)).len()
            && uuid_index_seq(*final(universe))[r@[j] as int] == xs@[j],
{
    let ghost u0 = uuid_index_seq(*universe);
    let mut r: Vec<Luid> = Vec::new();
    let mut i: usize = 0;
    while i < xs.len()
        invariant
            i <= xs@.len(),
            extends(u0, uuid_index_seq(*universe)),
            u0.len() <= usize::MAX ==> uuid_index_seq(*universe).len() <= usize::MAX,
            uuid_index_seq(*universe).no_duplicates(),
            (forall|j: int| 0 <= j < xs@.len() ==> u0.contains(#[trigger] xs@[j])) ==> uuid_index_seq(*universe) == u0,
            r@.len() == i,
            forall|j: int| 0 <= j < i ==> (#[trigger] r@[j]) < uuid_index_seq(*universe).len()
                && uuid_index_seq(*universe)[r@[j] as int] == xs@[j],
        decreases xs@.len() - i,
    {
        let ghost before = uuid_index_seq(*universe);
        let (l, _) = universe_insert_full(universe, xs[i]);
        proof {
            if !before.contains(xs@[i as int]) {
                lemma_push_distinct(before, xs@[i as int]);
            }
        }
        r.push(l);
        i = i + 1;
    }
    r
}

/// The union of the memberships of the given cached commits.
fn union_sources(cache: &VersionCache, ls: &Vec<Luid>) -> (r: RoaringTreemap)
    requires
        forall|j: int| 0 <= j < ls@.len() ==> cache@.contains_key(#[trigger] ls@[j]),
    ensures
        treemap_set(r) == union_of(cache@, ls@),
{
    let mut r = treemap_new();
    let mut i: usize = 0;
    while i < ls.len()
        invariant
            i <= ls@.len(),
            forall|j: int| 0 <= j < ls@.len() ==> cache@.contains_key(#[trigger] ls@[j]),
            treemap_set(r) == union_of(cache@, ls@.subrange(0, i as int)),
        decreases ls@.len() - i,
    {
        let v = cache.get(&ls[i]).unwrap();
        assert(cache@[ls@[i as int]] == *v);
        let ghost before = treemap_set(r);
        treemap_union_with(&mut r, &v.version_universe);
        proof {
            let pre = ls@.subrange(0, i as int);
            let post = ls@.subrange(0, i + 1);
            assert(post[i as int] == ls@[i as int]);
            assert forall|x: u64| treemap_set(r).contains(x) == union_of(cache@, post).contains(x) by {
                if before.contains(x) {
                    let j = choose|j: int| 0 <= j < pre.len() && (#[trigger] cache@[pre[j]]).members().contains(x);
                    assert(post[j] == pre[j]);
                }
                if union_of(cache@, post).contains(x) {
                    let j = choose|j: int| 0 <= j < post.len() && (#[trigger] cache@[post[j]]).members().contains(x);
                    if j < i {
                        assert(pre[j] == post[j]);
                    }
                }
            }
            assert(treemap_set(r) =~= union_of(cache@, post));
        }
        i = i + 1;
    }
    assert(ls@.subrange(0, ls@.len() as int) == ls@);
    r
}

/// Removes from `members` the Luid of each UUID of `xs` that the universe holds.
fn remove_luids_of(universe: &Universe, members: &mut RoaringTreemap, xs: &Vec<Uuid>)
    requires
        uuid_index_seq(*universe).no_duplicates(),
    ensures
        treemap_set(*final(members)) == treemap_set(*old(members)).difference(
            luids_of(uuid_index_seq(*universe), xs@.to_set()),
        ),
{
    let ghost u = uuid_index_seq(*universe);
    let ghost m0 = treemap_set(*members);
    let mut i: usize = 0;
    while i < xs.len()
        invariant
            i <= xs@.len(),
            u == uuid_index_seq(*universe),
            u.no_duplicates(),
            treemap_set(*members) == m0.difference(luids_of(u, xs@.subrange(0, i as int).to_set())),
        decreases xs@.len() - i,
    {
        let ghost before = treemap_set(*members);
        let ghost pre = xs@.subrange(0, i as int);
        let ghost post = xs@.subrange(0, i + 1);
        proof {
            assert(post == pre.push(xs@[i as int]));
            pre.lemma_push_to_set_commute(xs@[i as int]);
        }
        match universe_get_index_of(universe, xs[i]) {
            Some(l) => {
                treemap_remove(members, l as u64);
                proof {
                    assert forall|y: u64| treemap_set(*members).contains(y) == m0.difference(
                        luids_of(u, post.to_set()),
                    ).contains(y) by {
                        if y < u.len() && u[y as int] == xs@[i as int] {
                            assert(u[l as int] == u[y as int]);
                            assert(y as int == l as int);
                        }
                    }
                    assert(treemap_set(*members) =~= m0.difference(luids_of(u, post.to_set())));
                }
            },
            None => {
                proof {
                    assert(luids_of(u, post.to_set()) =~= luids_of(u, pre.to_set()));
                }
            },
        }
        i = i + 1;
    }
    assert(xs@.subrange(0, xs@.len() as int) == xs@);
}

/// Some of the first `n` merge entries maps `x` to another UUID.
spec fn superseded_in(entries: Seq<(Uuid, Uuid)>, n: int, x: Uuid) -> bool {
    exists|j: int| 0 <= j < n && (#[trigger] entries[j]).0 == x && entries[j].1 != x
}

/// The UUIDs that a list of merge entries maps to another UUID.
fn superseded_of(entries: &Vec<(Uuid, Uuid)>) -> (r: Vec<Uuid>)
    ensures
        forall|j: int| 0 <= j < entries@.len() && (#[trigger] entries@[j]).0 != entries@[j].1 ==> r@.contains(
            entries@[j].0,
        ),
        forall|a: int| 0 <= a < r@.len() ==> superseded_in(entries@, entries@.len() as int, #[trigger] r@[a]),
{
    let mut r: Vec<Uuid> = Vec::new();
    let mut i: usize = 0;
    while i < entries.len()
        invariant
            i <= entries@.len(),
            forall|j: int| 0 <= j < i && (#[trigger] entries@[j]).0 != entries@[j].1 ==> r@.contains(
                entries@[j].0,
            ),
            forall|a: int| 0 <= a < r@.len() ==> superseded_in(entries@, i as int, #[trigger] r@[a]),
        decreases entries@.len() - i,
    {
        let (k, v) = entries[i];
        let ghost before = r@;
        if k != v {
            r.push(k);
            proof {
                assert forall|j: int| 0 <= j < i + 1 && (#[trigger] entries@[j]).0 != entries@[j].1 implies r@.contains(
                    entries@[j].0,
                ) by {
                    if j < i {
                        let a = choose|a: int| 0 <= a < before.len() && before[a] == entries@[j].0;
                        assert(r@[a] == entries@[j].0);
                    } else {
                        assert(r@[before.len() as int] == k);
                    }
                }
                assert(entries@[i as int].0 == k);
            }
        }
        assert forall|a: int| 0 <= a < r@.len() implies superseded_in(entries@, i + 1, #[trigger] r@[a]) by {
            if a < before.len() {
                assert(r@[a] == before[a]);
                assert(superseded_in(entries@, i as int, before[a]));
                let j = choose|j: int| 0 <= j < i && (#[trigger] entries@[j]).0 == before[a] && entries@[j].1 != before[a];
                assert(0 <= j < i + 1);
            } else {
                assert(entries@[i as int].0 == r@[a]);
            }
        }
        i = i + 1;
    }
    r
}

/// Adds each Luid of `ls` to `members`.
fn insert_luids(members: &mut RoaringTreemap, ls: &Vec<Luid>)
    ensures
        treemap_set(*final(members)) == treemap_set(*old(members)).union(
            Set::new(|x: u64| exists|j: int| 0 <= j < ls@.len() && (#[trigger] ls@[j]) as u64 == x),
        ),
{
    let ghost m0 = treemap_set(*members);
    let mut i: usize = 0;
    while i < ls.len()
        invariant
            i <= ls@.len(),
            treemap_set(*members) == m0.union(
                Set::new(|x: u64| exists|j: int| 0 <= j < i && (#[trigger] ls@[j]) as u64 == x),
            ),
        decreases ls@.len() - i,
    {
        treemap_insert(members, ls[i] as u64);
        proof {
            assert(treemap_set(*members) =~= m0.union(
                Set::new(|x: u64| exists|j: int| 0 <= j < i + 1 && (#[trigger] ls@[j]) as u64 == x),
            ));
        }
        i = i + 1;
    }
}

/// Materializes the target commit of a patch, first materializing any source
/// commit that has no cached version yet through the patch that produced it.
///
/// Where the target already has a cached version nothing changes. Otherwise its
/// membership becomes the union of its sources' memberships, less the deleted
/// and the superseded UUIDs, plus the added ones; the additions and the target
/// are entered into the universe; the target becomes a head and its sources stop
/// being heads. A source commit that is unknown or that no loaded patch produces
/// gives `MissingPatch`; a commit met again while its own ancestry is being
/// materialized gives `CyclicHistory`.
pub fn process_patch(
    universe: &mut Universe,
    version_cache: &mut VersionCache,
    commits: &Commits,
    heads: &mut Heads,
    patches: &Patches,
    patch_luid: Luid,
) -> (r: Result<(), StateError>)
    requires
        uuid_index_seq(*old(universe)).len() <= usize::MAX,
        uuid_index_seq(*old(universe)).no_duplicates(),
        cache_bounded(old(version_cache)@, uuid_index_seq(*old(universe)).len()),
    ensures
        engine_frame(
            uuid_index_seq(*old(universe)),
            old(version_cache)@,
            uuid_index_seq(*final(universe)),
            final(version_cache)@,
        ),
        !patches@.contains_key(patch_luid) ==> r == Err::<(), StateError>(StateError::MissingPatch),
        patches@.contains_key(patch_luid) && (already_materialized(
            uuid_index_seq(*old(universe)),
            old(version_cache)@,
            patches@[patch_luid],
        ) || sources_materialized(uuid_index_seq(*old(universe)), old(version_cache)@, patches@[patch_luid]))
            ==> r is Ok,
        sound_history(uuid_index_seq(*old(universe)), commits@, patches@) && patches@.contains_key(patch_luid)
            ==> r is Ok,
        r is Ok && !already_materialized(uuid_index_seq(*old(universe)), old(version_cache)@, patches@[patch_luid])
            ==> forall|a: Uuid| #[trigger] patches@[patch_luid].universe_patch.additions@.contains(a)
            ==> uuid_index_seq(*final(universe)).contains(a),
        r is Ok && !already_materialized(uuid_index_seq(*old(universe)), old(version_cache)@, patches@[patch_luid])
            && sources_materialized(uuid_index_seq(*old(universe)), old(version_cache)@, patches@[patch_luid])
            ==> final(heads)@ == old(heads)@.difference(
            consumed(uuid_index_seq(*final(universe)), patches@[patch_luid]),
        ).insert(luid_in(uuid_index_seq(*final(universe)), patches@[patch_luid].target_commit)),
        forall|h: Luid| #[trigger] final(heads)@.contains(h) ==> old(heads)@.contains(h)
            || final(version_cache)@.contains_key(h),
        new_versions_produced(
            uuid_index_seq(*final(universe)),
            old(version_cache)@,
            final(version_cache)@,
            patches@,
        ),
        r is Ok ==> patches@.contains_key(patch_luid) && materialized(
            uuid_index_seq(*old(universe)),
            old(version_cache)@,
            old(heads)@,
            uuid_index_seq(*final(universe)),
            final(version_cache)@,
            final(heads)@,
            patches@[patch_luid],
        ),
{
    let mut stack: Vec<Luid> = Vec::new();
    let ghost rank = choose|rank: spec_fn(Uuid) -> int| #[trigger] ranked_history(
        uuid_index_seq(*universe),
        commits@,
        patches@,
        rank,
    );
    process_rec(universe, version_cache, commits, heads, patches, patch_luid, &mut stack, Ghost(rank))
}

/// `process_patch`, with the source commits whose ancestry is being
/// materialized on `stack`.
fn process_rec(
    universe: &mut Universe,
    version_cache: &mut VersionCache,
    commits: &Commits,
    heads: &mut Heads,
    patches: &Patches,
    patch_luid: Luid,
    stack: &mut Vec<Luid>,
    rank: Ghost<spec_fn(Uuid) -> int>,
) -> (r: Result<(), StateError>)
    requires
        uuid_index_seq(*old(universe)).len() <= usize::MAX,
        uuid_index_seq(*old(universe)).no_duplicates(),
        cache_bounded(old(version_cache)@, uuid_index_seq(*old(universe)).len()),
        old(stack)@.no_duplicates(),
        forall|k: int| 0 <= k < old(stack)@.len() ==> commits@.dom().contains(#[trigger] old(stack)@[k]),
    ensures
        final(stack)@ == old(stack)@,
        engine_frame(
            uuid_index_seq(*old(universe)),
            old(version_cache)@,
            uuid_index_seq(*final(universe)),
            final(version_cache)@,
        ),
        !patches@.contains_key(patch_luid) ==> r == Err::<(), StateError>(StateError::MissingPatch),
        patches@.contains_key(patch_luid) && (already_materialized(
            uuid_index_seq(*old(universe)),
            old(version_cache)@,
            patches@[patch_luid],
        ) || sources_materialized(uuid_index_seq(*old(universe)), old(version_cache)@, patches@[patch_luid]))
            ==> r is Ok,
        ranked_history(uuid_index_seq(*old(universe)), commits@, patches@, rank@) && patches@.contains_key(patch_luid)
            && (forall|k: int| 0 <= k < old(stack)@.len() ==> rank@(uuid_index_seq(*old(universe))[#[trigger] old(stack)@[k] as int])
            >= rank@(patches@[patch_luid].target_commit)) ==> r is Ok,
        ranked_history(uuid_index_seq(*old(universe)), commits@, patches@, rank@) && patches@.contains_key(patch_luid)
            && (forall|k: int| 0 <= k < old(stack)@.len() ==> rank@(uuid_index_seq(*old(universe))[#[trigger] old(stack)@[k] as int])
            >= rank@(patches@[patch_luid].target_commit))
            ==> forall|k: Luid| #[trigger] final(version_cache)@.contains_key(k) && !old(version_cache)@.contains_key(k)
            ==> rank@(uuid_index_seq(*final(universe))[k as int]) <= rank@(patches@[patch_luid].target_commit),
        r is Ok && !already_materialized(uuid_index_seq(*old(universe)), old(version_cache)@, patches@[patch_luid])
            ==> forall|a: Uuid| #[trigger] patches@[patch_luid].universe_patch.additions@.contains(a)
            ==> uuid_index_seq(*final(universe)).contains(a),
        r is Ok && !already_materialized(uuid_index_seq(*old(universe)), old(version_cache)@, patches@[patch_luid])
            && sources_materialized(uuid_index_seq(*old(universe)), old(version_cache)@, patches@[patch_luid])
            ==> final(heads)@ == old(heads)@.difference(
            consumed(uuid_index_seq(*final(universe)), patches@[patch_luid]),
        ).insert(luid_in(uuid_index_seq(*final(universe)), patches@[patch_luid].target_commit)),
        forall|h: Luid| #[trigger] final(heads)@.contains(h) ==> old(heads)@.contains(h)
            || final(version_cache)@.contains_key(h),
        new_versions_produced(
            uuid_index_seq(*final(universe)),
            old(version_cache)@,
            final(version_cache)@,
            patches@,
        ),
        r is Ok ==> patches@.contains_key(patch_luid) && materialized(
            uuid_index_seq(*old(universe)),
            old(version_cache)@,
            old(heads)@,
            uuid_index_seq(*final(universe)),
            final(version_cache)@,
            final(heads)@,
            patches@[patch_luid],
        ),
    decreases commits@.dom().len() - old(stack)@.len(),
{
    let ghost u0 = uuid_index_seq(*universe);
    let ghost c0 = version_cache@;
    let ghost h0 = heads@;
    let ghost s0 = stack@;
    proof {
        vstd::set_lib::lemma_len_subset(s0.to_set(), commits@.dom());
        s0.unique_seq_to_set();
    }
    let patch = match patches.get(&patch_luid) {
        Some(p) => p,
        None => return Err(StateError::MissingPatch),
    };
    assert(*patch == patches@[patch_luid]);
    match universe_get_index_of(universe, patch.target_commit) {
        Some(t) => {
            if version_cache.contains_key(&t) {
                proof {
                    lemma_luid_at(u0, u0[t as int], t as int);
                }
                return Ok(());
            }
            proof {
                lemma_luid_at(u0, u0[t as int], t as int);
            }
        },
        None => {},
    }
    assert(!already_materialized(u0, c0, *patch));
    let ghost tgt = patch.target_commit;
    let ghost sound = ranked_history(u0, commits@, patches@, rank@) && (forall|k: int|
        0 <= k < s0.len() ==> rank@(u0[#[trigger] s0[k] as int]) >= rank@(tgt));
    let ghost sm = sources_materialized(u0, c0, *patch);
    let n = patch.source_commits.len();
    let mut source_luids: Vec<Luid> = Vec::new();
    let mut i: usize = 0;
    while i < n
        invariant
            n == patch.sources().len(),
            i <= n,
            u0 == uuid_index_seq(*old(universe)),
            c0 == old(version_cache)@,
            h0 == old(heads)@,
            s0 == old(stack)@,
            *patch == patches@[patch_luid],
            patches@.contains_key(patch_luid),
            stack@ == s0,
            s0.no_duplicates(),
            forall|k: int| 0 <= k < s0.len() ==> commits@.dom().contains(#[trigger] s0[k]),
            engine_frame(u0, c0, uuid_index_seq(*universe), version_cache@),
            forall|h: Luid| #[trigger] heads@.contains(h) ==> h0.contains(h) || version_cache@.contains_key(h),
            !already_materialized(u0, c0, *patch),
            source_luids@.len() == i,
            forall|j: int|
                0 <= j < i ==> (#[trigger] source_luids@[j]) < uuid_index_seq(*universe).len()
                    && uuid_index_seq(*universe)[source_luids@[j] as int] == patch.sources()[j]
                    && version_cache@.contains_key(source_luids@[j]),
            sources_materialized(u0, c0, *patch) ==> uuid_index_seq(*universe) == u0 && version_cache@
                == c0,
            tgt == patch.target_commit,
            sm == sources_materialized(u0, c0, *patch),
            sound == (ranked_history(u0, commits@, patches@, rank@) && (forall|k: int|
                0 <= k < s0.len() ==> rank@(u0[#[trigger] s0[k] as int]) >= rank@(tgt))),
            sm ==> heads@ == h0,
            new_versions_produced(uuid_index_seq(*universe), c0, version_cache@, patches@),
            sound ==> ranked_history(u0, commits@, patches@, rank@),
            sound ==> forall|k: int| 0 <= k < s0.len() ==> rank@(u0[#[trigger] s0[k] as int]) >= rank@(tgt),
            sound ==> forall|k: Luid| #[trigger] version_cache@.contains_key(k) && !c0.contains_key(k)
                ==> rank@(uuid_index_seq(*universe)[k as int]) < rank@(tgt),
        decreases n - i,
    {
        let s = patch.source_commits.get(i).unwrap();
        let ghost u_cur = uuid_index_seq(*universe);
        let ghost c_cur = version_cache@;
        proof {
            if sound {
                assert(patches@[patch_luid].sources()[i as int] == s);
                assert(u0.contains(s) && commits@.contains_key(luid_in(u0, s)) && rank@(s) < rank@(tgt));
                lemma_luid_extends(u0, u_cur, s);
                lemma_ranked_extends(u0, u_cur, commits@, patches@, rank@);
            }
        }
        let sl = match universe_get_index_of(universe, s) {
            Some(l) => l,
            None => {
                assert(!sources_materialized(u0, c0, *patch)) by {
                    if sources_materialized(u0, c0, *patch) {
                        assert(u0.contains(patch.sources()[i as int]));
                    }
                }
                assert(!sound) by {
                    if sound {
                        assert(u_cur.contains(s));
                    }
                }
                return Err(StateError::MissingPatch);
            },
        };
        proof {
            lemma_luid_at(u_cur, s, sl as int);
            if sound {
                assert(luid_in(u_cur, s) == luid_in(u0, s));
                assert(commits@.contains_key(sl));
            }
            if sound {
                assert(sl < u0.len());
                assert(u0[sl as int] == s);
            }
        }
        if !version_cache.contains_key(&sl) {
            assert(!sources_materialized(u0, c0, *patch)) by {
                if sources_materialized(u0, c0, *patch) {
                    lemma_luid_at(u0, u0[sl as int], sl as int);
                    assert(c0.contains_key(luid_in(u0, patch.sources()[i as int])));
                }
            }
            let derivs = match commits.get(&sl) {
                Some(d) => d,
                None => return Err(StateError::MissingPatch),
            };
            assert(commits@[sl] == *derivs);
            let q = match derivs.patch(0) {
                Some(q) => q,
                None => return Err(StateError::MissingPatch),
            };
            if contains_luid(stack, sl) {
                assert(!sound) by {
                    if sound {
                        let k = choose|k: int| 0 <= k < s0.len() && s0[k] == sl;
                        assert(rank@(u0[s0[k] as int]) >= rank@(tgt));
                    }
                }
                return Err(StateError::CyclicHistory);
            }
            proof {
                if sound {
                    assert(patches@.contains_key(q));
                    assert(patches@[q].target_commit == u_cur[sl as int]);
                    assert forall|k: int| 0 <= k < s0.push(sl).len() implies rank@(u_cur[#[trigger] s0.push(sl)[k] as int])
                        >= rank@(patches@[q].target_commit) by {
                        if k < s0.len() {
                            assert(s0.push(sl)[k] == s0[k]);
                            assert(commits@.contains_key(s0[k]));
                            assert(u_cur[s0[k] as int] == u0[s0[k] as int]);
                        }
                    }
                }
            }
            proof {
                let ns = s0.push(sl);
                lemma_push_distinct(s0, sl);
                assert(ns.to_set().subset_of(commits@.dom())) by {
                    assert forall|x: Luid| ns.to_set().contains(x) implies commits@.dom().contains(x) by {
                        let k = choose|k: int| 0 <= k < ns.len() && ns[k] == x;
                        if k < s0.len() {
                            assert(s0[k] == x);
                        }
                    }
                }
                vstd::set_lib::lemma_len_subset(ns.to_set(), commits@.dom());
                ns.unique_seq_to_set();
            }
            stack.push(sl);
            let res = process_rec(universe, version_cache, commits, heads, patches, q, stack, rank);
            stack.pop();
            assert(stack@ == s0);
            proof {
                let u_new = uuid_index_seq(*universe);
                let c_new = version_cache@;
                assert forall|k: Luid| #[trigger] c_new.contains_key(k) && !c0.contains_key(k) implies exists|qq: Luid|
                    patches@.contains_key(qq) && #[trigger] produced_by(u_new, c_new, patches@[qq], k) by {
                    if c_cur.contains_key(k) {
                        let qq = choose|qq: Luid| patches@.contains_key(qq) && #[trigger] produced_by(u_cur, c_cur, patches@[qq], k);
                        lemma_produced_stable(u_cur, c_cur, u_new, c_new, patches@[qq], k);
                    }
                }
            }
            if res.is_err() {
                assert(!sound);
                return res;
            }
            proof {
                if sound {
                    let u_new = uuid_index_seq(*universe);
                    lemma_luid_extends(u_cur, u_new, s);
                    assert(patches@[q].target_commit == s);
                    assert(version_cache@.contains_key(luid_in(u_new, s)));
                    assert forall|k: Luid| #[trigger] version_cache@.contains_key(k) && !c0.contains_key(k)
                        implies rank@(u_new[k as int]) < rank@(tgt) by {
                        if c_cur.contains_key(k) {
                            assert(u_new[k as int] == u_cur[k as int]);
                        }
                    }
                }
            }
            if !version_cache.contains_key(&sl) {
                return Err(StateError::MissingPatch);
            }
        }
        source_luids.push(sl);
        i = i + 1;
    }
    let ghost u_mid = uuid_index_seq(*universe);
    let ghost c_mid = version_cache@;
    let (t, _) = universe_insert_full(universe, patch.target_commit);
    proof {
        if !u_mid.contains(patch.target_commit) {
            lemma_push_distinct(u_mid, patch.target_commit);
        }
    }
    proof {
        let u_t = uuid_index_seq(*universe);
        assert forall|k: Luid| #[trigger] c_mid.contains_key(k) && !c0.contains_key(k) implies exists|qq: Luid|
            patches@.contains_key(qq) && #[trigger] produced_by(u_t, c_mid, patches@[qq], k) by {
            let qq = choose|qq: Luid| patches@.contains_key(qq) && #[trigger] produced_by(u_mid, c_mid, patches@[qq], k);
            lemma_produced_stable(u_mid, c_mid, u_t, c_mid, patches@[qq], k);
        }
    }
    if version_cache.contains_key(&t) {
        assert(!sound) by {
            if sound {
                let u_t = uuid_index_seq(*universe);
                assert(u_t[t as int] == tgt);
                if c0.contains_key(t) {
                    assert(u0[t as int] == tgt);
                    lemma_luid_at(u0, tgt, t as int);
                } else {
                    assert(rank@(u_mid[t as int]) < rank@(tgt));
                }
            }
        }
        assert(!sources_materialized(u0, c0, *patch)) by {
            if sources_materialized(u0, c0, *patch) {
                if u0.contains(patch.target_commit) {
                    lemma_luid_at(u0, u0[t as int], t as int);
                }
            }
        }
        return Err(StateError::CyclicHistory);
    }
    let adds = uuids_of_set(&patch.universe_patch.additions);
    let add_luids = register_uuids(universe, &adds);
    let ghost uf = uuid_index_seq(*universe);
    let mut members = union_sources(version_cache, &source_luids);
    let dels = uuids_of_set(&patch.universe_patch.deletions);
    remove_luids_of(universe, &mut members, &dels);
    let entries = entries_of_map(&patch.universe_patch.merges);
    let sup = superseded_of(&entries);
    remove_luids_of(universe, &mut members, &sup);
    insert_luids(&mut members, &add_luids);
    let mut k: usize = 0;
    while k < source_luids.len()
        invariant
            k <= source_luids@.len(),
            forall|j: int| 0 <= j < k ==> !heads@.contains(#[trigger] source_luids@[j]),
            sm ==> heads@ == h0.difference(Set::new(|l: Luid| exists|j: int| 0 <= j < k && source_luids@[j] == l)),
            forall|h: Luid| #[trigger] heads@.contains(h) ==> h0.contains(h) || version_cache@.contains_key(h),
            t < uf.len(),
            !version_cache@.contains_key(t),
        decreases source_luids@.len() - k,
    {
        heads.remove(&source_luids[k]);
        k = k + 1;
    }
    heads.insert(t);
    let ghost m = treemap_set(members);
    version_cache.insert(t, Version::from_members(members));
    proof {
        let p = *patch;
        let up = p.universe_patch;
        let cf = version_cache@;
        assert forall|a: Uuid| #[trigger] up.additions@.contains(a) implies uf.contains(a) by {
            assert(adds@.to_set().contains(a));
            let j = choose|j: int| 0 <= j < adds@.len() && adds@[j] == a;
            assert(uf[add_luids@[j] as int] == a);
        }
        if sound {
            assert forall|k: Luid| #[trigger] cf.contains_key(k) && !c0.contains_key(k) implies rank@(uf[k as int]) <= rank@(tgt) by {
                if k != t {
                    assert(c_mid.contains_key(k));
                    assert(uf[k as int] == u_mid[k as int]);
                }
            }
        }
        lemma_luid_at(uf, uf[t as int], t as int);
        assert(source_luids@ =~= luids_in(uf, p.sources())) by {
            assert forall|j: int| 0 <= j < source_luids@.len() implies source_luids@[j] == luids_in(uf, p.sources())[j] by {
                lemma_luid_at(uf, uf[source_luids@[j] as int], source_luids@[j] as int);
            }
        }
        assert(union_of(c_mid, source_luids@) =~= union_of(cf, source_luids@)) by {
            assert forall|j: int| 0 <= j < source_luids@.len() implies cf[source_luids@[j]] == c_mid[source_luids@[j]] by {
                assert(c_mid.contains_key(source_luids@[j]));
            }
            assert forall|x: u64| union_of(c_mid, source_luids@).contains(x) == union_of(cf, source_luids@).contains(x) by {
                if union_of(c_mid, source_luids@).contains(x) {
                    let j = choose|j: int| 0 <= j < source_luids@.len() && (#[trigger] c_mid[source_luids@[j]]).members().contains(x);
                    assert(cf[source_luids@[j]] == c_mid[source_luids@[j]]);
                }
                if union_of(cf, source_luids@).contains(x) {
                    let j = choose|j: int| 0 <= j < source_luids@.len() && (#[trigger] cf[source_luids@[j]]).members().contains(x);
                    assert(cf[source_luids@[j]] == c_mid[source_luids@[j]]);
                }
            }
        }
        assert(sup@.to_set() =~= superseded(up.merges@)) by {
            assert forall|x: Uuid| sup@.to_set().contains(x) == superseded(up.merges@).contains(x) by {
                if sup@.to_set().contains(x) {
                    let a = choose|a: int| 0 <= a < sup@.len() && sup@[a] == x;
                    assert(superseded_in(entries@, entries@.len() as int, sup@[a]));
                    let j = choose|j: int| 0 <= j < entries@.len() && (#[trigger] entries@[j]).0 == x && entries@[j].1 != x;
                    assert(up.merges@.contains_key(entries@[j].0));
                }
                if superseded(up.merges@).contains(x) {
                    assert(up.merges@.contains_key(x));
                    assert(entries@.contains((x, up.merges@[x])));
                    let j = choose|j: int| 0 <= j < entries@.len() && entries@[j] == (x, up.merges@[x]);
                    assert(entries@[j].0 != entries@[j].1);
                }
            }
        }
        let added = Set::new(|x: u64| exists|j: int| 0 <= j < add_luids@.len() && (#[trigger] add_luids@[j]) as u64 == x);
        assert(added =~= luids_of(uf, up.additions@)) by {
            assert forall|x: u64| added.contains(x) == luids_of(uf, up.additions@).contains(x) by {
                if added.contains(x) {
                    let j = choose|j: int| 0 <= j < add_luids@.len() && (#[trigger] add_luids@[j]) as u64 == x;
                    assert(adds@.to_set().contains(adds@[j]));
                }
                if luids_of(uf, up.additions@).contains(x) {
                    assert(adds@.to_set().contains(uf[x as int]));
                    let j = choose|j: int| 0 <= j < adds@.len() && adds@[j] == uf[x as int];
                    assert(uf[add_luids@[j] as int] == uf[x as int]);
                    assert(add_luids@[j] as u64 == x);
                }
            }
        }
        assert(m == apply_set_patch(union_of(cf, luids_in(uf, p.sources())), uf, up));
        assert forall|kk: Luid, x: u64| #[trigger] cf.contains_key(kk) && #[trigger] cf[kk].members().contains(x) implies x < uf.len() by {
            if kk == t {
                if union_of(c_mid, source_luids@).contains(x) {
                    let j = choose|j: int| 0 <= j < source_luids@.len() && (#[trigger] c_mid[source_luids@[j]]).members().contains(x);
                    assert(c_mid.contains_key(source_luids@[j]));
                }
            } else {
                assert(c_mid.contains_key(kk));
            }
        }
        assert forall|i: int| 0 <= i < p.sources().len() implies uf.contains(#[trigger] p.sources()[i]) && cf.contains_key(
            luid_in(uf, p.sources()[i]),
        ) by {
            assert(uf[source_luids@[i] as int] == p.sources()[i]);
            lemma_luid_at(uf, uf[source_luids@[i] as int], source_luids@[i] as int);
        }
        assert forall|i: int| 0 <= i < p.sources().len() && luid_in(uf, #[trigger] p.sources()[i]) != t implies !heads@.contains(
            luid_in(uf, p.sources()[i]),
        ) by {
            lemma_luid_at(uf, uf[source_luids@[i] as int], source_luids@[i] as int);
            assert(luid_in(uf, p.sources()[i]) == source_luids@[i]);
        }
        assert(produced_by(uf, cf, *patch, t));
        assert forall|k: Luid| #[trigger] cf.contains_key(k) && !c0.contains_key(k) implies exists|qq: Luid|
            patches@.contains_key(qq) && #[trigger] produced_by(uf, cf, patches@[qq], k) by {
            if k == t {
                assert(patches@.contains_key(patch_luid) && produced_by(uf, cf, patches@[patch_luid], k));
            } else {
                assert(c_mid.contains_key(k));
                let qq = choose|qq: Luid| patches@.contains_key(qq) && #[trigger] produced_by(u_mid, c_mid, patches@[qq], k);
                lemma_produced_stable(u_mid, c_mid, uf, cf, patches@[qq], k);
            }
        }
    }
    Ok(())
}

} // verus!

