use vstd::prelude::*;

use crate::id::{Luid, Uuid};
use crate::lifecycle::checked_out;
use crate::patch::Patch;
use crate::state::{
    already_materialized, engine_frame, luid_in, luids_in, materialized, superseded, union_of,
    TotalState,
};
use crate::universe::insert_step;
use crate::version::Version;

verus! {

/// Append-only universe: along any sequence of inserts into a universe that
/// holds each UUID once, the UUID at Luid `l` stays at `l`, and inserting that
/// UUID again at any later step returns `l`.
pub proof fn law_append_only_universe(
    states: Seq<Seq<Uuid>>,
    inserted: Seq<Uuid>,
    returned: Seq<Luid>,
    i: int,
    j: int,
    l: Luid,
)
    requires
        states.len() == inserted.len() + 1,
        returned.len() == inserted.len(),
        forall|k: int| 0 <= k < inserted.len() ==> #[trigger] insert_step(states[k], states[k + 1], inserted[k], returned[k]),
        0 <= i <= j < states.len(),
        states[i].no_duplicates(),
        l < states[i].len(),
    ensures
        states[j].no_duplicates(),
        l < states[j].len(),
        states[j][l as int] == states[i][l as int],
        j < inserted.len() && inserted[j] == states[i][l as int] ==> returned[j] == l,
    decreases j - i,
{
    if i < j {
        law_append_only_universe(states, inserted, returned, i, j - 1, l);
        let k = j - 1;
        assert(insert_step(states[k], states[k + 1], inserted[k], returned[k]));
        assert(k + 1 == j);
        if !states[k].contains(inserted[k]) {
            crate::state::lemma_push_distinct(states[k], inserted[k]);
            assert(states[j][l as int] == states[k][l as int]);
        }
    }
    if j < inserted.len() && inserted[j] == states[i][l as int] {
        assert(insert_step(states[j], states[j + 1], inserted[j], returned[j]));
        assert(states[j].contains(inserted[j])) by {
            assert(states[j][l as int] == inserted[j]);
        }
        let r = returned[j];
        assert(states[j][r as int] == states[j][l as int]);
    }
}

/// Idempotent materialization: once the engine has materialized the target
/// of a patch, running it again for that patch changes neither the universe,
/// the version cache nor the heads (the commit graph it only reads).
pub proof fn law_idempotent_materialization(
    u0: Seq<Uuid>,
    c0: Map<Luid, Version>,
    h0: Set<Luid>,
    u1: Seq<Uuid>,
    c1: Map<Luid, Version>,
    h1: Set<Luid>,
    u2: Seq<Uuid>,
    c2: Map<Luid, Version>,
    h2: Set<Luid>,
    p: Patch,
)
    requires
        materialized(u0, c0, h0, u1, c1, h1, p),
        materialized(u1, c1, h1, u2, c2, h2, p),
    ensures
        already_materialized(u1, c1, p),
        u2 == u1,
        c2 == c1,
        h2 == h1,
{
}

/// Set-algebra correctness: a materialized commit holds exactly the Luids that
/// some source commit holds and whose UUID is neither deleted nor superseded,
/// together with the Luids of the added UUIDs.
pub proof fn law_set_algebra(
    u0: Seq<Uuid>,
    c0: Map<Luid, Version>,
    h0: Set<Luid>,
    u: Seq<Uuid>,
    c: Map<Luid, Version>,
    h: Set<Luid>,
    p: Patch,
    x: u64,
)
    requires
        materialized(u0, c0, h0, u, c, h, p),
        !already_materialized(u0, c0, p),
        x < u.len(),
    ensures
        c[luid_in(u, p.target_commit)].members().contains(x) <==> ((exists|i: int|
            0 <= i < p.sources().len() && (#[trigger] c[luid_in(u, p.sources()[i])]).members().contains(x))
            && !p.universe_patch.deletions@.contains(u[x as int]) && !(p.universe_patch.merges@.contains_key(
            u[x as int],
        ) && p.universe_patch.merges@[u[x as int]] != u[x as int]))
            || p.universe_patch.additions@.contains(u[x as int]),
{
    let ls = luids_in(u, p.sources());
    assert forall|i: int| 0 <= i < p.sources().len() implies ls[i] == luid_in(u, p.sources()[i]) by {}
    if union_of(c, ls).contains(x) {
        let i = choose|i: int| 0 <= i < ls.len() && (#[trigger] c[ls[i]]).members().contains(x);
        assert(c[luid_in(u, p.sources()[i])].members().contains(x));
    }
    if exists|i: int| 0 <= i < p.sources().len() && (#[trigger] c[luid_in(u, p.sources()[i])]).members().contains(x) {
        let i = choose|i: int| 0 <= i < p.sources().len() && (#[trigger] c[luid_in(u, p.sources()[i])]).members().contains(x);
        assert(c[ls[i]].members().contains(x));
        assert(union_of(c, ls).contains(x));
    }
    assert(superseded(p.universe_patch.merges@).contains(u[x as int]) <==> (p.universe_patch.merges@.contains_key(
        u[x as int],
    ) && p.universe_patch.merges@[u[x as int]] != u[x as int]));
}

/// Heads frontier: after the engine materializes the target of a patch that was
/// not materialized, the target is a head and no source commit other than the
/// target itself is.
pub proof fn law_heads_frontier(
    u0: Seq<Uuid>,
    c0: Map<Luid, Version>,
    h0: Set<Luid>,
    u: Seq<Uuid>,
    c: Map<Luid, Version>,
    h: Set<Luid>,
    p: Patch,
    i: int,
)
    requires
        materialized(u0, c0, h0, u, c, h, p),
        !already_materialized(u0, c0, p),
        0 <= i < p.sources().len(),
        p.sources()[i] != p.target_commit,
        engine_frame(u0, c0, u, c),
    ensures
        h.contains(luid_in(u, p.target_commit)),
        !h.contains(luid_in(u, p.sources()[i])),
{
    let a = choose|a: int| 0 <= a < u.len() && u[a] == p.sources()[i];
    let b = choose|b: int| 0 <= b < u.len() && u[b] == p.target_commit;
    crate::state::lemma_luid_at(u, p.sources()[i], a);
    crate::state::lemma_luid_at(u, p.target_commit, b);
    assert(u.contains(p.sources()[i]));
    if luid_in(u, p.sources()[i]) == luid_in(u, p.target_commit) {
        assert(a == b);
    }
}

/// Checkout determinism: two checkouts of the same commit, from states with the
/// same version cache, leave working states with the same contents.
pub proof fn law_checkout_determinism(s0: TotalState, s1: TotalState, s2: TotalState, s3: TotalState, commit: Luid)
    requires
        checked_out(s0, s1, commit),
        checked_out(s2, s3, commit),
        s0.version_cache@ == s2.version_cache@,
    ensures
        s1.working().to_set() == s3.working().to_set(),
        s1.working().len() == s3.working().len(),
{
    assert(s1.working().to_set() =~= s3.working().to_set());
    s1.working().unique_seq_to_set();
    s3.working().unique_seq_to_set();
}

} // verus!
