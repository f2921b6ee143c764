use vstd::prelude::*;

use crate::id::{base64url_encoded, uuid_bytes, uuid_to_base64url, Luid, Uuid};
use crate::lifecycle::keys_of;
use crate::lists::LuidList;
use crate::state::TotalState;
use crate::universe::{universe_get_index, uuid_index_seq};
use std::collections::HashMap;
use vstd::string::StringExecFns;

verus! {

broadcast use vstd::std_specs::btree::group_btree_axioms, vstd::laws_cmp::group_laws_cmp,
    vstd::std_specs::hash::group_hash_axioms;

/// One step of drawing the commit graph as parallel tracks.
#[derive(Clone, Debug)]
pub enum GraphEvent {
    StartTrack(usize),
    StopTrack(usize),
    Station(usize, String),
    SplitTrack(usize, usize),
    JoinTrack(usize, usize),
    NoEvent,
}

/// `label` reads "<commit> <- <patch>", both in their base64url form.
pub open spec fn describes(label: Seq<char>, commit: Uuid, patch: Uuid) -> bool {
    label == base64url_encoded(uuid_bytes(commit)) + " <- "@ + base64url_encoded(uuid_bytes(patch))
}

/// `e` is a station for `commit` reached by `patch`.
pub open spec fn station_for(e: GraphEvent, commit: Uuid, patch: Uuid) -> bool {
    match e {
        GraphEvent::Station(_, label) => describes(label@, commit, patch),
        _ => false,
    }
}

/// `e` is a station for some commit of `t`, reached by the patch of its first derivation.
pub open spec fn station_of_a_commit(t: TotalState, e: GraphEvent) -> bool {
    e is Station ==> exists|k: Luid|
        #[trigger] t.commits@.contains_key(k) && t.commits@[k]@.len() > 0 && station_for(
            e,
            t.uuids()[k as int],
            t.uuids()[t.commits@[k]@[0].1 as int],
        )
}

/// The events hold a station for `commit` reached by `patch`.
pub open spec fn has_station(events: Seq<GraphEvent>, commit: Uuid, patch: Uuid) -> bool {
    exists|i: int| 0 <= i < events.len() && station_for(#[trigger] events[i], commit, patch)
}

proof fn lemma_station_kept(g: Seq<GraphEvent>, g2: Seq<GraphEvent>, commit: Uuid, patch: Uuid)
    requires
        has_station(g, commit, patch),
        g.len() <= g2.len(),
        forall|i: int| 0 <= i < g.len() ==> g2[i] == g[i],
    ensures
        has_station(g2, commit, patch),
{
    let i = choose|i: int| 0 <= i < g.len() && station_for(#[trigger] g[i], commit, patch);
    assert(g2[i] == g[i]);
}

fn station_label(commit: Uuid, patch: Uuid) -> (r: String)
    ensures
        describes(r@, commit, patch),
{
    let mut s = uuid_to_base64url(commit);
    let tail = uuid_to_base64url(patch);
    s.append(" <- ");
    s.append(tail.as_str());
    s
}

fn next_track(n: usize) -> (r: usize)
    ensures
        r == if n < usize::MAX { n + 1 } else { n as int },
{
    if n < usize::MAX {
        n + 1
    } else {
        n
    }
}

impl TotalState {
    /// The commit graph as a draw-order event list, newest commit first: each
    /// commit is a station on a track, labelled with the commit and the patch
    /// that produced it; root commits end their track; extra parents split off
    /// new tracks, and parents already on a track join it.
    pub fn graph(&self) -> (r: Vec<GraphEvent>)
        requires
            self.wf(),
        ensures
            forall|k: Luid| #[trigger] self.commits@.contains_key(k) && self.commits@[k]@.len() > 0 ==> has_station(
                r@,
                self.uuids()[k as int],
                self.uuids()[self.commits@[k]@[0].1 as int],
            ) || self.commits@[k]@[0].1 >= self.uuids().len(),
            forall|i: int| 0 <= i < r@.len() ==> station_of_a_commit(*self, #[trigger] r@[i]),
    {
        let ks = keys_of(&self.commits);
        let mut graph: Vec<GraphEvent> = Vec::new();
        let mut tracks: HashMap<Luid, usize> = HashMap::new();
        let mut n_tracks_total: usize = 0;
        let mut idx: usize = ks.len();
        while idx > 0
            invariant
                idx <= ks@.len(),
                ks@.to_set() == self.commits@.dom(),
                self.wf(),
                forall|j: int| idx <= j < ks@.len() ==> (self.commits@[#[trigger] ks@[j]]@.len() > 0 ==> has_station(
                    graph@,
                    self.uuids()[ks@[j] as int],
                    self.uuids()[self.commits@[ks@[j]]@[0].1 as int],
                ) || self.commits@[ks@[j]]@[0].1 >= self.uuids().len()),
                forall|i: int| 0 <= i < graph@.len() ==> station_of_a_commit(*self, #[trigger] graph@[i]),
            decreases idx,
        {
            idx = idx - 1;
            let commit_luid = ks[idx];
            assert(ks@.to_set().contains(commit_luid));
            let derivs = self.commits.get(&commit_luid).unwrap();
            assert(self.commits@[commit_luid] == *derivs);
            let ghost g0 = graph@;
            if derivs.len() > 0 {
                let patch_luid = derivs.patch(0).unwrap();
                let sources: &LuidList = derivs.sources(0).unwrap();
                let track: usize = match tracks.get(&commit_luid) {
                    Some(existing) => *existing,
                    None => {
                        let t = n_tracks_total;
                        n_tracks_total = next_track(n_tracks_total);
                        tracks.insert(commit_luid, t);
                        graph.push(GraphEvent::NoEvent);
                        graph.push(GraphEvent::StartTrack(t));
                        t
                    },
                };
                let commit_uuid = universe_get_index(&self.universe, commit_luid).unwrap();
                let ghost g_pre = graph@;
                match universe_get_index(&self.universe, patch_luid) {
                    Some(patch_uuid) => {
                        let label = station_label(commit_uuid, patch_uuid);
                        let ghost before = graph@;
                        graph.push(GraphEvent::Station(track, label));
                        proof {
                            assert(station_for(graph@[before.len() as int], commit_uuid, patch_uuid));
                            assert(self.commits@.contains_key(commit_luid) && self.commits@[commit_luid]@.len() > 0);
                            assert(station_of_a_commit(*self, graph@[before.len() as int]));
                        }
                        assert(has_station(graph@, commit_uuid, patch_uuid)) by {
                            assert(station_for(graph@[before.len() as int], commit_uuid, patch_uuid));
                        }
                    },
                    None => {},
                }
                let ghost g1 = graph@;
                let ns = sources.len();
                if ns == 0 {
                    graph.push(GraphEvent::NoEvent);
                    graph.push(GraphEvent::StopTrack(track));
                    graph.push(GraphEvent::NoEvent);
                } else {
                    let mut k: usize = 1;
                    while k < ns
                        invariant
                            1 <= k <= ns,
                            ns == sources@.len(),
                            forall|i: int| 0 <= i < graph@.len() ==> station_of_a_commit(*self, #[trigger] graph@[i]),
                            g1.len() <= graph@.len(),
                            forall|i: int| 0 <= i < g1.len() ==> graph@[i] == g1[i],
                        decreases ns - k,
                    {
                        let parent = sources.get(k).unwrap();
                        let parent_track = n_tracks_total;
                        n_tracks_total = next_track(n_tracks_total);
                        match tracks.insert(parent, parent_track) {
                            Some(existing) => {
                                graph.push(GraphEvent::SplitTrack(track, parent_track));
                                graph.push(GraphEvent::JoinTrack(parent_track, existing));
                                tracks.insert(parent, existing);
                            },
                            None => {
                                graph.push(GraphEvent::SplitTrack(track, parent_track));
                            },
                        }
                        k = k + 1;
                    }
                    let primary = sources.get(0).unwrap();
                    match tracks.get(&primary) {
                        Some(existing) => {
                            graph.push(GraphEvent::JoinTrack(track, *existing));
                        },
                        None => {
                            tracks.insert(primary, track);
                        },
                    }
                }
                proof {
                    assert forall|i: int| 0 <= i < g0.len() implies graph@[i] == g0[i] by {
                        assert(g_pre[i] == g0[i]);
                        assert(g1[i] == g_pre[i]);
                    }
                    if patch_luid < self.uuids().len() {
                        lemma_station_kept(g1, graph@, self.uuids()[commit_luid as int], self.uuids()[patch_luid as int]);
                    }
                    assert forall|j: int| idx <= j < ks@.len() implies (self.commits@[#[trigger] ks@[j]]@.len() > 0
                        ==> has_station(
                        graph@,
                        self.uuids()[ks@[j] as int],
                        self.uuids()[self.commits@[ks@[j]]@[0].1 as int],
                    ) || self.commits@[ks@[j]]@[0].1 >= self.uuids().len()) by {
                        if j > idx && self.commits@[ks@[j]]@.len() > 0 && self.commits@[ks@[j]]@[0].1 < self.uuids().len() {
                            lemma_station_kept(
                                g0,
                                graph@,
                                self.uuids()[ks@[j] as int],
                                self.uuids()[self.commits@[ks@[j]]@[0].1 as int],
                            );
                        }
                    }
                }
            }
        }
        graph
    }
}

} // verus!
