use i1::{
    process_patch, AsBase64Url, ContextPatch, MergeError, Patch, StateError, TotalState, UuidList,
    UuidSetPatch, NIL_UUID,
};
use std::collections::{BTreeSet, HashMap};

const A: u128 = 0x0100_0000_0000_7000_8000_0000_0000_0001;
const B: u128 = 0x0200_0000_0000_7000_8000_0000_0000_0002;
const C: u128 = 0x0300_0000_0000_7000_8000_0000_0000_0003;
const D: u128 = 0x0400_0000_0000_7000_8000_0000_0000_0004;

fn patch(target: u128, sources: &[u128], deletions: &[u128], merges: &[(u128, u128)], additions: &[u128]) -> Patch {
    let mut up = UuidSetPatch::new();
    for d in deletions {
        up.deletions.insert(*d);
    }
    for (k, v) in merges {
        up.merges.insert(*k, *v);
    }
    for a in additions {
        up.additions.insert(*a);
    }
    Patch {
        target_commit: target,
        source_commits: UuidList::from_vec(&sources.to_vec()),
        universe_patch: up,
        addition_kinds: Vec::new(),
        context_patch: ContextPatch::new(),
    }
}

fn set(v: Vec<u128>) -> BTreeSet<u128> {
    v.into_iter().collect()
}

fn members_of(state: &mut TotalState, commit: u128) -> BTreeSet<u128> {
    state.checkout(&commit).unwrap();
    set(state.list())
}

#[test]
fn add_commit_list_checkout_scenario() {
    let mut state = TotalState::new();
    let u1 = state.add();
    assert_eq!(state.count(), 1);
    let (patch_id, committed) = state.commit();
    assert_eq!(committed.universe_patch.additions, set(vec![u1]));
    assert!(committed.universe_patch.deletions.is_empty());
    assert!(committed.universe_patch.merges.is_empty());
    assert!(committed.source_commits.to_vec().is_empty());
    let target = committed.target_commit;
    assert_ne!(patch_id, target);
    assert_eq!(state.list(), vec![u1]);
    assert_eq!(state.checkout(&target), Ok(()));
    assert_eq!(state.list(), vec![u1]);
}

#[test]
fn second_commit_builds_on_the_first() {
    let mut state = TotalState::new();
    state.add();
    let first = state.commit().1.target_commit;
    let u2 = state.add();
    let (_, second) = state.commit();
    assert_eq!(second.source_commits.to_vec(), vec![first]);
    assert_eq!(second.universe_patch.additions, set(vec![u2]));
    let second_target = second.target_commit;
    assert_eq!(state.heads(), vec![second_target]);
    assert_eq!(state.commits().len(), 2);
}

#[test]
fn diamond_lca_is_the_common_root() {
    let mut state = TotalState::new();
    state.index_patch(11, patch(A, &[], &[], &[], &[]));
    state.index_patch(12, patch(B, &[A], &[], &[], &[]));
    state.index_patch(13, patch(C, &[A], &[], &[], &[]));
    state.index_patch(14, patch(D, &[B, C], &[], &[], &[]));
    assert_eq!(state.process_loaded_patches(), Ok(()));
    let a = state.uuid_to_luid(&A).unwrap();
    assert_eq!(state.lca(&B, &C), Some(a));
    assert_eq!(state.lca(&C, &B), Some(a));
    let b = state.uuid_to_luid(&B).unwrap();
    assert_eq!(state.lca(&B, &B), Some(b));
    assert_eq!(state.lca(&B, &0x99), None);
    assert_eq!(state.heads(), vec![D]);
}

#[test]
fn patches_load_in_any_order() {
    let mut state = TotalState::new();
    state.index_patch(14, patch(D, &[B, C], &[], &[], &[44]));
    state.index_patch(13, patch(C, &[A], &[], &[], &[33]));
    state.index_patch(12, patch(B, &[A], &[], &[], &[22]));
    state.index_patch(11, patch(A, &[], &[], &[], &[11]));
    assert_eq!(state.process_loaded_patches(), Ok(()));
    assert_eq!(set(state.list()), set(vec![11, 22, 33, 44]));
    assert_eq!(state.heads(), vec![D]);
}

#[test]
fn set_algebra_of_one_patch() {
    let mut state = TotalState::new();
    state.index_patch(11, patch(A, &[], &[], &[], &[1, 2, 3, 4]));
    state.index_patch(12, patch(B, &[A], &[1], &[(2, 3), (3, 3)], &[5]));
    assert_eq!(state.process_loaded_patches(), Ok(()));
    assert_eq!(members_of(&mut state, B), set(vec![3, 4, 5]));
    assert_eq!(members_of(&mut state, A), set(vec![1, 2, 3, 4]));
}

#[test]
fn merge_commit_takes_the_union_of_its_sources() {
    let mut state = TotalState::new();
    state.index_patch(11, patch(A, &[], &[], &[], &[1]));
    state.index_patch(12, patch(B, &[A], &[1], &[], &[2]));
    state.index_patch(13, patch(C, &[A], &[], &[], &[3]));
    state.index_patch(14, patch(D, &[B, C], &[], &[], &[]));
    assert_eq!(state.process_loaded_patches(), Ok(()));
    assert_eq!(members_of(&mut state, D), set(vec![1, 2, 3]));
}

#[test]
fn heads_frontier_after_processing() {
    let mut state = TotalState::new();
    state.index_patch(11, patch(A, &[], &[], &[], &[]));
    assert_eq!(state.process_loaded_patches(), Ok(()));
    assert_eq!(state.heads(), vec![A]);
    state.index_patch(12, patch(B, &[A], &[], &[], &[]));
    assert_eq!(state.process_loaded_patches(), Ok(()));
    assert_eq!(state.heads(), vec![B]);
}

#[test]
fn materializing_twice_changes_nothing() {
    let mut state = TotalState::new();
    state.index_patch(11, patch(A, &[], &[], &[], &[1]));
    let pl = state.index_patch(12, patch(B, &[A], &[], &[], &[2]));
    let first = process_patch(&mut state.universe, &mut state.version_cache, &state.commits, &mut state.heads, &state.patches, pl);
    assert_eq!(first, Ok(()));
    let heads = state.heads();
    let universe_len = state.universe.len();
    let cached = state.version_cache.len();
    let second = process_patch(&mut state.universe, &mut state.version_cache, &state.commits, &mut state.heads, &state.patches, pl);
    assert_eq!(second, Ok(()));
    assert_eq!(state.heads(), heads);
    assert_eq!(state.universe.len(), universe_len);
    assert_eq!(state.version_cache.len(), cached);
    assert_eq!(members_of(&mut state, B), set(vec![1, 2]));
}

#[test]
fn missing_patch_and_cycles_are_reported() {
    let mut state = TotalState::new();
    let pl = state.index_patch(12, patch(B, &[A], &[], &[], &[]));
    let r = process_patch(&mut state.universe, &mut state.version_cache, &state.commits, &mut state.heads, &state.patches, pl);
    assert_eq!(r, Err(StateError::MissingPatch));
    let r = process_patch(&mut state.universe, &mut state.version_cache, &state.commits, &mut state.heads, &state.patches, 9999);
    assert_eq!(r, Err(StateError::MissingPatch));

    let mut cyclic = TotalState::new();
    cyclic.index_patch(11, patch(A, &[B], &[], &[], &[]));
    cyclic.index_patch(12, patch(B, &[A], &[], &[], &[]));
    assert_eq!(cyclic.process_loaded_patches(), Err(StateError::CyclicHistory));
}

#[test]
fn checkout_twice_gives_the_same_working_state() {
    let mut state = TotalState::new();
    state.add();
    state.add();
    let target = state.commit().1.target_commit;
    state.add();
    assert_eq!(state.checkout(&target), Err(StateError::PreconditionViolation));
    assert_eq!(state.count(), 3);
    let mut fresh = TotalState::new();
    fresh.index_patch(11, patch(A, &[], &[], &[], &[5, 6, 7]));
    assert_eq!(fresh.process_loaded_patches(), Ok(()));
    assert_eq!(fresh.checkout(&A), Ok(()));
    let once = fresh.list();
    assert_eq!(fresh.checkout(&A), Ok(()));
    assert_eq!(fresh.list(), once);
    assert_eq!(set(once), set(vec![5, 6, 7]));
}

#[test]
fn checkout_of_unknown_commit_is_not_found() {
    let mut state = TotalState::new();
    assert_eq!(state.checkout(&A), Err(StateError::NotFound));
    let u = state.add();
    assert_eq!(state.checkout(&u), Err(StateError::NotFound));
    assert_eq!(state.count(), 1);
}

#[test]
fn merge_errors() {
    let mut state = TotalState::new();
    assert_eq!(state.merge(&A), Err(MergeError::CommitNotFound));
    state.index_patch(11, patch(A, &[], &[], &[], &[]));
    state.index_patch(12, patch(B, &[], &[], &[], &[]));
    state.index_patch(13, patch(C, &[A], &[], &[], &[]));
    assert_eq!(state.process_loaded_patches(), Ok(()));
    assert_eq!(state.checkout(&A), Ok(()));
    assert_eq!(state.merge(&B), Err(MergeError::NoCommonAncestor));
    assert_eq!(state.merge(&C), Ok(()));
    state.add();
    assert_eq!(state.merge(&C), Err(MergeError::WorkingPatchNotEmpty));
    let mut detached = TotalState::new();
    detached.index_patch(11, patch(A, &[], &[], &[], &[]));
    assert_eq!(detached.working_patch.source_commits.to_vec(), Vec::<u128>::new());
    assert_eq!(detached.merge(&A), Err(MergeError::DetachedHead));
    assert_eq!(MergeError::NoCommonAncestor.message(), "No common ancestor");
}

#[test]
fn reloading_committed_patches_rebuilds_the_history() {
    let mut state = TotalState::new();
    let mut stored: Vec<(u128, Patch)> = Vec::new();
    for round in 0..3 {
        for _ in 0..round + 1 {
            state.add();
        }
        let (id, p) = state.commit();
        stored.push((id, patch(
            p.target_commit,
            &p.source_commits.to_vec(),
            &p.universe_patch.deletions.iter().copied().collect::<Vec<_>>(),
            &p.universe_patch.merges.iter().map(|(k, v)| (*k, *v)).collect::<Vec<_>>(),
            &p.universe_patch.additions.iter().copied().collect::<Vec<_>>(),
        )));
    }
    let mut reloaded = TotalState::new();
    for (id, p) in stored.into_iter().rev() {
        reloaded.index_patch(id, p);
    }
    assert_eq!(reloaded.process_loaded_patches(), Ok(()));
    assert_eq!(reloaded.heads(), state.heads());
    assert_eq!(set(reloaded.commits()), set(state.commits()));
    for c in state.commits() {
        assert_eq!(members_of(&mut reloaded, c), members_of(&mut state, c));
    }
    assert_eq!(set(reloaded.list()).len(), 6);
}

#[test]
fn graph_has_one_station_per_commit() {
    let mut state = TotalState::new();
    state.index_patch(11, patch(A, &[], &[], &[], &[]));
    state.index_patch(12, patch(B, &[A], &[], &[], &[]));
    state.index_patch(13, patch(C, &[A], &[], &[], &[]));
    state.index_patch(14, patch(D, &[B, C], &[], &[], &[]));
    let events = state.graph();
    let stations: Vec<String> = events
        .iter()
        .filter_map(|e| match e {
            i1::GraphEvent::Station(_, label) => Some(label.clone()),
            _ => None,
        })
        .collect();
    assert_eq!(stations.len(), 4);
    assert_eq!(stations[0], format!("{} <- {}", D.as_base64url(), 14u128.as_base64url()));
    assert_eq!(stations[3], format!("{} <- {}", A.as_base64url(), 11u128.as_base64url()));
    assert!(events.iter().any(|e| matches!(e, i1::GraphEvent::SplitTrack(_, _))));
    assert!(events.iter().any(|e| matches!(e, i1::GraphEvent::StopTrack(_))));
}

#[test]
fn new_state_is_empty() {
    let state = TotalState::new();
    assert_eq!(state.count(), 0);
    assert!(state.list().is_empty());
    assert!(state.heads().is_empty());
    assert!(state.commits().is_empty());
    assert_eq!(state.working_patch.target_commit, NIL_UUID);
    assert!(state.working_patch.is_empty());
    assert_eq!(state.luid_to_uuid(0), None);
    let _ = HashMap::<u128, u128>::new();
}

#[test]
fn lca_of_unrelated_roots_is_none() {
    let mut state = TotalState::new();
    state.index_patch(11, patch(A, &[], &[], &[], &[]));
    state.index_patch(12, patch(B, &[], &[], &[], &[]));
    assert_eq!(state.process_loaded_patches(), Ok(()));
    assert_eq!(state.lca(&A, &B), None);
    assert_eq!(state.lca(&B, &A), None);
}

#[test]
fn lca_picks_the_lowest_common_ancestor() {
    // A -> B -> C, B -> D: the lowest common ancestor of C and D is B, not A.
    let mut state = TotalState::new();
    state.index_patch(11, patch(A, &[], &[], &[], &[]));
    state.index_patch(12, patch(B, &[A], &[], &[], &[]));
    state.index_patch(13, patch(C, &[B], &[], &[], &[]));
    state.index_patch(14, patch(D, &[B], &[], &[], &[]));
    assert_eq!(state.process_loaded_patches(), Ok(()));
    let b = state.uuid_to_luid(&B).unwrap();
    assert_eq!(state.lca(&C, &D), Some(b));
    assert_eq!(state.lca(&D, &C), Some(b));
    assert_eq!(state.lca(&C, &B), Some(b));
}

#[test]
fn loading_keeps_staged_edits() {
    let mut state = TotalState::new();
    let u = state.add();
    state.index_patch(11, patch(A, &[], &[], &[], &[7]));
    assert_eq!(state.process_loaded_patches(), Err(StateError::PreconditionViolation));
    assert_eq!(state.list(), vec![u]);
    assert_eq!(state.heads(), vec![A]);
}

#[test]
fn every_message_text() {
    assert_eq!(MergeError::WorkingPatchNotEmpty.message(), "Working patch is not empty");
    assert_eq!(MergeError::CommitNotFound.message(), "Commit not found");
    assert_eq!(MergeError::DetachedHead.message(), "Detached head");
    assert_eq!(StateError::CyclicHistory.message(), "the commit history contains a cycle");
    assert_eq!(StateError::MissingPatch.message(), "a commit is referenced that no loaded patch produces");
    assert_eq!(
        StateError::PreconditionViolation.message(),
        "the working patch is not empty; commit before this operation"
    );
}

#[test]
fn added_uuids_are_new_and_listed_once() {
    let mut state = TotalState::new();
    let a = state.add();
    let b = state.add();
    assert_ne!(a, b);
    let (pid, p) = state.commit();
    let target = p.target_commit;
    assert_ne!(pid, target);
    assert_ne!(target, a);
    assert_eq!(set(state.list()), set(vec![a, b]));
    assert_eq!(state.count(), 2);
}

#[test]
fn commit_as_refuses_known_uuids() {
    let mut state = TotalState::new();
    let u = state.add();
    assert_eq!(state.commit_as(u, 77).err(), Some(StateError::PreconditionViolation));
    assert_eq!(state.commit_as(78, 78).err(), Some(StateError::PreconditionViolation));
    assert_eq!(state.count(), 1);
    let (p, c) = state.fresh_commit_ids();
    assert_ne!(p, c);
    let (id, patch) = state.commit_as(p, c).unwrap();
    assert_eq!(id, p);
    assert_eq!(patch.target_commit, c);
    assert_eq!(state.heads(), vec![c]);
}

#[test]
fn lca_with_parents_of_greater_uuid() {
    // Parents with greater UUIDs than their children: the lowest common
    // ancestor still is the commit itself, or the nearer ancestor.
    let mut state = TotalState::new();
    state.index_patch(11, patch(D, &[], &[], &[], &[]));
    state.index_patch(12, patch(C, &[D], &[], &[], &[]));
    state.index_patch(13, patch(B, &[C], &[], &[], &[]));
    assert_eq!(state.process_loaded_patches(), Ok(()));
    let b = state.uuid_to_luid(&B).unwrap();
    let c = state.uuid_to_luid(&C).unwrap();
    assert_eq!(state.lca(&B, &B), Some(b));
    assert_eq!(state.lca(&B, &C), Some(c));
    assert_eq!(state.lca(&C, &B), Some(c));
}

#[test]
fn second_load_changes_nothing() {
    let mut state = TotalState::new();
    state.index_patch(11, patch(A, &[], &[], &[], &[1]));
    state.index_patch(12, patch(B, &[A], &[], &[], &[2]));
    assert_eq!(state.process_loaded_patches(), Ok(()));
    let heads = state.heads();
    let known = state.universe.len();
    let list = state.list();
    state.index_patch(11, patch(A, &[], &[], &[], &[1]));
    state.index_patch(12, patch(B, &[A], &[], &[], &[2]));
    assert_eq!(state.process_loaded_patches(), Ok(()));
    assert_eq!(state.heads(), heads);
    assert_eq!(state.universe.len(), known);
    assert_eq!(state.list(), list);
}
