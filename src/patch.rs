use vstd::prelude::*;

use crate::id::{Uuid, NIL_UUID};
use crate::lists::{uuid_list_seq, UuidList};
use std::collections::{BTreeSet, HashMap};

verus! {

/// Set operations on UUIDs: removals, supersessions and introductions.
pub struct UuidSetPatch {
    pub deletions: BTreeSet<Uuid>,
    /// Each UUID mapped to its canonical UUID: itself means kept, another means superseded.
    pub merges: HashMap<Uuid, Uuid>,
    pub additions: BTreeSet<Uuid>,
}

impl UuidSetPatch {
    /// No deletions, merges or additions are staged.
    pub open spec fn is_empty_spec(&self) -> bool {
        &&& self.deletions@.is_empty()
        &&& self.merges@.is_empty()
        &&& self.additions@.is_empty()
    }

    /// An empty set patch.
    pub fn new() -> (r: UuidSetPatch)
        ensures
            r.deletions@ == Set::<Uuid>::empty(),
            r.merges@ == Map::<Uuid, Uuid>::empty(),
            r.additions@ == Set::<Uuid>::empty(),
    {
        UuidSetPatch { deletions: BTreeSet::new(), merges: HashMap::new(), additions: BTreeSet::new() }
    }

    /// Drops every staged operation.
    pub fn clear(&mut self)
        ensures
            final(self).deletions@ == Set::<Uuid>::empty(),
            final(self).merges@ == Map::<Uuid, Uuid>::empty(),
            final(self).additions@ == Set::<Uuid>::empty(),
    {
        self.deletions.clear();
        self.merges.clear();
        self.additions.clear();
    }

    /// Whether nothing is staged.
    pub fn is_empty(&self) -> (r: bool)
        ensures
            r == self.is_empty_spec(),
    {
        self.deletions.is_empty() && self.merges.is_empty() && self.additions.is_empty()
    }
}

/// The set operations of a patch on the universe.
pub type UniversePatch = UuidSetPatch;

/// What an addition introduces.
pub enum AdditionKind {
    NewSort,
    NewEntity(Uuid),
}

pub type AdditionKinds = Vec<AdditionKind>;

/// Changes to the naming context: paths removed, and paths bound to entities.
pub struct ContextPatch {
    pub deletions: BTreeSet<Vec<String>>,
    pub additions: HashMap<Vec<String>, Uuid>,
}

impl ContextPatch {
    /// An empty context patch.
    pub fn new() -> (r: ContextPatch)
        ensures
            r.deletions@ == Set::<Vec<String>>::empty(),
            r.additions@ == Map::<Vec<String>, Uuid>::empty(),
    {
        ContextPatch { deletions: BTreeSet::new(), additions: HashMap::new() }
    }
}

/// The immutable unit of history: the transition from the source commits to
/// the target commit.
pub struct Patch {
    pub target_commit: Uuid,
    pub source_commits: UuidList,
    pub universe_patch: UniversePatch,
    pub addition_kinds: AdditionKinds,
    pub context_patch: ContextPatch,
}

impl Patch {
    /// The source commits, in order.
    pub open spec fn sources(&self) -> Seq<Uuid> {
        uuid_list_seq(self.source_commits)
    }

    /// An empty patch with the nil target and no sources.
    pub fn new() -> (r: Patch)
        ensures
            r.target_commit == NIL_UUID,
            r.sources() == Seq::<Uuid>::empty(),
            r.universe_patch.is_empty_spec(),
            r.addition_kinds@ == Seq::<AdditionKind>::empty(),
    {
        Patch {
            target_commit: NIL_UUID,
            source_commits: UuidList::empty(),
            universe_patch: UuidSetPatch::new(),
            addition_kinds: Vec::new(),
            context_patch: ContextPatch::new(),
        }
    }

    /// Resets the target to nil, drops the sources and the staged set operations.
    pub fn clear(&mut self)
        ensures
            final(self).target_commit == NIL_UUID,
            final(self).sources() == Seq::<Uuid>::empty(),
            final(self).universe_patch.deletions@ == Set::<Uuid>::empty(),
            final(self).universe_patch.merges@ == Map::<Uuid, Uuid>::empty(),
            final(self).universe_patch.additions@ == Set::<Uuid>::empty(),
            final(self).addition_kinds == old(self).addition_kinds,
            final(self).context_patch == old(self).context_patch,
    {
        self.target_commit = NIL_UUID;
        self.source_commits.clear();
        self.universe_patch.clear();
    }

    /// Whether no set operation is staged; the target and sources do not count.
    pub fn is_empty(&self) -> (r: bool)
        ensures
            r == self.universe_patch.is_empty_spec(),
    {
        self.universe_patch.is_empty()
    }
}

} // verus!
