use vstd::prelude::*;

use crate::id::Luid;

verus! {

broadcast use vstd::std_specs::vec::group_vec_axioms;

/// A naming tree: interior nodes map names to children, leaves are entities.
/// `well_named` states that each node names its children distinctly; lookup
/// takes the first child of a name, which under it is the only one.
pub enum Context {
    Node(Vec<(String, Context)>),
    Leaf(Luid),
}

/// The index of the first child at or after `from` that is named `name`, if any.
pub open spec fn first_named(children: Seq<(String, Context)>, name: Seq<char>, from: int) -> Option<int>
    decreases children.len() - from,
{
    if from < 0 || from >= children.len() {
        None
    } else if children[from].0@ == name {
        Some(from)
    } else {
        first_named(children, name, from + 1)
    }
}

/// No two of the children bear the same name.
pub open spec fn names_distinct(children: Seq<(String, Context)>) -> bool {
    forall|i: int, j: int| 0 <= i < j < children.len() ==> (#[trigger] children[i]).0@ != (#[trigger] children[j]).0@
}

/// Where names are distinct, the first child of a name is the only one.
pub proof fn lemma_named_child_unique(children: Seq<(String, Context)>, name: Seq<char>, j: int, from: int)
    requires
        names_distinct(children),
        0 <= from <= j < children.len(),
        children[j].0@ == name,
    ensures
        first_named(children, name, from) == Some(j),
    decreases j - from,
{
    if from < j {
        assert(children[from].0@ != children[j].0@);
        lemma_named_child_unique(children, name, j, from + 1);
    }
}

impl Context {
    /// Every node of the tree names its children distinctly.
    pub open spec fn well_named(self) -> bool
        decreases self,
    {
        match self {
            Context::Leaf(_) => true,
            Context::Node(children) => names_distinct(children@) && forall|i: int|
                0 <= i < children@.len() ==> #[trigger] children@[i].1.well_named(),
        }
    }

    /// The entity that a path of names leads to.
    pub open spec fn lookup(self, path: Seq<Seq<char>>) -> Option<Luid>
        decreases self,
    {
        match self {
            Context::Leaf(luid) => if path.len() == 0 {
                Some(luid)
            } else {
                None
            },
            Context::Node(children) => if path.len() == 0 {
                None
            } else {
                match first_named(children@, path[0], 0) {
                    Some(j) => if 0 <= j < children@.len() {
                        children@[j].1.lookup(path.skip(1))
                    } else {
                        None
                    },
                    None => None,
                }
            },
        }
    }

    /// Follows `path` from this node: `Some` exactly where the path ends at a leaf.
    pub fn get(&self, path: &[String]) -> (r: Option<Luid>)
        ensures
            r == self.lookup(path@.map_values(|s: String| s@)),
    {
        assert(path@.subrange(0, path@.len() as int) == path@);
        self.get_from(path, 0)
    }

    fn get_from(&self, path: &[String], start: usize) -> (r: Option<Luid>)
        requires
            start <= path@.len(),
        ensures
            r == self.lookup(path@.subrange(start as int, path@.len() as int).map_values(|s: String| s@)),
        decreases self,
    {
        let ghost rest = path@.subrange(start as int, path@.len() as int).map_values(|s: String| s@);
        proof {
            assert(path@.subrange(0, path@.len() as int) == path@);
        }
        match self {
            Context::Leaf(luid) => {
                if start == path.len() {
                    Some(*luid)
                } else {
                    None
                }
            },
            Context::Node(children) => {
                if start == path.len() {
                    return None;
                }
                let name = &path[start];
                assert(rest[0] == name@);
                let n = path.len();
                let mut j: usize = 0;
                while j < children.len()
                    invariant
                        j <= children@.len(),
                        n == path@.len(),
                        *self == Context::Node(*children),
                        start < path@.len(),
                        rest == path@.subrange(start as int, path@.len() as int).map_values(|s: String| s@),
                        *name == path@[start as int],
                        first_named(children@, name@, 0) == first_named(children@, name@, j as int),
                    decreases children@.len() - j,
                {
                    if children[j].0 == *name {
                        proof {
                            assert(rest.skip(1) =~= path@.subrange(start + 1, path@.len() as int).map_values(
                                |s: String| s@,
                            ));
                        }
                        proof {
                            assert(decreases_to!(*children => children[j as int]));
                        }
                        return children[j].1.get_from(path, start + 1);
                    }
                    j = j + 1;
                }
                None
            },
        }
    }
}

impl Default for Context {
    fn default() -> (r: Context)
        ensures
            r matches Context::Node(children) && children@.len() == 0,
            r.well_named(),
    {
        Context::Node(Vec::new())
    }
}

} // verus!
