//! The hierarchy as a mathematical value.

use vstd::prelude::*;
use crate::segments::is_segment;

verus! {

/// The mathematical value of a node: its name, its full path and the values
/// of its children, in order.
#[verifier::ext_equal]
pub struct Tree {
    pub name: Seq<char>,
    pub path: Seq<char>,
    pub children: Seq<Tree>,
}

/// The position of the first of `children` called `name`; their number if
/// none is called so.
pub open spec fn child_index(children: Seq<Tree>, name: Seq<char>) -> int
    decreases children.len(),
{
    if children.len() == 0 {
        0
    } else if children[0].name == name {
        0
    } else {
        1 + child_index(children.skip(1), name)
    }
}

impl Tree {
    /// A tree without children.
    pub open spec fn leaf(name: Seq<char>, path: Seq<char>) -> Tree {
        Tree { name, path, children: Seq::empty() }
    }

    /// The root that every hierarchy starts from.
    pub open spec fn root() -> Tree {
        Tree::leaf(seq!['r', 'o', 'o', 't'], Seq::empty())
    }

    /// The path of a child of this tree that is called `name`.
    pub open spec fn child_path(self, name: Seq<char>) -> Seq<char> {
        self.path + seq!['/'] + name
    }

    /// Whether a child is called `name`.
    pub open spec fn has_child(self, name: Seq<char>) -> bool {
        child_index(self.children, name) < self.children.len()
    }

    /// This tree with one more child, after the others.
    pub open spec fn with_child(self, child: Tree) -> Tree {
        Tree { children: self.children.push(child), ..self }
    }

    /// This tree with the child at `position` replaced.
    pub open spec fn with_child_at(self, position: int, child: Tree) -> Tree {
        Tree { children: self.children.update(position, child), ..self }
    }

    /// Whether `child` may join the children: a new name that is a path
    /// segment, and the path that this tree gives to that name.
    pub open spec fn admits(self, child: Tree) -> bool {
        &&& is_segment(child.name)
        &&& child.path == self.child_path(child.name)
        &&& !self.has_child(child.name)
    }

    /// What the hierarchy keeps true at every level: the children's names
    /// are path segments, no two children share a name, and a child's path is
    /// its parent's path, a separator and its name.
    pub open spec fn wf(self) -> bool
        decreases self,
    {
        &&& forall|i: int|
            0 <= i < self.children.len() ==> {
                &&& is_segment((#[trigger] self.children[i]).name)
                &&& self.children[i].path == self.child_path(self.children[i].name)
                &&& self.children[i].wf()
            }
        &&& forall|i: int, j: int|
            0 <= i < j < self.children.len() ==> self.children[i].name != self.children[j].name
    }

    /// This tree after the path `segs` was walked from it: at each segment
    /// the first child of that name is entered, and where no child has that
    /// name a new leaf of that name is appended, behind the others, and
    /// entered.
    pub open spec fn insert(self, segs: Seq<Seq<char>>) -> Tree
        decreases segs.len(),
    {
        if segs.len() == 0 {
            self
        } else {
            let at = child_index(self.children, segs[0]);
            if at < self.children.len() {
                self.with_child_at(at, self.children[at].insert(segs.skip(1)))
            } else {
                self.with_child(Tree::leaf(segs[0], self.child_path(segs[0])).insert(segs.skip(1)))
            }
        }
    }

    /// This tree after each of `paths` is walked from it, in order.
    pub open spec fn grow(self, paths: Seq<Seq<Seq<char>>>) -> Tree
        decreases paths.len(),
    {
        if paths.len() == 0 {
            self
        } else {
            self.grow(paths.drop_last()).insert(paths.last())
        }
    }

    /// Whether the path `segs` can be walked from this tree: each segment
    /// names a child of the node reached so far.
    pub open spec fn has_path(self, segs: Seq<Seq<char>>) -> bool
        decreases segs.len(),
    {
        segs.len() == 0 || {
            let at = child_index(self.children, segs[0]);
            at < self.children.len() && self.children[at].has_path(segs.skip(1))
        }
    }

    /// The node that walking the path `segs` from this tree ends in.
    pub open spec fn walk(self, segs: Seq<Seq<char>>) -> Tree
        recommends
            self.has_path(segs),
        decreases segs.len(),
    {
        if segs.len() == 0 {
            self
        } else {
            self.children[child_index(self.children, segs[0])].walk(segs.skip(1))
        }
    }

    /// Whether this tree is `earlier` grown: the same node, with the
    /// children of `earlier` in their places, each of them grown at most, and
    /// new children only after them.
    pub open spec fn extends(self, earlier: Tree) -> bool
        decreases earlier,
    {
        &&& self.name == earlier.name
        &&& self.path == earlier.path
        &&& earlier.children.len() <= self.children.len()
        &&& forall|i: int|
            0 <= i < earlier.children.len() ==> (#[trigger] self.children[i]).extends(
                earlier.children[i],
            )
    }
}

} // verus!
