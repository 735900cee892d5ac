//! The nodes of the entry hierarchy, and how a node stands for its value.

use vstd::prelude::*;
use vstd::string::StringExecFns;
use crate::growth::{lemma_child_index_first, lemma_child_index_none};
use crate::model::{child_index, Tree};
use crate::segments::{is_path_segment, is_segment};

verus! {

/// One path segment of the hierarchy, with the nodes below it.
#[derive(Debug)]
pub struct Node {
    pub name: String,
    pub path: String,
    pub children: Vec<Node>,
}

/// The value of a node.
pub open spec fn tree_of(node: Node) -> Tree
    decreases node, node.children@.len() + 1,
{
    Tree {
        name: node.name@,
        path: node.path@,
        children: trees_of(node, node.children@.len()),
    }
}

/// The values of the first `count` children of a node.
pub open spec fn trees_of(node: Node, count: nat) -> Seq<Tree>
    decreases node, count,
{
    if 0 < count <= node.children@.len() {
        trees_of(node, (count - 1) as nat).push(tree_of(node.children@[count - 1]))
    } else {
        Seq::empty()
    }
}

/// The value of a node whose child at `position` was replaced.
pub proof fn lemma_view_replaced(before: Node, after: Node, position: int)
    requires
        0 <= position < before.children@.len(),
        after.name == before.name,
        after.path == before.path,
        after.children@ == before.children@.update(position, after.children@[position]),
    ensures
        after@ == before@.with_child_at(position, after.children@[position]@),
{
    before.lemma_view_children();
    after.lemma_view_children();
    assert(after@.children =~= before@.children.update(position, after.children@[position]@));
}

/// The value of a node that was given one more child.
pub proof fn lemma_view_pushed(before: Node, after: Node)
    requires
        after.name == before.name,
        after.path == before.path,
        after.children@.len() == before.children@.len() + 1,
        after.children@.drop_last() == before.children@,
    ensures
        after@ == before@.with_child(after.children@.last()@),
{
    before.lemma_view_children();
    after.lemma_view_children();
    assert forall|i: int| 0 <= i < before.children@.len() implies after@.children[i]
        == before@.children[i] by {
        assert(after.children@[i] == after.children@.drop_last()[i]);
    }
    assert(after@.children =~= before@.children.push(after.children@.last()@));
}

impl View for Node {
    type V = Tree;

    open spec fn view(&self) -> Tree {
        tree_of(*self)
    }
}

impl Node {
    /// A node without children.
    pub fn new(name: &str, path: &str) -> (node: Node)
        ensures
            node@ == Tree::leaf(name@, path@),
            node@.wf(),
    {
        Node { name: String::from_str(name), path: String::from_str(path), children: Vec::new() }
    }

    /// The first child called `name`, if there is one, to be changed in
    /// place: whatever becomes of the child, the node keeps its name, its
    /// path and its other children.
    pub fn find_child(&mut self, name: &str) -> (found: Option<&mut Node>)
        ensures
            match found {
                Some(child) => {
                    let i = child_index(old(self)@.children, name@);
                    &&& 0 <= i < old(self).children@.len()
                    &&& *child == old(self).children@[i]
                    &&& child@ == old(self)@.children[i]
                    &&& child@.name == name@
                    &&& final(self).name == old(self).name
                    &&& final(self).path == old(self).path
                    &&& final(self).children@ == old(self).children@.update(i, *final(child))
                },
                None => {
                    &&& child_index(old(self)@.children, name@) == old(self).children@.len()
                    &&& *final(self) == *old(self)
                },
            },
    {
        let key = String::from_str(name);
        let mut i: usize = 0;
        proof {
            self.lemma_view_children();
        }
        while i < self.children.len()
            invariant
                i <= self.children@.len(),
                *self == *old(self),
                key@ == name@,
                self@.children.len() == self.children@.len(),
                forall|j: int|
                    0 <= j < self.children@.len() ==> #[trigger] self@.children[j]
                        == self.children@[j]@,
                forall|j: int| 0 <= j < i ==> self.children@[j].name@ != name@,
            decreases self.children@.len() - i,
        {
            if self.children[i].name == key {
                proof {
                    lemma_child_index_first(self@.children, name@, i as int);
                    self.children@[i as int].lemma_view_children();
                }
                return Some(&mut self.children[i]);
            }
            i += 1;
        }
        proof {
            lemma_child_index_none(self@.children, name@);
        }
        None
    }

    /// Appends `leaf` to the children, behind those that are there, and
    /// hands the node back. The node stays well-formed where it admits the
    /// child (see `lemma_with_child_wf`).
    pub fn add_child(&mut self, leaf: Node) -> (node: &mut Node)
        ensures
            node.name == old(self).name,
            node.path == old(self).path,
            node.children@ == old(self).children@.push(leaf),
            node@ == old(self)@.with_child(leaf@),
            *final(self) == *final(node),
    {
        let ghost before = *self;
        self.children.push(leaf);
        proof {
            assert(self.children@.drop_last() =~= before.children@);
            lemma_view_pushed(before, *self);
        }
        self
    }

    /// Whether the node and all below it keep what the hierarchy promises:
    /// names that are path segments, no name twice among siblings, and
    /// paths made of the parent's path, a separator and the name.
    pub fn is_well_formed(&self) -> (ok: bool)
        ensures
            ok == self@.wf(),
        decreases self,
    {
        proof {
            self.lemma_view_children();
            reveal_strlit("/");
        }
        let mut i: usize = 0;
        while i < self.children.len()
            invariant
                i <= self.children@.len(),
                "/"@ == seq!['/'],
                self@.name == self.name@,
                self@.path == self.path@,
                self@.children.len() == self.children@.len(),
                forall|k: int|
                    0 <= k < self.children@.len() ==> #[trigger] self@.children[k]
                        == self.children@[k]@,
                forall|k: int|
                    0 <= k < i ==> {
                        &&& is_segment((#[trigger] self@.children[k]).name)
                        &&& self@.children[k].path == self@.child_path(self@.children[k].name)
                        &&& self@.children[k].wf()
                    },
                forall|k: int, l: int|
                    0 <= k < l < i ==> self@.children[k].name != self@.children[l].name,
            decreases self.children@.len() - i,
        {
            let child = &self.children[i];
            proof {
                child.lemma_view_children();
                assert(self@.children[i as int] == child@);
            }
            if !is_path_segment(child.name.as_str()) {
                return false;
            }
            let expected = self.path.clone().concat("/").concat(child.name.as_str());
            if !(child.path == expected) {
                return false;
            }
            if !child.is_well_formed() {
                return false;
            }
            let mut j: usize = 0;
            while j < i
                invariant
                    j <= i < self.children@.len(),
                    *child == self.children@[i as int],
                    self@.children.len() == self.children@.len(),
                    forall|k: int|
                        0 <= k < self.children@.len() ==> #[trigger] self@.children[k]
                            == self.children@[k]@,
                    forall|k: int|
                        0 <= k < j ==> self@.children[k].name != self@.children[i as int].name,
                decreases i - j,
            {
                proof {
                    self.children@[j as int].lemma_view_children();
                    child.lemma_view_children();
                }
                if self.children[j].name == child.name {
                    assert(self@.children[j as int].name == self@.children[i as int].name);
                    return false;
                }
                j += 1;
            }
            i += 1;
        }
        true
    }

    /// The value of a node has the node's name and path, and the values of
    /// the node's children, position by position.
    pub proof fn lemma_view_children(&self)
        ensures
            self@.name == self.name@,
            self@.path == self.path@,
            self@.children.len() == self.children@.len(),
            forall|i: int|
                0 <= i < self.children@.len() ==> #[trigger] self@.children[i]
                    == self.children@[i]@,
    {
        lemma_trees_of(*self, self.children@.len());
    }
}

proof fn lemma_trees_of(node: Node, count: nat)
    requires
        count <= node.children@.len(),
    ensures
        trees_of(node, count).len() == count,
        forall|i: int|
            0 <= i < count ==> #[trigger] trees_of(node, count)[i] == tree_of(node.children@[i]),
    decreases count,
{
    if count > 0 {
        lemma_trees_of(node, (count - 1) as nat);
    }
}

impl Clone for Node {
    /// A deep copy: the same names and paths, level by level.
    fn clone(&self) -> (copy: Node)
        ensures
            copy@ == self@,
        decreases self,
    {
        let mut children: Vec<Node> = Vec::new();
        let mut i: usize = 0;
        while i < self.children.len()
            invariant
                i <= self.children@.len(),
                children@.len() == i,
                forall|j: int| 0 <= j < i ==> children@[j]@ == self.children@[j]@,
            decreases self.children@.len() - i,
        {
            let child = self.children[i].clone();
            children.push(child);
            i += 1;
        }
        let copy = Node { name: self.name.clone(), path: self.path.clone(), children };
        proof {
            copy.lemma_view_children();
            self.lemma_view_children();
            assert(copy@.children =~= self@.children);
        }
        copy
    }
}

} // verus!
