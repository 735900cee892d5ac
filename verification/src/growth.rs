//! What holds of a hierarchy however it was grown.

use vstd::prelude::*;
use crate::model::{child_index, Tree};
use crate::segments::{is_segment, lemma_segments_of_path_text, path_text};

verus! {

/// The first child called `name` is called `name`, and none before it is.
pub proof fn lemma_child_index_bounds(children: Seq<Tree>, name: Seq<char>)
    ensures
        0 <= child_index(children, name) <= children.len(),
        child_index(children, name) < children.len() ==> children[child_index(
            children,
            name,
        )].name == name,
        forall|i: int| 0 <= i < child_index(children, name) ==> children[i].name != name,
    decreases children.len(),
{
    if children.len() > 0 && children[0].name != name {
        let rest = children.skip(1);
        lemma_child_index_bounds(rest, name);
        assert forall|i: int| 0 <= i < child_index(children, name) implies children[i].name
            != name by {
            if i > 0 {
                assert(rest[i - 1] == children[i]);
            }
        }
    }
}

/// A child called `name` with none called so before it is the first called
/// so.
pub proof fn lemma_child_index_first(children: Seq<Tree>, name: Seq<char>, at: int)
    requires
        0 <= at < children.len(),
        children[at].name == name,
        forall|i: int| 0 <= i < at ==> children[i].name != name,
    ensures
        child_index(children, name) == at,
    decreases children.len(),
{
    if at > 0 {
        let rest = children.skip(1);
        assert forall|i: int| 0 <= i < at - 1 implies rest[i].name != name by {
            assert(rest[i] == children[i + 1]);
        }
        lemma_child_index_first(rest, name, at - 1);
    }
}

/// Where no child is called `name`, the search ends behind the last child.
pub proof fn lemma_child_index_none(children: Seq<Tree>, name: Seq<char>)
    requires
        forall|i: int| 0 <= i < children.len() ==> children[i].name != name,
    ensures
        child_index(children, name) == children.len(),
    decreases children.len(),
{
    if children.len() > 0 {
        let rest = children.skip(1);
        assert forall|i: int| 0 <= i < rest.len() implies rest[i].name != name by {
            assert(rest[i] == children[i + 1]);
        }
        lemma_child_index_none(rest, name);
    }
}

/// Among children of which none is called as `child` is, followed by
/// `child`, `child` is the first called so.
pub proof fn lemma_child_index_pushed(children: Seq<Tree>, child: Tree)
    requires
        child_index(children, child.name) == children.len(),
    ensures
        child_index(children.push(child), child.name) == children.len(),
{
    lemma_child_index_bounds(children, child.name);
    lemma_child_index_first(children.push(child), child.name, children.len() as int);
}

/// A well-formed tree that is given a well-formed child that it admits is
/// well-formed.
pub proof fn lemma_with_child_wf(tree: Tree, child: Tree)
    requires
        tree.wf(),
        child.wf(),
        tree.admits(child),
    ensures
        tree.with_child(child).wf(),
{
    let grown = tree.with_child(child);
    lemma_child_index_bounds(tree.children, child.name);
    assert forall|i: int| 0 <= i < grown.children.len() implies {
        &&& is_segment((#[trigger] grown.children[i]).name)
        &&& grown.children[i].path == grown.child_path(grown.children[i].name)
        &&& grown.children[i].wf()
    } by {
        if i < tree.children.len() {
            assert(grown.children[i] == tree.children[i]);
        }
    }
    assert forall|i: int, j: int| 0 <= i < j < grown.children.len() implies grown.children[i].name
        != grown.children[j].name by {
        assert(grown.children[i] == tree.children[i]);
        if j < tree.children.len() {
            assert(grown.children[j] == tree.children[j]);
        }
    }
}

/// Walking a path changes neither the name nor the path of the node it
/// starts from, and takes no child away.
pub proof fn lemma_insert_keeps_node(tree: Tree, segs: Seq<Seq<char>>)
    ensures
        tree.insert(segs).name == tree.name,
        tree.insert(segs).path == tree.path,
        tree.insert(segs).children.len() >= tree.children.len(),
{
    lemma_child_index_bounds(tree.children, if segs.len() > 0 { segs[0] } else { Seq::empty() });
}

/// Walking a path of segments through a well-formed tree leaves it
/// well-formed: no level gets two children of one name.
pub proof fn lemma_insert_wf(tree: Tree, segs: Seq<Seq<char>>)
    requires
        tree.wf(),
        forall|k: int| 0 <= k < segs.len() ==> is_segment(#[trigger] segs[k]),
    ensures
        tree.insert(segs).wf(),
    decreases segs.len(),
{
    if segs.len() > 0 {
        let name = segs[0];
        let rest = segs.skip(1);
        let at = child_index(tree.children, name);
        let grown = tree.insert(segs);
        lemma_child_index_bounds(tree.children, name);
        assert forall|k: int| 0 <= k < rest.len() implies is_segment(#[trigger] rest[k]) by {
            assert(rest[k] == segs[k + 1]);
        }
        let entered = if at < tree.children.len() {
            tree.children[at]
        } else {
            Tree::leaf(name, tree.child_path(name))
        };
        assert(entered.wf());
        lemma_insert_wf(entered, rest);
        lemma_insert_keeps_node(entered, rest);
        assert(is_segment(segs[0]));
        assert forall|i: int| 0 <= i < grown.children.len() implies {
            &&& is_segment((#[trigger] grown.children[i]).name)
            &&& grown.children[i].path == grown.child_path(grown.children[i].name)
            &&& grown.children[i].wf()
        } by {
            if i != at {
                assert(grown.children[i] == tree.children[i]);
            }
        }
        assert forall|i: int, j: int|
            0 <= i < j < grown.children.len() implies grown.children[i].name
            != grown.children[j].name by {
            assert(grown.children[i].name == if i < tree.children.len() {
                tree.children[i].name
            } else {
                name
            });
            assert(grown.children[j].name == if j < tree.children.len() {
                tree.children[j].name
            } else {
                name
            });
        }
    }
}

/// Walking paths of segments, one after another, through a well-formed
/// tree leaves it well-formed.
pub proof fn lemma_grow_wf(tree: Tree, paths: Seq<Seq<Seq<char>>>)
    requires
        tree.wf(),
        forall|k: int, l: int|
            0 <= k < paths.len() && 0 <= l < paths[k].len() ==> is_segment(#[trigger] paths[k][l]),
    ensures
        tree.grow(paths).wf(),
    decreases paths.len(),
{
    if paths.len() > 0 {
        let earlier = paths.drop_last();
        assert forall|k: int, l: int|
            0 <= k < earlier.len() && 0 <= l < earlier[k].len() implies is_segment(
            #[trigger] earlier[k][l],
        ) by {
            assert(earlier[k] == paths[k]);
        }
        lemma_grow_wf(tree, earlier);
        let last = paths.last();
        assert forall|l: int| 0 <= l < last.len() implies is_segment(#[trigger] last[l]) by {
            assert(last == paths[paths.len() - 1]);
        }
        lemma_insert_wf(tree.grow(earlier), last);
    }
}

/// Every tree is itself, grown by nothing.
pub proof fn lemma_extends_itself(tree: Tree)
    ensures
        tree.extends(tree),
    decreases tree,
{
    assert forall|i: int|
        0 <= i < tree.children.len() implies (#[trigger] tree.children[i]).extends(
        tree.children[i],
    ) by {
        lemma_extends_itself(tree.children[i]);
    }
}

/// Growth upon growth is growth.
pub proof fn lemma_extends_twice(last: Tree, middle: Tree, first: Tree)
    requires
        last.extends(middle),
        middle.extends(first),
    ensures
        last.extends(first),
    decreases first,
{
    assert forall|i: int|
        0 <= i < first.children.len() implies (#[trigger] last.children[i]).extends(
        first.children[i],
    ) by {
        assert(middle.children[i].extends(first.children[i]));
        assert(last.children[i].extends(middle.children[i]));
        lemma_extends_twice(last.children[i], middle.children[i], first.children[i]);
    }
}

/// Walking a path grows the tree: every node that was there stays where it
/// was, with its name and path, and new children come after their siblings.
pub proof fn lemma_insert_extends(tree: Tree, segs: Seq<Seq<char>>)
    ensures
        tree.insert(segs).extends(tree),
    decreases segs.len(),
{
    if segs.len() == 0 {
        lemma_extends_itself(tree);
    } else {
        let name = segs[0];
        let rest = segs.skip(1);
        let at = child_index(tree.children, name);
        let grown = tree.insert(segs);
        lemma_child_index_bounds(tree.children, name);
        assert forall|i: int|
            0 <= i < tree.children.len() implies (#[trigger] grown.children[i]).extends(
            tree.children[i],
        ) by {
            if i == at {
                lemma_insert_extends(tree.children[at], rest);
            } else {
                assert(grown.children[i] == tree.children[i]);
                lemma_extends_itself(tree.children[i]);
            }
        }
    }
}

/// Walking paths, one after another, grows the tree.
pub proof fn lemma_grow_extends(tree: Tree, paths: Seq<Seq<Seq<char>>>)
    ensures
        tree.grow(paths).extends(tree),
    decreases paths.len(),
{
    if paths.len() == 0 {
        lemma_extends_itself(tree);
    } else {
        let earlier = tree.grow(paths.drop_last());
        lemma_grow_extends(tree, paths.drop_last());
        lemma_insert_extends(earlier, paths.last());
        lemma_extends_twice(tree.grow(paths), earlier, tree);
    }
}

/// A path that could be walked can still be walked after the tree has
/// grown.
pub proof fn lemma_extends_has_path(later: Tree, earlier: Tree, segs: Seq<Seq<char>>)
    requires
        later.extends(earlier),
        earlier.has_path(segs),
    ensures
        later.has_path(segs),
    decreases segs.len(),
{
    if segs.len() > 0 {
        let name = segs[0];
        let at = child_index(earlier.children, name);
        lemma_child_index_bounds(earlier.children, name);
        assert forall|i: int| 0 <= i < at implies later.children[i].name != name by {
            assert(later.children[i].extends(earlier.children[i]));
        }
        assert(later.children[at].extends(earlier.children[at]));
        lemma_child_index_first(later.children, name, at);
        lemma_extends_has_path(later.children[at], earlier.children[at], segs.skip(1));
    }
}

/// After a path was walked, it can be walked.
pub proof fn lemma_insert_has_path(tree: Tree, segs: Seq<Seq<char>>)
    ensures
        tree.insert(segs).has_path(segs),
    decreases segs.len(),
{
    if segs.len() > 0 {
        let name = segs[0];
        let rest = segs.skip(1);
        let at = child_index(tree.children, name);
        let grown = tree.insert(segs);
        lemma_child_index_bounds(tree.children, name);
        let entered = if at < tree.children.len() {
            tree.children[at]
        } else {
            Tree::leaf(name, tree.child_path(name))
        };
        lemma_insert_keeps_node(entered, rest);
        lemma_insert_has_path(entered, rest);
        assert(grown.children[at] == entered.insert(rest));
        assert forall|i: int| 0 <= i < at implies grown.children[i].name != name by {
            assert(grown.children[i] == tree.children[i]);
        }
        lemma_child_index_first(grown.children, name, at);
    }
}

/// After paths were walked one after another, each of them can be walked.
pub proof fn lemma_grow_has_path(tree: Tree, paths: Seq<Seq<Seq<char>>>, k: int)
    requires
        0 <= k < paths.len(),
    ensures
        tree.grow(paths).has_path(paths[k]),
    decreases paths.len(),
{
    let earlier = tree.grow(paths.drop_last());
    if k == paths.len() - 1 {
        lemma_insert_has_path(earlier, paths.last());
    } else {
        lemma_grow_has_path(tree, paths.drop_last(), k);
        assert(paths.drop_last()[k] == paths[k]);
        lemma_insert_extends(earlier, paths.last());
        lemma_extends_has_path(tree.grow(paths), earlier, paths[k]);
    }
}

/// In a well-formed tree, a path that can be walked is made of path
/// segments, and the node it ends in has the path of the node it starts
/// from, followed by each segment behind a separator.
pub proof fn lemma_walk_path(tree: Tree, segs: Seq<Seq<char>>)
    requires
        tree.wf(),
        tree.has_path(segs),
    ensures
        forall|k: int| 0 <= k < segs.len() ==> is_segment(#[trigger] segs[k]),
        tree.walk(segs).path == tree.path + path_text(segs),
        tree.walk(segs).wf(),
    decreases segs.len(),
{
    if segs.len() == 0 {
        assert(tree.path + path_text(segs) =~= tree.path);
    } else {
        let name = segs[0];
        let rest = segs.skip(1);
        let at = child_index(tree.children, name);
        lemma_child_index_bounds(tree.children, name);
        let child = tree.children[at];
        lemma_walk_path(child, rest);
        assert forall|k: int| 0 <= k < segs.len() implies is_segment(#[trigger] segs[k]) by {
            if k > 0 {
                assert(segs[k] == rest[k - 1]);
            }
        }
        assert(child.path + path_text(rest) =~= tree.path + path_text(segs));
    }
}

/// In a well-formed tree, the path of a node tells the node: two walks
/// that end in nodes of one path are the same walk. So no two nodes of the
/// hierarchy, at whatever depth, have the same path.
pub proof fn lemma_paths_identify_nodes(tree: Tree, one: Seq<Seq<char>>, other: Seq<Seq<char>>)
    requires
        tree.wf(),
        tree.has_path(one),
        tree.has_path(other),
        tree.walk(one).path == tree.walk(other).path,
    ensures
        one == other,
{
    lemma_walk_path(tree, one);
    lemma_walk_path(tree, other);
    let a = path_text(one);
    let b = path_text(other);
    assert(a =~= (tree.path + a).skip(tree.path.len() as int));
    assert(b =~= (tree.path + b).skip(tree.path.len() as int));
    lemma_segments_of_path_text(one);
    lemma_segments_of_path_text(other);
}

} // verus!
