//! Building the hierarchy from entry names.

use vstd::prelude::*;
use vstd::string::StringExecFns;
use crate::growth::{
    lemma_child_index_bounds, lemma_child_index_pushed, lemma_extends_itself, lemma_extends_twice,
    lemma_grow_extends, lemma_grow_has_path, lemma_grow_wf, lemma_insert_extends, lemma_insert_wf,
    lemma_walk_path,
};
use crate::model::{child_index, Tree};
use crate::node::{lemma_view_pushed, lemma_view_replaced, Node};
use crate::segments::{
    is_segment, lemma_entry_name_of_path_text, lemma_segments_are_segments,
    lemma_segments_of_path_text, path_text, segments, split_path, texts,
    without_leading_separators,
};

verus! {

/// What is left of a path from `depth` on.
pub open spec fn from_depth(parts: Seq<Seq<char>>, depth: int) -> Seq<Seq<char>> {
    if 0 <= depth <= parts.len() {
        parts.skip(depth)
    } else {
        Seq::empty()
    }
}

/// Whether each of `parts` is a path segment.
pub open spec fn all_segments(parts: Seq<Seq<char>>) -> bool {
    forall|k: int| 0 <= k < parts.len() ==> is_segment(#[trigger] parts[k])
}

/// Walks the segments of `parts` from `depth` on, starting at `node`: at
/// each segment it enters the first child of that name, and where no child
/// has that name it appends a new one, behind the others, and enters it.
/// Nothing is walked where `depth` is not below the number of parts.
pub fn build_tree(node: &mut Node, parts: &Vec<&str>, depth: usize)
    ensures
        final(node)@ == old(node)@.insert(from_depth(texts(parts@), depth as int)),
        old(node)@.wf() && all_segments(from_depth(texts(parts@), depth as int))
            ==> final(node)@.wf(),
    decreases parts@.len() - depth,
{
    proof {
        if old(node)@.wf() && all_segments(from_depth(texts(parts@), depth as int)) {
            lemma_insert_wf(old(node)@, from_depth(texts(parts@), depth as int));
        }
    }
    if depth < parts.len() {
        let item = parts[depth];
        let ghost before = *node;
        let ghost segs = from_depth(texts(parts@), depth as int);
        let ghost rest = from_depth(texts(parts@), depth + 1);
        proof {
            assert(segs[0] == item@);
            assert(segs.skip(1) =~= rest);
            before.lemma_view_children();
            lemma_child_index_bounds(before@.children, item@);
        }
        let dir = match node.find_child(item) {
            Some(d) => d,
            None => {
                proof {
                    reveal_strlit("/");
                }
                let path = node.path.clone().concat("/").concat(item);
                let d = Node::new(item, path.as_str());
                let ghost leaf = d;
                node.add_child(d);
                proof {
                    lemma_child_index_pushed(before@.children, leaf@);
                    assert(leaf@ == Tree::leaf(item@, before@.child_path(item@)));
                }
                match node.find_child(item) {
                    Some(d2) => d2,
                    None => vstd::pervasive::unreached(),
                }
            },
        };
        build_tree(dir, parts, depth + 1);
        proof {
            let at = child_index(before@.children, item@);
            if at < before@.children.len() {
                lemma_view_replaced(before, *node, at);
            } else {
                assert(node.children@.drop_last() =~= before.children@);
                lemma_view_pushed(before, *node);
            }
        }
    }
}

/// The texts of entry names, one by one.
pub open spec fn entry_texts(entries: Seq<String>) -> Seq<Seq<char>> {
    entries.map_values(|entry: String| entry@)
}

/// The paths that entry names stand for, one by one.
pub open spec fn entry_paths(entries: Seq<Seq<char>>) -> Seq<Seq<Seq<char>>> {
    entries.map_values(|entry: Seq<char>| segments(entry))
}

/// The hierarchy of a list of entry names: the root, after the path of each
/// entry was walked from it, in the order of the list.
pub open spec fn hierarchy(entries: Seq<Seq<char>>) -> Tree {
    Tree::root().grow(entry_paths(entries))
}

/// Builds the hierarchy of a list of entry names: a root called `root`,
/// with an empty path, from which the segments of every entry were walked,
/// in the order of the list. Entries may repeat, and one may begin another.
pub fn build(entries: &Vec<String>) -> (root: Node)
    ensures
        root@ == hierarchy(entry_texts(entries@)),
        root@.wf(),
{
    proof {
        reveal_strlit("root");
        reveal_strlit("");
    }
    let mut root = Node::new("root", "");
    let ghost paths = entry_paths(entry_texts(entries@));
    let mut done: usize = 0;
    assert(root@.name =~= Tree::root().name && root@.path =~= Tree::root().path);
    assert(paths.take(0) =~= Seq::empty());
    while done < entries.len()
        invariant
            done <= entries@.len(),
            paths == entry_paths(entry_texts(entries@)),
            root@ == Tree::root().grow(paths.take(done as int)),
        decreases entries@.len() - done,
    {
        let parts = split_path(entries[done].as_str());
        build_tree(&mut root, &parts, 0);
        proof {
            assert(from_depth(texts(parts@), 0) =~= texts(parts@));
            assert(paths[done as int] == segments(entries@[done as int]@));
            assert(paths.take(done + 1).drop_last() =~= paths.take(done as int));
            assert(paths.take(done + 1).last() == paths[done as int]);
        }
        done += 1;
    }
    proof {
        assert(paths.take(done as int) =~= paths);
        lemma_hierarchy_wf(entry_texts(entries@));
    }
    root
}

/// In the hierarchy of any list of entry names, no node has two children of
/// one name, every name below the root is a path segment, and every path
/// is the parent's path, a separator and the name.
pub proof fn lemma_hierarchy_wf(entries: Seq<Seq<char>>)
    ensures
        hierarchy(entries).wf(),
{
    let paths = entry_paths(entries);
    assert forall|k: int, l: int|
        0 <= k < paths.len() && 0 <= l < paths[k].len() implies is_segment(
        #[trigger] paths[k][l],
    ) by {
        lemma_segments_are_segments(entries[k]);
    }
    lemma_grow_wf(Tree::root(), paths);
}

/// In the hierarchy of any list of entry names, no node at any level has
/// two children of one name.
pub proof fn lemma_hierarchy_has_no_name_twice(
    entries: Seq<Seq<char>>,
    segs: Seq<Seq<char>>,
    i: int,
    j: int,
)
    requires
        hierarchy(entries).has_path(segs),
        0 <= i < j < hierarchy(entries).walk(segs).children.len(),
    ensures
        hierarchy(entries).walk(segs).children[i].name != hierarchy(entries).walk(
            segs,
        ).children[j].name,
{
    lemma_hierarchy_wf(entries);
    lemma_walk_path(hierarchy(entries), segs);
}

/// Every entry of the list can be walked in the hierarchy of the list: its
/// segments, in order, lead from the root to a node.
pub proof fn lemma_hierarchy_reaches_every_entry(entries: Seq<Seq<char>>, k: int)
    requires
        0 <= k < entries.len(),
    ensures
        hierarchy(entries).has_path(segments(entries[k])),
{
    lemma_grow_has_path(Tree::root(), entry_paths(entries), k);
}

/// The path of the node that an entry leads to names the entry: without
/// its leading separator it has the segments of the entry.
pub proof fn lemma_hierarchy_path_names_entry(entries: Seq<Seq<char>>, k: int)
    requires
        0 <= k < entries.len(),
    ensures
        segments(
            without_leading_separators(hierarchy(entries).walk(segments(entries[k])).path),
        ) == segments(entries[k]),
{
    let tree = hierarchy(entries);
    let segs = segments(entries[k]);
    lemma_hierarchy_reaches_every_entry(entries, k);
    lemma_hierarchy_wf(entries);
    lemma_grow_extends(Tree::root(), entry_paths(entries));
    lemma_walk_path(tree, segs);
    let text = path_text(segs);
    assert(tree.path + text =~= text);
    lemma_segments_of_path_text(segs);
    if segs.len() > 0 {
        lemma_entry_name_of_path_text(segs);
        assert(text[0] == '/');
        assert(segments(text) == segments(text.skip(1)));
    }
}

/// Entries keep the places that the entries before them made: the hierarchy
/// of a list is the hierarchy of any of its beginnings, grown. Children
/// stand in the order in which their names first came, never sorted.
pub proof fn lemma_hierarchy_keeps_insertion_order(entries: Seq<Seq<char>>, count: int)
    requires
        0 <= count <= entries.len(),
    ensures
        hierarchy(entries).extends(hierarchy(entries.take(count))),
    decreases entries.len() - count,
{
    if count == entries.len() {
        assert(entries.take(count) =~= entries);
        lemma_extends_itself(hierarchy(entries));
    } else {
        let longer = entries.take(count + 1);
        lemma_hierarchy_keeps_insertion_order(entries, count + 1);
        assert(entry_paths(longer).drop_last() =~= entry_paths(entries.take(count)));
        lemma_insert_extends(hierarchy(entries.take(count)), entry_paths(longer).last());
        lemma_extends_twice(hierarchy(entries), hierarchy(longer), hierarchy(entries.take(count)));
    }
}

} // verus!
