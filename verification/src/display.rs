//! The hierarchy as items of the tree widget.

use vstd::prelude::*;
use tui_tree_widget::TreeItem;
use crate::model::Tree;
use crate::node::Node;

verus! {

#[verifier::external_type_specification]
#[verifier::external_body]
#[verifier::reject_recursive_types(Identifier)]
pub struct ExTreeItem<'text, Identifier>(TreeItem<'text, Identifier>);

/// An item of the tree widget that is identified by a full path.
pub type DisplayItem = TreeItem<'static, String>;

/// The identifier that an item carries.
pub uninterp spec fn item_identifier(item: DisplayItem) -> Seq<char>;

/// The items directly below an item, in order.
pub uninterp spec fn item_children(item: DisplayItem) -> Seq<DisplayItem>;

/// The lines of the text that an item shows.
pub uninterp spec fn item_label(item: DisplayItem) -> Seq<Seq<char>>;

/// The lines that the widget's text type makes of a string.
pub uninterp spec fn label_of(text: Seq<char>) -> Seq<Seq<char>>;

/// No two of the items carry the same identifier.
pub open spec fn distinct_identifiers(items: Seq<DisplayItem>) -> bool {
    forall|i: int, j: int|
        0 <= i < j < items.len() ==> item_identifier(items[i]) != item_identifier(items[j])
}

/// Whether `item` shows `tree`: it carries the tree's path, its text is the
/// tree's name, and the items below it show the tree's children, one by one
/// and in their order.
pub open spec fn shows(item: DisplayItem, tree: Tree) -> bool
    decreases tree,
{
    &&& item_identifier(item) == tree.path
    &&& item_label(item) == label_of(tree.name)
    &&& item_children(item).len() == tree.children.len()
    &&& forall|i: int|
        0 <= i < tree.children.len() ==> shows(
            #[trigger] item_children(item)[i],
            tree.children[i],
        )
}

/// Whether `items` show the children of `tree`, one by one and in their
/// order.
pub open spec fn show_children(items: Seq<DisplayItem>, tree: Tree) -> bool {
    &&& items.len() == tree.children.len()
    &&& forall|i: int| 0 <= i < tree.children.len() ==> shows(#[trigger] items[i], tree.children[i])
}

/// Calls `TreeItem::new_leaf` of tui-tree-widget, which stores the
/// identifier, the text that ratatui's `Text::from` makes of the string, and
/// an empty list of children.
#[verifier::external_body]
fn leaf_item(identifier: String, text: String) -> (item: DisplayItem)
    ensures
        item_identifier(item) == identifier@,
        item_label(item) == label_of(text@),
        item_children(item).len() == 0,
{
    TreeItem::new_leaf(identifier, text)
}

/// Calls `TreeItem::new` of tui-tree-widget, which fails exactly when two of
/// the children carry the same identifier, and otherwise stores the
/// identifier, the text that ratatui's `Text::from` makes of the string, and
/// the children as they are.
#[verifier::external_body]
fn group_item(identifier: String, text: String, children: Vec<DisplayItem>) -> (made: Option<
    DisplayItem,
>)
    ensures
        made is Some <==> distinct_identifiers(children@),
        made matches Some(item) ==> item_identifier(item) == identifier@ && item_label(item)
            == label_of(text@) && item_children(item) == children@,
{
    TreeItem::new(identifier, text, children).ok()
}

/// Two children of one well-formed node have different paths.
pub proof fn lemma_sibling_paths_differ(tree: Tree, i: int, j: int)
    requires
        tree.wf(),
        0 <= i < j < tree.children.len(),
    ensures
        tree.children[i].path != tree.children[j].path,
{
    let a = tree.children[i];
    let b = tree.children[j];
    let prefix = tree.path + seq!['/'];
    if a.path == b.path {
        assert(a.path == prefix + a.name);
        assert(b.path == prefix + b.name);
        assert(a.name.len() == b.name.len());
        assert forall|k: int| 0 <= k < a.name.len() implies a.name[k] == b.name[k] by {
            assert(a.name[k] == (prefix + a.name)[prefix.len() + k]);
            assert(b.name[k] == (prefix + b.name)[prefix.len() + k]);
        }
        assert(a.name =~= b.name);
    }
}

/// The item of one node: a leaf where the node has no children, else a
/// group above the items of its children.
fn to_tree_item(node: &Node) -> (item: DisplayItem)
    requires
        node@.wf(),
    ensures
        shows(item, node@),
    decreases node, 1int,
{
    proof {
        node.lemma_view_children();
    }
    let text = node.name.clone();
    let identifier = node.path.clone();
    if node.children.is_empty() {
        leaf_item(identifier, text)
    } else {
        match group_item(identifier, text, parse_children(node)) {
            Some(item) => item,
            None => vstd::pervasive::unreached(),
        }
    }
}

/// The items of the children of a node, in their order.
fn parse_children(node: &Node) -> (items: Vec<DisplayItem>)
    requires
        node@.wf(),
    ensures
        show_children(items@, node@),
        distinct_identifiers(items@),
    decreases node, 0int,
{
    proof {
        node.lemma_view_children();
    }
    let mut items: Vec<DisplayItem> = Vec::new();
    let mut i: usize = 0;
    while i < node.children.len()
        invariant
            i <= node.children@.len(),
            node@.wf(),
            node@.children.len() == node.children@.len(),
            forall|k: int|
                0 <= k < node.children@.len() ==> #[trigger] node@.children[k]
                    == node.children@[k]@,
            items@.len() == i,
            forall|k: int| 0 <= k < i ==> shows(#[trigger] items@[k], node@.children[k]),
        decreases node.children@.len() - i,
    {
        assert(node@.children[i as int].wf());
        let item = to_tree_item(&node.children[i]);
        items.push(item);
        i += 1;
    }
    proof {
        assert forall|k: int, l: int| 0 <= k < l < items@.len() implies item_identifier(items@[k])
            != item_identifier(items@[l]) by {
            lemma_sibling_paths_differ(node@, k, l);
            assert(shows(items@[k], node@.children[k]));
            assert(shows(items@[l], node@.children[l]));
        }
    }
    items
}

/// The items that show the hierarchy below `root`: one for each child of
/// the root, in the children's order, each above the items of its own
/// children; the root itself gets none. An item shows the name of its node
/// and carries the node's full path, so no two items below one parent, nor
/// two at the top, carry the same identifier.
pub fn create_tree(root: &Node) -> (items: Vec<DisplayItem>)
    requires
        root@.wf(),
    ensures
        show_children(items@, root@),
        distinct_identifiers(items@),
{
    parse_children(root)
}

} // verus!
