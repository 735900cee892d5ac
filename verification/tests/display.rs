use archive_inspector::builder::build;
use archive_inspector::display::{create_tree, DisplayItem};
use archive_inspector::node::Node;

fn entries(names: &[&str]) -> Vec<String> {
    names.iter().map(|name| name.to_string()).collect()
}

fn identifiers(items: &[DisplayItem]) -> Vec<&str> {
    items.iter().map(|item| item.identifier().as_str()).collect()
}

fn all_identifiers(items: &[DisplayItem], into: &mut Vec<String>) {
    for item in items {
        into.push(item.identifier().clone());
        all_identifiers(item.children(), into);
    }
}

#[test]
fn nothing_to_show_below_a_bare_root() {
    assert!(create_tree(&build(&entries(&[]))).is_empty());
    assert!(create_tree(&Node::new("root", "")).is_empty());
}

#[test]
fn items_carry_full_paths() {
    let root = build(&entries(&["doc/slide1.xml", "doc/slide2.xml", "meta.xml"]));
    let items = create_tree(&root);
    assert_eq!(identifiers(&items), vec!["/doc", "/meta.xml"]);
    assert_eq!(identifiers(items[0].children()), vec!["/doc/slide1.xml", "/doc/slide2.xml"]);
    assert!(items[1].children().is_empty());
    assert!(items[0].children()[0].children().is_empty());
    assert!(items[0].children()[1].children().is_empty());
}

#[test]
fn items_keep_the_order_of_the_children() {
    let root = build(&entries(&["z/2", "a", "z/1", "m/x/y"]));
    let items = create_tree(&root);
    assert_eq!(identifiers(&items), vec!["/z", "/a", "/m"]);
    assert_eq!(identifiers(items[0].children()), vec!["/z/2", "/z/1"]);
    assert_eq!(identifiers(items[2].children()), vec!["/m/x"]);
    assert_eq!(identifiers(items[2].children()[0].children()), vec!["/m/x/y"]);
}

#[test]
fn same_name_at_different_depths_gets_different_identifiers() {
    let root = build(&entries(&["x/x/x", "y/x", "x/y"]));
    let items = create_tree(&root);
    let mut all = Vec::new();
    all_identifiers(&items, &mut all);
    assert_eq!(all, vec!["/x", "/x/x", "/x/x/x", "/x/y", "/y", "/y/x"]);
    let mut unique = all.clone();
    unique.sort();
    unique.dedup();
    assert_eq!(unique.len(), all.len());
}

#[test]
fn items_show_the_names() {
    let root = build(&entries(&["doc/slide1.xml"]));
    let items = create_tree(&root);
    assert_eq!(items[0].height(), 1);
    assert_eq!(items[0].children()[0].height(), 1);
    let leaf = format!("{:?}", items[0].children()[0]);
    assert!(leaf.contains("\"slide1.xml\""));
    assert!(!leaf.contains("\"doc\""));
    assert!(format!("{:?}", items[0]).contains("\"doc\""));
}

#[test]
fn a_group_shows_its_name_not_its_path() {
    let root = build(&entries(&["doc/slide1.xml", "meta.xml"]));
    let items = create_tree(&root);
    let bare = tui_tree_widget::TreeItem::new(
        "/doc".to_string(),
        "doc".to_string(),
        vec![tui_tree_widget::TreeItem::new_leaf(
            "/doc/slide1.xml".to_string(),
            "slide1.xml".to_string(),
        )],
    )
    .expect("one child");
    assert_eq!(format!("{:?}", items[0]), format!("{:?}", bare));
    let leaf = tui_tree_widget::TreeItem::new_leaf("/meta.xml".to_string(), "meta.xml".to_string());
    assert_eq!(format!("{:?}", items[1]), format!("{:?}", leaf));
    let wrong = tui_tree_widget::TreeItem::new_leaf("/meta.xml".to_string(), "/meta.xml".to_string());
    assert_ne!(format!("{:?}", items[1]), format!("{:?}", wrong));
}

#[test]
fn the_widget_takes_the_items() {
    let root = build(&entries(&["a/b", "a/c", "d", "e/f/g"]));
    let items = create_tree(&root);
    assert!(tui_tree_widget::Tree::new(&items).is_ok());
}
