use archive_inspector::builder::{build, build_tree};
use archive_inspector::node::Node;

fn entries(names: &[&str]) -> Vec<String> {
    names.iter().map(|name| name.to_string()).collect()
}

fn names_of(node: &Node) -> Vec<&str> {
    node.children.iter().map(|child| child.name.as_str()).collect()
}

fn child<'a>(node: &'a Node, name: &str) -> &'a Node {
    let found: Vec<&Node> = node.children.iter().filter(|c| c.name == name).collect();
    assert_eq!(found.len(), 1, "exactly one child called {}", name);
    found[0]
}

fn reach<'a>(root: &'a Node, entry: &str) -> &'a Node {
    let mut node = root;
    for segment in entry.split('/').filter(|s| !s.is_empty()) {
        node = child(node, segment);
    }
    node
}

#[test]
fn root_of_nothing_is_bare() {
    let root = build(&entries(&[]));
    assert_eq!(root.name, "root");
    assert_eq!(root.path, "");
    assert!(root.children.is_empty());
    assert!(root.is_well_formed());
}

#[test]
fn every_entry_is_reachable() {
    let listed = [
        "[Content_Types].xml",
        "_rels/.rels",
        "ppt/presentation.xml",
        "ppt/slides/slide1.xml",
        "ppt/slides/slide2.xml",
        "ppt/slides/_rels/slide1.xml.rels",
        "docProps/app.xml",
        "ppt/media/",
        "ppt",
    ];
    let root = build(&entries(&listed));
    for entry in listed {
        let node = reach(&root, entry);
        let expected: String = entry
            .split('/')
            .filter(|s| !s.is_empty())
            .map(|s| format!("/{}", s))
            .collect();
        assert_eq!(node.path, expected);
    }
    assert!(root.is_well_formed());
}

#[test]
fn shared_prefix_is_merged() {
    let root = build(&entries(&["a/x", "a/y"]));
    assert_eq!(names_of(&root), vec!["a"]);
    assert_eq!(names_of(&root.children[0]), vec!["x", "y"]);
    assert!(root.children[0].children[0].children.is_empty());
    assert!(root.children[0].children[1].children.is_empty());
}

#[test]
fn no_level_has_a_name_twice() {
    let root = build(&entries(&["a/x", "b/x", "a/x/x", "a/y", "b", "a/x"]));
    assert_eq!(names_of(&root), vec!["a", "b"]);
    assert_eq!(names_of(child(&root, "a")), vec!["x", "y"]);
    assert_eq!(names_of(child(&root, "b")), vec!["x"]);
    assert_eq!(names_of(reach(&root, "a/x")), vec!["x"]);
    assert!(root.is_well_formed());
}

#[test]
fn insertion_order_is_kept() {
    let root = build(&entries(&["b/1", "a/1"]));
    assert_eq!(names_of(&root), vec!["b", "a"]);
}

#[test]
fn later_entries_leave_earlier_places() {
    let listed = ["z", "m/k", "a", "m/b", "z/q", "m/k/1"];
    for count in 0..=listed.len() {
        let early = build(&entries(&listed[..count]));
        let all = build(&entries(&listed));
        let early_names = names_of(&early);
        assert_eq!(&names_of(&all)[..early_names.len()], &early_names[..]);
    }
    let all = build(&entries(&listed));
    assert_eq!(names_of(&all), vec!["z", "m", "a"]);
    assert_eq!(names_of(child(&all, "m")), vec!["k", "b"]);
}

#[test]
fn prefix_before_longer_path() {
    let root = build(&entries(&["a", "a/b"]));
    assert_eq!(names_of(&root), vec!["a"]);
    assert_eq!(names_of(&root.children[0]), vec!["b"]);
}

#[test]
fn prefix_after_longer_path() {
    let root = build(&entries(&["a/b", "a"]));
    assert_eq!(names_of(&root), vec!["a"]);
    assert_eq!(names_of(&root.children[0]), vec!["b"]);
}

#[test]
fn document_with_slides_and_meta() {
    let root = build(&entries(&["doc/slide1.xml", "doc/slide2.xml", "meta.xml"]));
    assert_eq!(names_of(&root), vec!["doc", "meta.xml"]);
    assert_eq!(names_of(&root.children[0]), vec!["slide1.xml", "slide2.xml"]);
    assert!(root.children[1].children.is_empty());
    assert_eq!(root.children[0].path, "/doc");
    assert_eq!(root.children[0].children[0].path, "/doc/slide1.xml");
    assert_eq!(root.children[0].children[1].path, "/doc/slide2.xml");
    assert_eq!(root.children[1].path, "/meta.xml");
}

#[test]
fn repeated_entries_make_one_node() {
    let root = build(&entries(&["a/b", "a/b", "a/b"]));
    assert_eq!(names_of(&root), vec!["a"]);
    assert_eq!(names_of(&root.children[0]), vec!["b"]);
}

#[test]
fn empty_segments_are_dropped() {
    let root = build(&entries(&["dir/", "/lead", "x//y", "", "/", "//"]));
    assert_eq!(names_of(&root), vec!["dir", "lead", "x"]);
    assert!(child(&root, "dir").children.is_empty());
    assert_eq!(names_of(child(&root, "x")), vec!["y"]);
    assert_eq!(reach(&root, "x/y").path, "/x/y");
    assert!(root.is_well_formed());
}

#[test]
fn a_segment_may_be_called_root() {
    let root = build(&entries(&["root/root"]));
    assert_eq!(root.name, "root");
    assert_eq!(names_of(&root), vec!["root"]);
    assert_eq!(root.children[0].path, "/root");
    assert_eq!(root.children[0].children[0].path, "/root/root");
}

#[test]
fn names_beyond_ascii() {
    let root = build(&entries(&["å/ß.xml", "å/日本語"]));
    assert_eq!(names_of(&root), vec!["å"]);
    assert_eq!(names_of(&root.children[0]), vec!["ß.xml", "日本語"]);
    assert_eq!(root.children[0].children[1].path, "/å/日本語");
}

#[test]
fn new_node_is_a_leaf() {
    let node = Node::new("slide1.xml", "/doc/slide1.xml");
    assert_eq!(node.name, "slide1.xml");
    assert_eq!(node.path, "/doc/slide1.xml");
    assert!(node.children.is_empty());
    assert!(node.is_well_formed());
}

#[test]
fn add_child_appends() {
    let mut node = Node::new("root", "");
    node.add_child(Node::new("b", "/b"));
    let same = node.add_child(Node::new("a", "/a"));
    assert_eq!(same.children.len(), 2);
    assert_eq!(names_of(&node), vec!["b", "a"]);
    assert!(node.is_well_formed());
}

#[test]
fn find_child_finds_the_first_of_that_name() {
    let mut node = Node::new("root", "");
    node.add_child(Node::new("a", "/a"));
    node.add_child(Node::new("b", "/b"));
    node.add_child(Node::new("b", "/other"));
    assert!(node.find_child("c").is_none());
    assert!(node.find_child("").is_none());
    let found = node.find_child("b").expect("a child called b");
    assert_eq!(found.path, "/b");
    found.add_child(Node::new("x", "/b/x"));
    assert_eq!(names_of(&node.children[1]), vec!["x"]);
    assert!(node.children[0].children.is_empty());
    assert!(node.children[2].children.is_empty());
}

#[test]
fn build_tree_walks_from_the_given_depth() {
    let mut node = Node::new("root", "");
    let parts = vec!["skipped", "a", "b"];
    build_tree(&mut node, &parts, 1);
    assert_eq!(names_of(&node), vec!["a"]);
    assert_eq!(names_of(&node.children[0]), vec!["b"]);
    assert_eq!(node.children[0].children[0].path, "/a/b");
    build_tree(&mut node, &parts, 3);
    build_tree(&mut node, &parts, 7);
    assert_eq!(names_of(&node), vec!["a"]);
    build_tree(&mut node, &parts, 2);
    assert_eq!(names_of(&node), vec!["a", "b"]);
    assert_eq!(node.children[1].path, "/b");
}

#[test]
fn build_tree_starts_below_any_node() {
    let mut node = Node::new("doc", "/pkg/doc");
    build_tree(&mut node, &vec!["x", "y"], 0);
    assert_eq!(node.children[0].path, "/pkg/doc/x");
    assert_eq!(node.children[0].children[0].path, "/pkg/doc/x/y");
}

#[test]
fn well_formedness_is_checked() {
    let mut twice = Node::new("root", "");
    twice.add_child(Node::new("a", "/a"));
    twice.add_child(Node::new("a", "/a"));
    assert!(!twice.is_well_formed());

    let mut misplaced = Node::new("root", "");
    misplaced.add_child(Node::new("a", "a"));
    assert!(!misplaced.is_well_formed());

    let mut unnamed = Node::new("root", "");
    unnamed.add_child(Node::new("", "/"));
    assert!(!unnamed.is_well_formed());

    let mut compound = Node::new("root", "");
    compound.add_child(Node::new("a/b", "/a/b"));
    assert!(!compound.is_well_formed());

    let mut deep = Node::new("root", "");
    let mut inner = Node::new("a", "/a");
    inner.add_child(Node::new("b", "/b"));
    deep.add_child(inner);
    assert!(!deep.is_well_formed());

    let mut fine = Node::new("root", "");
    let mut inner = Node::new("a", "/a");
    inner.add_child(Node::new("b", "/a/b"));
    fine.add_child(inner);
    fine.add_child(Node::new("b", "/b"));
    assert!(fine.is_well_formed());
}

#[test]
fn clone_is_deep() {
    let root = build(&entries(&["a/b/c", "a/d", "e"]));
    let mut copy = root.clone();
    assert_eq!(names_of(&copy), names_of(&root));
    assert_eq!(names_of(reach(&copy, "a")), vec!["b", "d"]);
    assert_eq!(reach(&copy, "a/b/c").path, "/a/b/c");
    copy.add_child(Node::new("f", "/f"));
    assert_eq!(names_of(&root), vec!["a", "e"]);
    assert_eq!(names_of(&copy), vec!["a", "e", "f"]);
}
