use archive_inspector::builder::build;
use archive_inspector::display::create_tree;
use archive_inspector::markup::FormatError;
use archive_inspector::selection::{display_update, selected_entry};

fn identifiers(names: &[&str]) -> Vec<String> {
    names.iter().map(|name| name.to_string()).collect()
}

#[test]
fn nothing_selected_names_no_entry() {
    assert_eq!(selected_entry(&[]), None);
}

#[test]
fn the_last_identifier_names_the_entry() {
    assert_eq!(
        selected_entry(&identifiers(&["/doc", "/doc/slide1.xml"])),
        Some("doc/slide1.xml")
    );
    assert_eq!(selected_entry(&identifiers(&["/meta.xml"])), Some("meta.xml"));
    assert_eq!(selected_entry(&identifiers(&["/a", "/a/b", "/a/b/c"])), Some("a/b/c"));
}

#[test]
fn an_identifier_without_separator_names_itself() {
    assert_eq!(selected_entry(&identifiers(&["meta.xml"])), Some("meta.xml"));
    assert_eq!(selected_entry(&identifiers(&[""])), Some(""));
}

#[test]
fn an_entry_that_could_not_be_had_changes_nothing() {
    assert_eq!(display_update(None), Ok(None));
}

#[test]
fn an_entry_is_shown_reformatted() {
    assert_eq!(
        display_update(Some("<a><b>t</b></a>")),
        Ok(Some(
            "<?xml version=\"1.0\" encoding=\"UTF-8\"?>\n<a>\n  <b>t</b>\n</a>".to_string()
        ))
    );
}

#[test]
fn an_entry_that_is_no_markup_is_reported() {
    assert_eq!(display_update(Some("<a>")), Err(FormatError::Malformed));
    assert_eq!(display_update(Some("")), Err(FormatError::Malformed));
}

#[test]
fn from_entries_to_the_text_of_a_selected_slide() {
    let listed = identifiers(&["doc/slide1.xml", "doc/slide2.xml", "meta.xml"]);
    let root = build(&listed);
    let names: Vec<&str> = root.children.iter().map(|c| c.name.as_str()).collect();
    assert_eq!(names, vec!["doc", "meta.xml"]);
    let slides: Vec<&str> = root.children[0].children.iter().map(|c| c.name.as_str()).collect();
    assert_eq!(slides, vec!["slide1.xml", "slide2.xml"]);

    let items = create_tree(&root);
    let selection = vec![
        items[0].identifier().clone(),
        items[0].children()[0].identifier().clone(),
    ];
    let entry = selected_entry(&selection).expect("a selected entry");
    assert_eq!(entry, "doc/slide1.xml");
    assert!(listed.iter().any(|name| name == entry));

    let shown = display_update(Some("<a><b>t</b></a>")).expect("well-formed markup");
    let shown = shown.expect("a text to show");
    let lines: Vec<&str> = shown.lines().collect();
    assert_eq!(lines[1..], ["<a>", "  <b>t</b>", "</a>"]);
}
