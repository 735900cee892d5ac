use archive_inspector::segments::{entry_name, is_path_segment, split_path};

#[test]
fn split_plain_path() {
    assert_eq!(split_path("doc/slide1.xml"), vec!["doc", "slide1.xml"]);
    assert_eq!(split_path("a/b/c/d"), vec!["a", "b", "c", "d"]);
}

#[test]
fn split_single_segment() {
    assert_eq!(split_path("meta.xml"), vec!["meta.xml"]);
    assert_eq!(split_path("x"), vec!["x"]);
}

#[test]
fn split_nothing() {
    assert!(split_path("").is_empty());
    assert!(split_path("/").is_empty());
    assert!(split_path("///").is_empty());
}

#[test]
fn split_drops_empty_segments() {
    assert_eq!(split_path("dir/"), vec!["dir"]);
    assert_eq!(split_path("/dir"), vec!["dir"]);
    assert_eq!(split_path("a//b"), vec!["a", "b"]);
    assert_eq!(split_path("//a///b//"), vec!["a", "b"]);
}

#[test]
fn split_keeps_other_characters() {
    assert_eq!(split_path("a b/c\\d/[e].xml"), vec!["a b", "c\\d", "[e].xml"]);
    assert_eq!(split_path(" / "), vec![" ", " "]);
}

#[test]
fn split_counts_characters_not_bytes() {
    assert_eq!(split_path("å/ß.xml"), vec!["å", "ß.xml"]);
    assert_eq!(split_path("日本語/テスト/"), vec!["日本語", "テスト"]);
    assert_eq!(split_path("/😀/a"), vec!["😀", "a"]);
}

#[test]
fn split_then_join_gives_the_path() {
    for entry in ["/a", "/a/b", "/doc/slide1.xml", "/å/日本語"] {
        let joined: String = split_path(entry).iter().map(|s| format!("/{}", s)).collect();
        assert_eq!(joined, entry);
    }
}

#[test]
fn entry_name_drops_leading_separators() {
    assert_eq!(entry_name("/doc/slide1.xml"), "doc/slide1.xml");
    assert_eq!(entry_name("///a/b"), "a/b");
    assert_eq!(entry_name("/å/日本語"), "å/日本語");
}

#[test]
fn entry_name_keeps_the_rest() {
    assert_eq!(entry_name("a/b"), "a/b");
    assert_eq!(entry_name("a//b/"), "a//b/");
    assert_eq!(entry_name("/a/"), "a/");
    assert_eq!(entry_name(" /a"), " /a");
}

#[test]
fn entry_name_of_nothing() {
    assert_eq!(entry_name(""), "");
    assert_eq!(entry_name("/"), "");
    assert_eq!(entry_name("//"), "");
}

#[test]
fn path_segments_are_told() {
    assert!(is_path_segment("a"));
    assert!(is_path_segment("slide1.xml"));
    assert!(is_path_segment("日本語"));
    assert!(is_path_segment(" "));
    assert!(!is_path_segment(""));
    assert!(!is_path_segment("/"));
    assert!(!is_path_segment("a/b"));
    assert!(!is_path_segment("a/"));
    assert!(!is_path_segment("/a"));
}
