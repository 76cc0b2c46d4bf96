use envy::notes::{body_of, front_matter_of, tags_arr, transform_url, File, PaperMeta};
use envy::paths::{file_name_of, get_top_parent, is_note, relative_path};
use envy::sync::{plan_event, FsEvent, SyncAction};
use envy::text::contains;
use envy::tokenizer::{count_words, Lexer};

#[test]
fn grouping_by_first_directory() {
    assert_eq!(get_top_parent("/r", "/r/papers/a.md"), Some("papers".to_string()));
    assert_eq!(get_top_parent("/r", "/r/papers/deep/a.md"), Some("papers".to_string()));
    assert_eq!(get_top_parent("/r/", "/r/papers/a.md"), Some("papers".to_string()));
    assert_eq!(get_top_parent("/r", "/r/a.md"), Some("Root".to_string()));
    assert_eq!(get_top_parent("/r", "/rx/a.md"), None);
    assert_eq!(get_top_parent("/r", "/r/papers/a.md"), get_top_parent("/r", "/r/papers/a.md"));
}

#[test]
fn relative_paths() {
    assert_eq!(relative_path("/r", "/r/a/b.md"), Some("a/b.md".to_string()));
    assert_eq!(relative_path("/r", "/s/a/b.md"), None);
    assert_eq!(file_name_of("/r/a/b.md"), "b.md");
    assert_eq!(file_name_of("b.md"), "b.md");
}

#[test]
fn note_paths() {
    assert!(is_note("/r/a/b.md"));
    assert!(!is_note("/r/a/b.txt"));
    assert!(!is_note("/r/a/.md"));
    assert!(!is_note("/r/a.md/b"));
    assert!(!is_note("/r/a/bmd"));
}

#[test]
fn header_detection() {
    assert_eq!(front_matter_of("---\nbibtex: x\n---\n# t"), Some("bibtex: x\n".to_string()));
    assert_eq!(front_matter_of("---\nbibtex: x\n---"), Some("bibtex: x\n".to_string()));
    assert_eq!(front_matter_of("---\nbibtex: x"), Some("bibtex: x".to_string()));
    assert_eq!(front_matter_of("# t\n---\n"), None);
    assert_eq!(front_matter_of("----\nx\n---\n"), None);
    assert_eq!(front_matter_of("---\na: ----\n---\n"), Some("a: ----\n".to_string()));
}

#[test]
fn tags_in_brackets() {
    assert_eq!(tags_arr(&[]), "[]");
    assert_eq!(tags_arr(&["unread".to_string()]), "[unread]");
    assert_eq!(tags_arr(&["a".to_string(), "b".to_string(), "c".to_string()]), "[a,b,c]");
}

#[test]
fn substring_search() {
    assert!(contains("hello world", "o w"));
    assert!(contains("abc", ""));
    assert!(!contains("abc", "abcd"));
    assert!(!contains("abc", "ac"));
}

#[test]
fn lexer_words() {
    let mut lexer = Lexer::new("  one, two!three");
    assert_eq!(lexer.next_token(), Some("one".to_string()));
    assert_eq!(lexer.next_token(), Some("two".to_string()));
    assert_eq!(lexer.next_token(), Some("three".to_string()));
    assert_eq!(lexer.next_token(), None);
    assert_eq!(count_words("a b  c."), 3);
    assert_eq!(count_words(""), 0);
    assert_eq!(count_words("..."), 0);
}

#[test]
fn index_entries() {
    let meta = PaperMeta::from_header(
        Some(vec!["unread".to_string()]),
        "@article{k,author={Au},year={1999},title={Ti}}",
        "./doc/k.pdf".to_string(),
    )
    .unwrap();
    let note = File::load("/r/papers/k.md".to_string(), 1, String::new(), Some(meta));
    assert_eq!(
        note.write_index_entry("/r", true),
        "<li><strong>Ti</strong><br/>1999 <em>Au</em><br/><a href=\"/papers/k.md\">papers/k.md</a></li>\n"
    );
    let plain = File::load("/r/papers/k.md".to_string(), 1, String::new(), None);
    assert_eq!(plain.write_index_entry("/r", false), "<li><a href='/papers/k.md'>k.md</a></li>\n");
}

#[test]
fn bad_header_citation_fails() {
    assert!(PaperMeta::from_header(None, "not a record", String::new()).is_err());
}

#[test]
fn same_note_means_same_path_and_time() {
    let a = File::load("/r/a.md".to_string(), 1, "x".to_string(), None);
    let b = File::load("/r/a.md".to_string(), 1, "y".to_string(), None);
    let c = File::load("/r/a.md".to_string(), 2, "x".to_string(), None);
    assert!(a == b);
    assert!(a != c);
}

#[test]
fn change_planning() {
    assert!(matches!(plan_event(FsEvent::Modified("/r/a.md".to_string())), SyncAction::Reload(p) if p == "/r/a.md"));
    assert!(matches!(
        plan_event(FsEvent::Renamed("/r/a.md".to_string(), "/r/b/a.md".to_string())),
        SyncAction::Move(f, t) if f == "/r/a.md" && t == "/r/b/a.md"
    ));
    assert!(matches!(
        plan_event(FsEvent::Renamed("/r/a.txt".to_string(), "/r/b/a.md".to_string())),
        SyncAction::Ignore
    ));
    assert!(matches!(plan_event(FsEvent::PartialRename("/r/a.md".to_string())), SyncAction::Ignore));
    assert!(matches!(plan_event(FsEvent::Other), SyncAction::Ignore));
}

#[test]
fn note_body_after_header() {
    assert_eq!(body_of("---\nbibtex: x\n---\n# t"), "# t");
    assert_eq!(body_of("---\nbibtex: x\n---"), "");
    assert_eq!(body_of("# t\nbody"), "# t\nbody");
}

#[test]
fn links_are_served_from_root() {
    assert_eq!(transform_url("papers/a.md"), "/papers/a.md");
    assert_eq!(transform_url("https://example.org"), "https://example.org");
    assert_eq!(transform_url("/abs.md"), "/abs.md");
    assert_eq!(transform_url("#part"), "#part");
}

#[test]
fn header_line_without_break() {
    assert_eq!(front_matter_of("---"), Some(String::new()));
    assert_eq!(body_of("---"), "");
    assert_eq!(front_matter_of("---\n---"), Some(String::new()));
    assert_eq!(front_matter_of("--- \nx"), None);
}

#[test]
fn header_with_crlf_lines() {
    let text = "---\r\nbibtex: x\r\n---\r\n# t";
    assert_eq!(front_matter_of(text), Some("bibtex: x\r\n".to_string()));
    assert_eq!(body_of(text), "# t");
    assert_eq!(front_matter_of("---\r"), None);
}
