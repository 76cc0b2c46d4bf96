use envy::index::Envy;
use envy::notes::{File, PaperMeta};

fn citation(year: &str) -> String {
    format!("@article{{a2020,author={{Zhai, Junhai}},year={{{year}}},title={{Autoencoders}}}}")
}

fn paper(path: &str, modified: u64, year: &str) -> File {
    let meta = PaperMeta::from_header(None, &citation(year), "./doc/a.pdf".to_string()).unwrap();
    File::load(path.to_string(), modified, format!("# note {year}"), Some(meta))
}

fn plain(path: &str, modified: u64) -> File {
    File::load(path.to_string(), modified, "some words here".to_string(), None)
}

fn year_of(envy: &Envy, group: &str, path: &str) -> Option<String> {
    envy.lookup(group, path).map(|f| f.meta.as_ref().unwrap().bibtex.year.clone())
}

#[test]
fn build_modify_and_rename() {
    let mut envy = Envy::build_database("/root", vec![paper("/root/papers/a.md", 10, "2020")]);
    assert_eq!(year_of(&envy, "papers", "/root/papers/a.md"), Some("2020".to_string()));

    envy.update_file(paper("/root/papers/a.md", 20, "2021"));
    assert_eq!(year_of(&envy, "papers", "/root/papers/a.md"), Some("2021".to_string()));

    envy.move_file("/root/papers/a.md", paper("/root/other/a.md", 30, "2021"));
    assert!(envy.lookup("papers", "/root/papers/a.md").is_none());
    assert_eq!(year_of(&envy, "other", "/root/other/a.md"), Some("2021".to_string()));
}

#[test]
fn older_or_equal_never_overwrites() {
    let mut envy = Envy::new("/root");
    envy.upsert_or_refresh(paper("/root/papers/a.md", 20, "2021"));
    envy.upsert_or_refresh(paper("/root/papers/a.md", 10, "2019"));
    assert_eq!(year_of(&envy, "papers", "/root/papers/a.md"), Some("2021".to_string()));
    envy.upsert_or_refresh(paper("/root/papers/a.md", 20, "2018"));
    assert_eq!(year_of(&envy, "papers", "/root/papers/a.md"), Some("2021".to_string()));
    envy.upsert_or_refresh(paper("/root/papers/a.md", 21, "2022"));
    assert_eq!(year_of(&envy, "papers", "/root/papers/a.md"), Some("2022".to_string()));
}

#[test]
fn build_keeps_newest_copy() {
    let envy = Envy::build_database(
        "/root",
        vec![paper("/root/papers/a.md", 20, "2021"), paper("/root/papers/a.md", 5, "2000")],
    );
    assert_eq!(year_of(&envy, "papers", "/root/papers/a.md"), Some("2021".to_string()));
}

#[test]
fn notes_directly_under_root_are_in_root_group() {
    let envy = Envy::build_database("/root", vec![plain("/root/top.md", 1)]);
    assert!(envy.lookup("Root", "/root/top.md").is_some());
    assert!(envy.lookup("top.md", "/root/top.md").is_none());
}

#[test]
fn notes_outside_root_are_not_taken() {
    let envy = Envy::build_database("/root", vec![plain("/elsewhere/x.md", 1)]);
    assert!(envy.lookup("Root", "/elsewhere/x.md").is_none());
    assert_eq!(envy.query_any("x"), Some(vec![]));
}

#[test]
fn lookup_in_wrong_group_misses() {
    let envy = Envy::build_database("/root", vec![paper("/root/papers/a.md", 1, "2020")]);
    assert!(envy.lookup("other", "/root/papers/a.md").is_none());
}

#[test]
fn remove_forgets_note() {
    let mut envy = Envy::build_database("/root", vec![plain("/root/a/x.md", 1)]);
    envy.remove("b", "/root/a/x.md");
    assert!(envy.lookup("a", "/root/a/x.md").is_some());
    envy.remove("a", "/root/a/x.md");
    assert!(envy.lookup("a", "/root/a/x.md").is_none());
}

#[test]
fn update_of_untracked_file_is_ignored() {
    let mut envy = Envy::new("/root");
    envy.update_file(plain("/root/a/x.md", 1));
    assert!(envy.lookup("a", "/root/a/x.md").is_none());
}

#[test]
fn rename_of_non_note_is_ignored() {
    let mut envy = Envy::build_database("/root", vec![plain("/root/a/x.md", 1)]);
    envy.move_file("/root/a/x.txt", plain("/root/b/y.md", 2));
    assert!(envy.lookup("b", "/root/b/y.md").is_none());
    assert!(envy.lookup("a", "/root/a/x.md").is_some());
}

#[test]
fn empty_query_is_no_search() {
    let envy = Envy::build_database("/root", vec![paper("/root/papers/a.md", 1, "2018")]);
    assert_eq!(envy.query_any(""), None);
}

#[test]
fn year_match_scores_five() {
    let envy = Envy::build_database("/root", vec![paper("/root/papers/a.md", 1, "2018")]);
    let hits = envy.query_any("2018").unwrap();
    assert_eq!(hits.len(), 1);
    assert!(hits[0].0 >= 5);
    assert_eq!(hits[0].0, 5);
}

#[test]
fn case_sensitive_author_match() {
    let note = paper("/root/papers/a.md", 1, "2018");
    assert_eq!(note.matches_any("Zhai", "/root"), 2);
    assert_eq!(note.matches_any("ZHAI", "/root"), 0);
    assert_eq!(note.matches_any("zhai", "/root"), 2);
}

#[test]
fn score_terms_add_up() {
    let note = paper("/root/papers/a2020.md", 1, "2020");
    // key "a2020" +1, year +5, path "papers/a2020.md" +3
    assert_eq!(note.matches_any("2020", "/root"), 9);
    // title "Autoencoders" lowercased contains "auto" +2
    assert_eq!(note.matches_any("auto", "/root"), 2);
    // path only
    assert_eq!(note.matches_any("papers", "/root"), 3);
    assert_eq!(plain("/root/misc/a.md", 1).matches_any("misc", "/root"), 3);
    assert_eq!(plain("/root/misc/a.md", 1).matches_any("zzz", "/root"), 0);
}

#[test]
fn results_ascend_by_score() {
    let envy = Envy::build_database(
        "/root",
        vec![
            paper("/root/papers/2020.md", 1, "2020"),
            plain("/root/notes/x2020.md", 1),
            plain("/root/notes/y.md", 1),
        ],
    );
    let hits = envy.query_any("2020").unwrap();
    let scores: Vec<u32> = hits.iter().map(|h| h.0).collect();
    assert_eq!(scores, vec![3, 9]);
    assert_eq!(hits[0].1, "<li><a href='/notes/x2020.md'>notes/x2020.md</a></li>\n");
}

#[test]
fn listing_orders_by_group_then_path() {
    let envy = Envy::build_database(
        "/root",
        vec![plain("/root/b/z.md", 1), plain("/root/a/y.md", 1), plain("/root/b/c.md", 1), plain("/root/top.md", 1)],
    );
    let rows: Vec<(String, String)> = envy.listing().into_iter().map(|(g, p, _)| (g, p)).collect();
    assert_eq!(
        rows,
        vec![
            ("Root".to_string(), "/root/top.md".to_string()),
            ("a".to_string(), "/root/a/y.md".to_string()),
            ("b".to_string(), "/root/b/c.md".to_string()),
            ("b".to_string(), "/root/b/z.md".to_string()),
        ]
    );
    assert_eq!(envy.listing()[0].2, "<li><a href='/top.md'>top.md</a></li>\n");
}

#[test]
fn lowercase_query_folds_year_and_path() {
    assert_eq!(plain("/root/Misc/A.md", 1).matches_any("misc", "/root"), 3);
    assert_eq!(plain("/root/Misc/A.md", 1).matches_any("Misc", "/root"), 3);
    assert_eq!(plain("/root/Misc/A.md", 1).matches_any("MISC", "/root"), 0);
    assert_eq!(paper("/root/p/n.md", 1, "XX").matches_any("xx", "/root"), 5);
    assert_eq!(paper("/root/p/n.md", 1, "xx").matches_any("XX", "/root"), 0);
}

#[test]
fn only_markdown_notes_are_stored() {
    let mut envy = Envy::build_database(
        "/root",
        vec![plain("/root/a/x.txt", 1), plain("/root/a/y.md", 1)],
    );
    assert!(envy.lookup("a", "/root/a/x.txt").is_none());
    assert!(envy.lookup("a", "/root/a/y.md").is_some());
    envy.upsert_or_refresh(plain("/root/a/z.pdf", 1));
    assert!(envy.lookup("a", "/root/a/z.pdf").is_none());
    envy.move_file("/root/a/y.md", plain("/root/a/y.txt", 2));
    assert!(envy.lookup("a", "/root/a/y.md").is_none());
    assert!(envy.lookup("a", "/root/a/y.txt").is_none());
}
