use cairn::enrich::{compute_diffs, done_message, finish_message};
use cairn::model::Bookmark;

fn bookmark() -> Bookmark {
    Bookmark {
        url: "https://e.com".to_string(),
        title: "https://e.com".to_string(),
        description: None,
        authors: vec![],
        site: None,
        year: None,
        tags: vec![],
        added: None,
        files: vec![],
        preview: None,
    }
}

fn diff(a: &str, b: &str, c: &str) -> (String, String, String) {
    (a.to_string(), b.to_string(), c.to_string())
}

#[test]
fn diffs_list_changed_fields_in_order() {
    let old = bookmark();
    let mut new = bookmark();
    new.title = "Title".into();
    new.description = Some("About".into());
    new.authors = vec!["A".into(), "B".into()];
    new.site = Some("e.com".into());
    new.year = Some(2021);
    assert_eq!(
        compute_diffs(&old, &new),
        vec![
            diff("title", "https://e.com", "Title"),
            diff("description", "", "About"),
            diff("authors", "", "A, B"),
            diff("site", "", "e.com"),
            diff("year", "", "2021"),
        ]
    );
}

#[test]
fn no_diffs_for_missing_or_equal_values() {
    let mut old = bookmark();
    old.year = Some(1999);
    let mut new = bookmark();
    new.title = String::new();
    new.year = None;
    assert!(compute_diffs(&old, &new).is_empty());
    assert!(compute_diffs(&old, &old).is_empty());
    new.year = Some(2000);
    assert_eq!(compute_diffs(&old, &new), vec![diff("year", "1999", "2000")]);
}

#[test]
fn enrich_messages() {
    assert_eq!(finish_message(0, 0, 5), None);
    assert_eq!(finish_message(2, 1, 3), Some("Enriched 2, skipped 5".to_string()));
    assert_eq!(done_message(4, 0), "Enriched 4, skipped 0");
}
