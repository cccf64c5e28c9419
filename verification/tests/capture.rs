use cairn::capture::{enrich_saved_bookmark, plan_capture, CapturePlan};
use cairn::model::Bookmark;
use cairn::urls::UrlError;

fn bookmark(url: &str) -> Bookmark {
    Bookmark {
        url: url.to_string(),
        title: "Synthetic bookmark".to_string(),
        description: None,
        authors: vec![],
        site: Some("example.com".to_string()),
        year: None,
        tags: vec![],
        added: Some("2026-01-01".to_string()),
        files: vec![],
        preview: None,
    }
}

/// Captures `input` into a library whose saved bookmarks are `saved`: a new
/// bookmark is saved under `new_dir`, an existing one is returned as it is.
/// Returns the bookmark's directory and whether one was created.
fn capture(input: &str, saved: &mut Vec<(String, String)>, new_dir: &str) -> (String, bool) {
    match plan_capture(input, saved, "2026-01-01").unwrap() {
        CapturePlan::Create(b) => {
            saved.push((new_dir.to_string(), b.url));
            (new_dir.to_string(), true)
        }
        CapturePlan::Existing(dir) => (dir, false),
    }
}

#[test]
fn capture_returns_existing_canonical_duplicate() {
    let mut saved: Vec<(String, String)> = Vec::new();
    let (first_dir, first_created) =
        capture("https://www.example.com/article/", &mut saved, "/library/example-article");
    assert!(first_created, "expected a new bookmark");

    let (second_dir, second_created) = capture(
        "http://example.com/article?utm_source=newsletter",
        &mut saved,
        "/library/example-article-2",
    );
    assert!(!second_created, "expected an existing bookmark");

    assert_eq!(first_dir, second_dir);
    // No second bookmark directory was made.
    assert_eq!(saved.len(), 1);
}

#[test]
fn plan_builds_the_placeholder_bookmark() {
    let plan = plan_capture("  https://Example.com/a  ", &Vec::new(), "2026-05-22").unwrap();
    match plan {
        CapturePlan::Create(b) => {
            assert_eq!(b.url, "https://example.com/a");
            assert_eq!(b.title, "https://example.com/a");
            assert_eq!(b.site, Some("example.com".to_string()));
            assert_eq!(b.added, Some("2026-05-22".to_string()));
            assert!(b.description.is_none() && b.year.is_none());
            assert!(b.authors.is_empty() && b.tags.is_empty() && b.files.is_empty());
        }
        CapturePlan::Existing(_) => panic!("expected a new bookmark"),
    }
}

#[test]
fn plan_rejects_bad_input() {
    assert!(matches!(plan_capture("not a url", &Vec::new(), "d"), Err(UrlError::Invalid)));
    assert!(matches!(plan_capture("file:///x", &Vec::new(), "d"), Err(UrlError::NotWeb)));
}

#[test]
fn enrichment_fills_only_missing_fields() {
    let mut current = bookmark("https://example.com/a");
    current.title = current.url.clone();
    current.tags = vec!["rust".to_string()];
    let fetched = Bookmark {
        url: "https://example.com/other".to_string(),
        title: "Fetched title".to_string(),
        description: Some("About it".to_string()),
        authors: vec!["Jane Doe".to_string()],
        site: Some("Other".to_string()),
        year: Some(2024),
        tags: vec!["ignored".to_string()],
        added: Some("1999-01-01".to_string()),
        files: vec!["x".to_string()],
        preview: Some("p.png".to_string()),
    };
    let merged = enrich_saved_bookmark(&current, &fetched);
    assert_eq!(merged.url, "https://example.com/a");
    assert_eq!(merged.title, "Fetched title");
    assert_eq!(merged.description, Some("About it".to_string()));
    assert_eq!(merged.authors, vec!["Jane Doe".to_string()]);
    assert_eq!(merged.site, Some("example.com".to_string()));
    assert_eq!(merged.year, Some(2024));
    assert_eq!(merged.tags, vec!["rust".to_string()]);
    assert_eq!(merged.added, Some("2026-01-01".to_string()));
    assert!(merged.files.is_empty());
    assert_eq!(merged.preview, None);

    let again = enrich_saved_bookmark(&merged, &fetched);
    assert_eq!(again.title, merged.title);
    assert_eq!(again.description, merged.description);
    assert_eq!(again.authors, merged.authors);
    assert_eq!(again.site, merged.site);
    assert_eq!(again.year, merged.year);
}

#[test]
fn capturing_the_same_input_twice_finds_the_first() {
    let mut saved = vec![("/lib/other".to_string(), "https://other.org/".to_string())];
    let input = "https://example.com/a?utm_source=x&b=1";
    let url = match plan_capture(input, &saved, "2026-01-01").unwrap() {
        CapturePlan::Create(b) => b.url,
        CapturePlan::Existing(_) => panic!("expected a new bookmark"),
    };
    saved.push(("/lib/example-a".to_string(), url));
    match plan_capture(input, &saved, "2026-01-02").unwrap() {
        CapturePlan::Existing(dir) => assert_eq!(dir, "/lib/example-a"),
        CapturePlan::Create(_) => panic!("expected an existing bookmark"),
    }
}
