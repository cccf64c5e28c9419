use cairn::model::Bookmark;
use cairn::validate::{validate, DirRecord, ValidateResult};

fn bookmark(url: &str, title: &str, added: Option<&str>) -> Bookmark {
    Bookmark {
        url: url.to_string(),
        title: title.to_string(),
        description: None,
        authors: vec![],
        site: None,
        year: None,
        tags: vec![],
        added: added.map(|s| s.to_string()),
        files: vec!["page.html".to_string()],
        preview: Some("preview.png".to_string()),
    }
}

fn records() -> Vec<DirRecord> {
    vec![
        DirRecord {
            dir_name: "good".to_string(),
            info: Ok(bookmark("https://a", "A", Some("2026-01-01"))),
            files_exist: vec![true],
            preview_exists: true,
        },
        DirRecord {
            dir_name: "bare".to_string(),
            info: Ok(bookmark("", "", None)),
            files_exist: vec![false],
            preview_exists: false,
        },
        DirRecord {
            dir_name: "broken".to_string(),
            info: Err("expected `=`".to_string()),
            files_exist: vec![],
            preview_exists: false,
        },
    ]
}

#[test]
fn issues_are_reported_in_order() {
    let v = validate(&records(), false, "2026-05-22");
    assert_eq!(v.result.total, 3);
    assert_eq!(v.result.fixed, 0);
    assert_eq!(
        v.result.issues,
        vec![
            "missing url: bare",
            "missing title: bare",
            "missing added date: bare",
            "listed but missing: bare/page.html",
            "preview missing: bare/preview.png",
            "unreadable info.toml: broken: expected `=`",
        ]
    );
    assert!(v.rewrites.is_empty());
    assert_eq!(v.result.summary(), "6 issues found");
}

#[test]
fn fixing_sets_the_added_date() {
    let v = validate(&records(), true, "2026-05-22");
    assert_eq!(v.result.fixed, 1);
    assert_eq!(v.result.issues.len(), 5);
    assert_eq!(v.rewrites.len(), 1);
    assert_eq!(v.rewrites[0].0, 1);
    assert_eq!(v.rewrites[0].1.added, Some("2026-05-22".to_string()));
    assert_eq!(v.result.summary(), "6 issues, fixed 1");

    let mut again = records();
    again[1].info = Ok(v.rewrites[0].1.copy());
    let w = validate(&again, false, "2026-05-23");
    assert_eq!(w.result.issues, v.result.issues);
    assert_eq!(validate(&again, true, "2026-05-23").result.fixed, 0);
}

#[test]
fn summaries() {
    let ok = ValidateResult { total: 4, fixed: 0, issues: vec![] };
    assert_eq!(ok.summary(), "Library OK — 4 bookmarks");
    let fixed = ValidateResult { total: 4, fixed: 2, issues: vec![] };
    assert_eq!(fixed.summary(), "Fixed 2 issues");
}
