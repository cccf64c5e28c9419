use cairn::model::Bookmark;
use cairn::storage::{
    available_name, bookmark_dir, find_bookmark_by_url, make_dir_name, strip_site, trash_name,
    validate_slug, SlugError, TrashError,
};

fn bookmark(url: &str) -> Bookmark {
    Bookmark {
        url: url.to_string(),
        title: "Synthetic bookmark".to_string(),
        description: None,
        authors: vec![],
        site: Some("example.com".to_string()),
        year: None,
        tags: vec![],
        added: Some("2026-01-01".to_string()),
        files: vec![],
        preview: None,
    }
}

#[test]
fn restore_rejects_path_traversal() {
    assert!(bookmark_dir("/library/.trash", "../outside").is_err());
    assert!(bookmark_dir("/library/.trash", "/").is_err());
}

#[test]
fn placeholder_title_uses_url_path_for_directory_name() {
    let mut bookmark = bookmark("https://example.com/articles/synthetic-cairn");
    bookmark.title = bookmark.url.clone();
    assert_eq!(make_dir_name(&bookmark), "example-synthetic-cairn");
}

#[test]
fn directory_name_from_site_and_title() {
    assert_eq!(make_dir_name(&bookmark("https://example.com")), "example-synthetic-bookmark");
    let mut b = bookmark("https://example.com/");
    b.site = None;
    b.title = b.url.clone();
    assert_eq!(make_dir_name(&b), "site-home");
    let mut c = bookmark("https://example.com/x");
    c.title = "!!!".to_string();
    assert_eq!(make_dir_name(&c), "example-untitled");
}

#[test]
fn collision_suffixes() {
    let taken = vec!["a".to_string(), "a-2".to_string(), "b".to_string()];
    assert_eq!(available_name("a", &taken), "a-3");
    assert_eq!(available_name("b", &taken), "b-2");
    assert_eq!(available_name("c", &taken), "c");
}

#[test]
fn slugs_must_be_single_names() {
    assert_eq!(validate_slug("example-com-attention"), Ok(()));
    assert_eq!(validate_slug("name/"), Ok(()));
    assert_eq!(validate_slug("a/b"), Err(SlugError::NotSingleName));
    assert_eq!(validate_slug(".."), Err(SlugError::NotSingleName));
    assert_eq!(validate_slug(""), Err(SlugError::NotSingleName));
    assert_eq!(bookmark_dir("/lib", "x"), Ok("/lib/x".to_string()));
}

#[test]
fn sites_are_shortened() {
    assert_eq!(strip_site(" www.example.com "), "example");
    assert_eq!(strip_site("localhost"), "localhost");
}

#[test]
fn trash_names() {
    assert_eq!(trash_name("/lib", "/lib/a"), Ok("a".to_string()));
    assert_eq!(trash_name("/lib/", "/lib//a/"), Ok("a".to_string()));
    assert_eq!(trash_name("/lib", "/other/a"), Err(TrashError::NotInLibrary));
    assert_eq!(trash_name("/lib", "/lib/a/b"), Err(TrashError::NotInLibrary));
    assert_eq!(trash_name("/lib", "/"), Err(TrashError::NotInLibrary));
    assert_eq!(trash_name("/lib", "/lib/.."), Err(TrashError::NoName));
}

#[test]
fn finds_saved_url_by_canonical_key() {
    let entries = vec![
        ("/lib/a".to_string(), "https://other.org/".to_string()),
        ("/lib/b".to_string(), "https://example.com/page".to_string()),
        ("/lib/c".to_string(), "https://example.com/page/".to_string()),
    ];
    assert_eq!(
        find_bookmark_by_url(&entries, "http://www.example.com/page?utm_campaign=x"),
        Some("/lib/b".to_string())
    );
    assert_eq!(find_bookmark_by_url(&entries, "https://example.com/else"), None);
    assert_eq!(find_bookmark_by_url(&entries, "not a url"), None);
}

#[test]
fn edit_scratch_names() {
    assert_eq!(cairn::paths::edit_file_name("notes/today.md"), "tome_notes_today.md");
    assert_eq!(cairn::paths::edit_file_name("plain"), "tome_plain");
}

#[test]
fn trash_takes_a_bookmark_dir_under_its_slug() {
    for library in ["/lib", "/lib/", "", "/"] {
        let dir = bookmark_dir(library, "example-com-a").unwrap();
        assert_eq!(trash_name(library, &dir), Ok("example-com-a".to_string()));
    }
}

#[test]
fn slug_dashes_are_single() {
    let mut b = bookmark("https://example.com");
    b.title = "--Hello  __ World--!!".to_string();
    let name = make_dir_name(&b);
    assert_eq!(name, "example-hello-world");
    assert!(!name.contains("--") && !name.starts_with('-') && !name.ends_with('-'));
}
