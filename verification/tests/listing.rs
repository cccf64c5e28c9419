use cairn::listing::{
    add_message, all_tags, entry_display, is_importable, make_entry, markdown_link, needs_enrich,
    truncate_ellipsis, truncate_str, Entry, ListCursor,
};
use cairn::model::Bookmark;

fn bookmark(url: &str, title: &str, site: Option<&str>, tags: &[&str]) -> Bookmark {
    Bookmark {
        url: url.to_string(),
        title: title.to_string(),
        description: None,
        authors: vec![],
        site: site.map(|s| s.to_string()),
        year: None,
        tags: tags.iter().map(|t| t.to_string()).collect(),
        added: None,
        files: vec![],
        preview: None,
    }
}

fn entry(b: Bookmark) -> Entry {
    make_entry("/lib/x".to_string(), "x".to_string(), b)
}

#[test]
fn cursor_moves_within_the_list() {
    let mut c = ListCursor::reset(3, 10);
    assert_eq!(c.selected, Some(0));
    c.move_up();
    assert_eq!(c.selected, Some(0));
    c.move_down();
    c.move_down();
    c.move_down();
    assert_eq!(c.selected, Some(2));
    c.preview_scroll = 7;
    c.move_to_top();
    assert_eq!(c.selected, Some(0));
    assert_eq!(c.preview_scroll, 0);
    c.move_to_bottom();
    assert_eq!(c.selected, Some(2));
}

#[test]
fn cursor_pages_by_the_list_height() {
    let mut c = ListCursor::reset(100, 20);
    c.page_down();
    assert_eq!(c.selected, Some(20));
    c.half_page_down();
    assert_eq!(c.selected, Some(30));
    c.half_page_up();
    assert_eq!(c.selected, Some(20));
    c.page_up();
    c.page_up();
    assert_eq!(c.selected, Some(0));
    c.scroll_down(1000);
    assert_eq!(c.selected, Some(99));
}

#[test]
fn empty_list_has_no_selection() {
    let mut c = ListCursor::reset(0, 20);
    assert_eq!(c.selected, None);
    c.move_down();
    c.page_down();
    c.move_to_bottom();
    assert_eq!(c.selected, None);
}

#[test]
fn jump_selects_the_row_of_an_entry() {
    let mut c = ListCursor::reset(3, 10);
    c.jump_to_entry(&vec![5, 2, 9], 9);
    assert_eq!(c.selected, Some(2));
    c.jump_to_entry(&vec![5, 2, 9], 4);
    assert_eq!(c.selected, Some(2));
}

#[test]
fn display_text_joins_present_parts() {
    let b = bookmark("https://e.com", "Title", Some("e.com"), &[]);
    assert_eq!(entry_display(&b), "e.com  Title  https://e.com");
    let b = bookmark("https://e.com", "", None, &[]);
    assert_eq!(entry_display(&b), "https://e.com");
    assert_eq!(entry(bookmark("u", "t", None, &[])).display, "t  u");
}

#[test]
fn enrichment_is_needed_for_incomplete_metadata() {
    let mut b = bookmark("https://e.com", "https://e.com", Some("e"), &[]);
    b.description = Some("d".to_string());
    b.year = Some(2020);
    assert!(needs_enrich(&b));
    b.title = "Real".to_string();
    assert!(!needs_enrich(&b));
    b.year = None;
    assert!(needs_enrich(&b));
}

#[test]
fn importable_inputs() {
    assert!(is_importable("  https://example.com "));
    assert!(is_importable("http://x"));
    assert!(!is_importable("   "));
    assert!(!is_importable("rust tui"));
    assert!(!is_importable("ftp://x"));
}

#[test]
fn truncation_respects_char_boundaries() {
    assert_eq!(truncate_str("hello", 10), "hello");
    assert_eq!(truncate_str("hello", 3), "hel");
    assert_eq!(truncate_str("héllo", 2), "h");
    assert_eq!(truncate_ellipsis("hello world", 6), "hello…");
    assert_eq!(truncate_ellipsis("hello", 5), "hello");
    assert_eq!(truncate_ellipsis("hello", 1), "hello");
    assert_eq!(truncate_ellipsis("héllo", 3), "h…");
    let cut = truncate_str("日本語テキスト", 7);
    assert_eq!(cut, "日本");
    assert!(cut.len() <= 7);
}

#[test]
fn markdown_links() {
    let b = bookmark("https://e.com", "Title", None, &[]);
    assert_eq!(markdown_link(&b), Some("[Title](https://e.com)".to_string()));
    let b = bookmark("https://e.com", "", None, &[]);
    assert_eq!(markdown_link(&b), Some("[https://e.com](https://e.com)".to_string()));
    let b = bookmark("", "Title", None, &[]);
    assert_eq!(markdown_link(&b), None);
}

#[test]
fn add_command_messages() {
    assert_eq!(add_message(true, "Added: A Title\n  → /lib/a\n", ""), "Added: A Title");
    assert_eq!(add_message(true, "Already saved: x\n", ""), "Added successfully");
    assert_eq!(add_message(false, "", "warning\nError: bad url\n"), "Error: bad url");
    assert_eq!(add_message(false, "", ""), "Add failed");
}

#[test]
fn tags_are_sorted_and_unique() {
    let entries = vec![
        entry(bookmark("a", "a", None, &["rust", "tui"])),
        entry(bookmark("b", "b", None, &["cli", "rust"])),
        entry(bookmark("c", "c", None, &[])),
    ];
    assert_eq!(
        all_tags(&entries),
        vec!["cli".to_string(), "rust".to_string(), "tui".to_string()]
    );
    assert!(all_tags(&Vec::new()).is_empty());
}
