use cairn::dedup::{
    best_entry, cancel_message, canonicalize_url, done_message, entries_to_trash, find_duplicate_groups,
    metadata_score, DedupEntry,
};
use cairn::keys::{dedup_action, dedup_move, DedupAction, Key, Mods};
use cairn::model::Bookmark;

fn bookmark(url: &str, title: &str) -> Bookmark {
    Bookmark {
        url: url.to_string(),
        title: title.to_string(),
        description: None,
        authors: vec![],
        site: None,
        year: None,
        tags: vec![],
        added: None,
        files: vec![],
        preview: None,
    }
}

const NONE: Mods = Mods { shift: false, control: false, alt: false, other: false };
const CTRL: Mods = Mods { shift: false, control: true, alt: false, other: false };

#[test]
fn urls_are_reduced_for_comparison() {
    assert_eq!(canonicalize_url("  HTTPS://www.Example.com/Path/// "), "example.com/path");
    assert_eq!(canonicalize_url("http://example.com"), "example.com");
    assert_eq!(canonicalize_url("ftp://www.x.org/"), "ftp://www.x.org");
    assert_eq!(canonicalize_url(""), "");
}

#[test]
fn groups_by_url_then_by_title() {
    let infos = vec![
        Some(bookmark("https://www.example.com/a/", "First")),
        Some(bookmark("https://other.org/x", "Shared Title")),
        None,
        Some(bookmark("http://example.com/a", "Different")),
        Some(bookmark("https://third.net/", "  shared title ")),
        Some(bookmark("", "Lonely")),
        Some(bookmark("https://example.com/a", "Shared title")),
    ];
    let groups = find_duplicate_groups(&infos);
    assert_eq!(groups, vec![vec![0, 3, 6], vec![1, 4]]);
}

#[test]
fn no_groups_without_duplicates() {
    let infos = vec![
        Some(bookmark("https://a.com", "A")),
        Some(bookmark("https://b.com", "B")),
        None,
    ];
    assert!(find_duplicate_groups(&infos).is_empty());
    assert!(find_duplicate_groups(&Vec::new()).is_empty());
}

#[test]
fn scores_count_present_fields() {
    let mut b = bookmark("https://a.com", "A");
    assert_eq!(metadata_score(&b), 2);
    b.description = Some("d".into());
    b.authors = vec!["x".into()];
    b.site = Some("s".into());
    b.year = Some(2020);
    b.tags = vec!["t".into()];
    b.added = Some("2020-01-01".into());
    assert_eq!(metadata_score(&b), 8);
    assert_eq!(metadata_score(&bookmark("", "")), 0);
}

#[test]
fn best_entry_is_the_last_highest_score() {
    assert_eq!(best_entry(&vec![3, 5, 2, 5, 1]), Some(3));
    assert_eq!(best_entry(&vec![1]), Some(0));
    assert_eq!(best_entry(&Vec::new()), None);
}

#[test]
fn unreadable_entries_are_unknown() {
    let e = DedupEntry::from_read("/lib/a".into(), "a".into(), None);
    assert_eq!(e.bookmark.title, "Unknown");
    assert_eq!(e.score, 1);
    let e = DedupEntry::from_read("/lib/b".into(), "b".into(), Some(bookmark("u", "t")));
    assert_eq!(e.dir_name, "b");
    assert_eq!(e.score, 2);
}

#[test]
fn dedup_keys() {
    assert_eq!(dedup_action(Key::Char('q'), NONE), DedupAction::Cancel);
    assert_eq!(dedup_action(Key::Esc, NONE), DedupAction::Cancel);
    assert_eq!(dedup_action(Key::Char('c'), CTRL), DedupAction::Cancel);
    assert_eq!(dedup_action(Key::Char('c'), NONE), DedupAction::Nothing);
    assert_eq!(dedup_action(Key::Char('s'), NONE), DedupAction::Skip);
    assert_eq!(dedup_action(Key::Char('k'), NONE), DedupAction::Up);
    assert_eq!(dedup_action(Key::Down, NONE), DedupAction::Down);
    assert_eq!(dedup_action(Key::Enter, NONE), DedupAction::Keep);
    assert_eq!(dedup_move(0, 3, true), 0);
    assert_eq!(dedup_move(2, 3, false), 2);
    assert_eq!(dedup_move(1, 3, false), 2);
}

#[test]
fn dedup_messages() {
    assert_eq!(cancel_message(0), "Dedup cancelled");
    assert_eq!(cancel_message(2), "Dedup: removed 2");
    assert_eq!(done_message(0), "Dedup: no changes");
    assert_eq!(done_message(12), "Dedup: removed 12 (run reindex)");
}

#[test]
fn keeping_one_entry_trashes_the_others_in_order() {
    assert_eq!(entries_to_trash(4, 1), vec![0, 2, 3]);
    assert_eq!(entries_to_trash(3, 0), vec![1, 2]);
    assert_eq!(entries_to_trash(2, 1), vec![0]);
    assert_eq!(entries_to_trash(0, 0), Vec::<usize>::new());
}

#[test]
fn canonicalize_lowercases_ascii_urls() {
    assert_eq!(canonicalize_url(" HTTPS://www.Example.com/Path/ "), "example.com/path");
    assert_eq!(canonicalize_url("http://WWW.A.B//"), "a.b");
}
