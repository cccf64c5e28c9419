use cairn::index::index_row;
use cairn::model::Bookmark;
use cairn::sorting::{sort_indices, SortKey};
use cairn::text::{chars_of, decimal_vec, less_vec};
use cairn::text_split::{join_strings, lines_vec, split_vec};

fn text(s: &str) -> SortKey {
    SortKey::Text(chars_of(s))
}

#[test]
fn stable_sort_by_keys() {
    let keys = vec![text("b"), text("a"), text("b"), text("a")];
    assert_eq!(sort_indices(&keys, false, &vec![0, 1, 2, 3]), vec![1, 3, 0, 2]);
    assert_eq!(sort_indices(&keys, true, &vec![0, 1, 2, 3]), vec![0, 2, 1, 3]);
    let nums = vec![SortKey::Number(3), SortKey::Number(1), SortKey::Number(2)];
    assert_eq!(sort_indices(&nums, false, &vec![2, 0, 1]), vec![1, 2, 0]);
    let pairs = vec![
        SortKey::Pair(chars_of("a"), chars_of("2")),
        SortKey::Pair(chars_of("a"), chars_of("1")),
    ];
    assert_eq!(sort_indices(&pairs, false, &vec![0, 1]), vec![1, 0]);
}

#[test]
fn text_helpers() {
    assert!(less_vec(&chars_of("abc"), &chars_of("abd")));
    assert!(less_vec(&chars_of("ab"), &chars_of("abc")));
    assert!(!less_vec(&chars_of("b"), &chars_of("abc")));
    assert_eq!(decimal_vec(0), chars_of("0"));
    assert_eq!(decimal_vec(2026), chars_of("2026"));
    let parts = split_vec(&chars_of("a||b|"), &chars_of("|"));
    assert_eq!(parts, vec![chars_of("a"), chars_of(""), chars_of("b"), chars_of("")]);
    let ls = lines_vec(&chars_of("one\r\ntwo\n"));
    assert_eq!(ls, vec![chars_of("one"), chars_of("two")]);
    assert_eq!(join_strings(&vec!["x".to_string(), "y".to_string()], ", "), "x, y");
}

#[test]
fn index_rows_join_lists() {
    let b = Bookmark {
        url: "https://e.com".to_string(),
        title: "T".to_string(),
        description: Some("D".to_string()),
        authors: vec!["A".to_string(), "B".to_string()],
        site: None,
        year: Some(2020),
        tags: vec!["x".to_string(), "y".to_string()],
        added: None,
        files: vec![],
        preview: None,
    };
    let row = index_row("e-com-t", &b);
    assert_eq!(row.dir_name, "e-com-t");
    assert_eq!(row.authors, "A; B");
    assert_eq!(row.tags, "x, y");
    assert_eq!(row.files, "");
    assert_eq!(row.year, Some(2020));
}
