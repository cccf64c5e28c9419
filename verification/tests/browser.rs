use cairn::filtering::{filter_entries, theme_names};
use cairn::listing::{make_entry, Entry};
use cairn::model::Bookmark;
use cairn::tui::{LayoutMode, ResolvedLayout, SortMode, TagPopup, ThemePopup};

fn entry(title: &str, site: Option<&str>, added: Option<&str>, year: Option<u16>, tags: &[&str]) -> Entry {
    let b = Bookmark {
        url: format!("https://{}.example/", title.to_lowercase()),
        title: title.to_string(),
        description: None,
        authors: vec![],
        site: site.map(|s| s.to_string()),
        year,
        tags: tags.iter().map(|t| t.to_string()).collect(),
        added: added.map(|s| s.to_string()),
        files: vec![],
        preview: None,
    };
    make_entry(format!("/lib/{}", title), title.to_string(), b)
}

fn library() -> Vec<Entry> {
    vec![
        entry("Zebra", Some("b.org"), Some("2024-01-01"), Some(2020), &["animals"]),
        entry("apple", Some("A.com"), Some("2025-06-01"), None, &["food"]),
        entry("Mango", None, None, Some(2023), &["food", "fruit"]),
    ]
}

#[test]
fn sort_modes_order_the_list() {
    let es = library();
    assert_eq!(filter_entries(&es, &None, "", SortMode::Added), vec![1, 0, 2]);
    assert_eq!(filter_entries(&es, &None, "", SortMode::Site), vec![2, 1, 0]);
    assert_eq!(filter_entries(&es, &None, "", SortMode::Title), vec![1, 2, 0]);
    assert_eq!(filter_entries(&es, &None, "", SortMode::Year), vec![2, 0, 1]);
}

#[test]
fn tag_filter_keeps_tagged_entries() {
    let es = library();
    assert_eq!(filter_entries(&es, &Some("food".to_string()), "", SortMode::Title), vec![1, 2]);
    assert!(filter_entries(&es, &Some("none".to_string()), "", SortMode::Title).is_empty());
}

#[test]
fn search_text_keeps_matches() {
    let es = library();
    assert_eq!(filter_entries(&es, &None, "zebra", SortMode::Added), vec![0]);
    assert!(filter_entries(&es, &None, "qqqqxx", SortMode::Added).is_empty());
    assert_eq!(filter_entries(&es, &Some("animals".to_string()), "mango", SortMode::Added), Vec::<usize>::new());
}

#[test]
fn sort_mode_cycles_through_four_orders() {
    assert_eq!(SortMode::Added.next(), SortMode::Site);
    assert_eq!(SortMode::Year.next(), SortMode::Added);
    assert_eq!(SortMode::Added.next().next().next().next(), SortMode::Added);
    assert_eq!(SortMode::Title.label(), "title");
}

#[test]
fn layout_modes() {
    assert_eq!(LayoutMode::from_config(Some("wide")), LayoutMode::Wide);
    assert_eq!(LayoutMode::from_config(Some("tall")), LayoutMode::Tall);
    assert_eq!(LayoutMode::from_config(Some("other")), LayoutMode::Auto);
    assert_eq!(LayoutMode::from_config(None), LayoutMode::Auto);
    assert_eq!(LayoutMode::Auto.resolve(200, 50), ResolvedLayout::Wide);
    assert_eq!(LayoutMode::Auto.resolve(99, 50), ResolvedLayout::Tall);
    assert_eq!(LayoutMode::Wide.resolve(10, 50), ResolvedLayout::Wide);
}

#[test]
fn theme_picker_lists_toml_stems_sorted() {
    let files = vec![
        "tokyo.toml".to_string(),
        "README".to_string(),
        "catppuccin.toml".to_string(),
        "a.toml.bak".to_string(),
    ];
    let names = theme_names(&files);
    assert_eq!(names, vec!["catppuccin".to_string(), "tokyo".to_string()]);
    let mut popup = ThemePopup::with_names(names);
    assert_eq!(popup.selected_name().map(|s| s.as_str()), Some("catppuccin"));
    popup.move_down();
    popup.move_down();
    assert_eq!(popup.selected_name().map(|s| s.as_str()), Some("tokyo"));
    popup.move_up();
    assert_eq!(popup.selected, 0);
}

#[test]
fn tag_picker_counts_and_filters() {
    let all = vec!["food".to_string(), "fruit".to_string(), "rust".to_string()];
    let entry_tags = vec![
        vec!["food".to_string()],
        vec!["food".to_string(), "fruit".to_string()],
        vec![],
    ];
    let mut popup = TagPopup::new(&all, &entry_tags, &Some("rust".to_string()));
    assert_eq!(popup.filtered_tags.len(), 4);
    assert_eq!(popup.selected_as_filter(), None);
    assert_eq!(popup.count_for("food"), 2);
    assert_eq!(popup.count_for("rust"), 0);
    assert_eq!(popup.total, 3);
    popup.move_down();
    assert_eq!(popup.selected_as_filter(), Some("food".to_string()));
    popup.filter = "fr".to_string();
    popup.rebuild(&all);
    assert_eq!(popup.filtered_tags, vec!["fruit".to_string()]);
    assert_eq!(popup.selected, 0);
    popup.page_down();
    assert_eq!(popup.selected_tag().map(|s| s.as_str()), Some("fruit"));
    popup.page_up();
    assert_eq!(popup.selected, 0);
    assert_eq!(popup.prev_tag_filter, Some("rust".to_string()));
}

#[test]
fn tag_picker_scrolls_to_the_selection() {
    let all: Vec<String> = (0..30).map(|i| format!("t{:02}", i)).collect();
    let mut popup = TagPopup::new(&all, &Vec::new(), &None);
    popup.page_down();
    popup.clamp_scroll(10);
    assert_eq!(popup.selected, 20);
    assert_eq!(popup.scroll, 11);
    popup.page_up();
    popup.clamp_scroll(10);
    assert_eq!(popup.scroll, 0);
}
