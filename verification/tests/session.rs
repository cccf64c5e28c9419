use cairn::keys::Action;
use cairn::session::{Followup, Session};
use cairn::tui::{InputMode, SortMode};

#[test]
fn typing_in_search_refilters() {
    let mut s = Session::new(String::new(), SortMode::Added);
    assert_eq!(s.apply(Action::EnterSearch), Followup::Done);
    assert_eq!(s.input_mode, InputMode::Search);
    assert_eq!(s.apply(Action::SearchChar('r')), Followup::Refilter);
    assert_eq!(s.apply(Action::SearchChar('é')), Followup::Refilter);
    assert_eq!(s.filter, "ré");
    assert_eq!(s.apply(Action::SearchBackspace), Followup::Refilter);
    assert_eq!(s.filter, "r");
    assert_eq!(s.apply(Action::SearchBackspace), Followup::Refilter);
    assert_eq!(s.apply(Action::SearchBackspace), Followup::Refilter);
    assert_eq!(s.filter, "");
    assert_eq!(s.apply(Action::LeaveSearch), Followup::Done);
    assert_eq!(s.input_mode, InputMode::Browse);
}

#[test]
fn search_text_moves_to_the_add_bar_and_back() {
    let mut s = Session::new("https://example.com".to_string(), SortMode::Added);
    s.input_mode = InputMode::Search;
    assert_eq!(s.apply(Action::SearchToAdd), Followup::Refilter);
    assert_eq!(s.add_input, Some("https://example.com".to_string()));
    assert_eq!(s.filter, "");
    assert_eq!(s.input_mode, InputMode::Browse);
    assert_eq!(s.apply(Action::AddChar('/')), Followup::Done);
    assert_eq!(s.apply(Action::AddToSearch), Followup::Refilter);
    assert_eq!(s.filter, "https://example.com/");
    assert_eq!(s.add_input, None);
    assert_eq!(s.input_mode, InputMode::Search);
    // With the add bar closed, only the mode changes.
    s.input_mode = InputMode::Browse;
    assert_eq!(s.apply(Action::AddToSearch), Followup::Done);
    assert_eq!(s.filter, "https://example.com/");
    assert_eq!(s.input_mode, InputMode::Search);
}

#[test]
fn add_bar_editing() {
    let mut s = Session::new(String::new(), SortMode::Added);
    assert_eq!(s.apply(Action::AddChar('x')), Followup::Done);
    assert_eq!(s.add_input, None);
    s.apply(Action::StartAdd);
    assert_eq!(s.add_input, Some(String::new()));
    s.apply(Action::AddBackspace);
    assert_eq!(s.add_input, Some(String::new()));
    s.apply(Action::AddChar('a'));
    s.apply(Action::AddChar('b'));
    s.apply(Action::AddBackspace);
    assert_eq!(s.add_input, Some("a".to_string()));
    s.apply(Action::CancelAdd);
    assert_eq!(s.add_input, None);
}

#[test]
fn filters_order_help_and_quit() {
    let mut s = Session::new("rust".to_string(), SortMode::Added);
    s.tag_filter = Some("lang".to_string());
    assert_eq!(s.apply(Action::ClearFilters), Followup::Refilter);
    assert_eq!(s.filter, "");
    assert_eq!(s.tag_filter, None);
    assert_eq!(s.apply(Action::CycleSort), Followup::Refilter);
    assert_eq!(s.sort_mode, SortMode::Site);
    assert_eq!(s.apply(Action::ShowHelp), Followup::Done);
    assert!(s.show_help);
    assert_eq!(s.apply(Action::DismissHelp), Followup::Done);
    assert!(!s.show_help);
    assert_eq!(s.apply(Action::MoveDown), Followup::Elsewhere);
    assert_eq!(s.apply(Action::TagCancel), Followup::Elsewhere);
    assert!(!s.should_quit);
    assert_eq!(s.apply(Action::Quit), Followup::Done);
    assert!(s.should_quit);
}
