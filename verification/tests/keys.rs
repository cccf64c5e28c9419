use cairn::keys::{apply_scroll, dispatch, Action, Key, Mods, Screen, Scroll};

const NONE: Mods = Mods { shift: false, control: false, alt: false, other: false };
const SHIFT: Mods = Mods { shift: true, control: false, alt: false, other: false };
const CTRL: Mods = Mods { shift: false, control: true, alt: false, other: false };
const ALT: Mods = Mods { shift: false, control: false, alt: true, other: false };

const LIST: Screen = Screen {
    help: false,
    reader: false,
    validate: false,
    delete_confirm: false,
    add_input: false,
    enrich_preview: false,
    tag_popup: false,
    theme_popup: false,
    search: false,
    filter_empty: true,
};

fn key(c: char) -> Action {
    dispatch(LIST, Key::Char(c), NONE)
}

#[test]
fn readme_keybindings() {
    assert_eq!(key('j'), Action::MoveDown);
    assert_eq!(key('k'), Action::MoveUp);
    assert_eq!(key('g'), Action::MoveToTop);
    assert_eq!(dispatch(LIST, Key::Char('G'), SHIFT), Action::MoveToBottom);
    assert_eq!(key('/'), Action::EnterSearch);
    assert_eq!(key('i'), Action::EnterSearch);
    assert_eq!(dispatch(LIST, Key::Enter, NONE), Action::Open);
    assert_eq!(key('e'), Action::Edit);
    assert_eq!(key('y'), Action::CopyUrl);
    assert_eq!(key('Y'), Action::CopyMarkdown);
    assert_eq!(key('a'), Action::StartAdd);
    assert_eq!(key('r'), Action::EnrichSelected);
    assert_eq!(key('R'), Action::EnrichAll);
    assert_eq!(key('s'), Action::CycleSort);
    assert_eq!(key('d'), Action::Dedup);
    assert_eq!(key('D'), Action::DeletePrompt);
    assert_eq!(key('I'), Action::Reindex);
    assert_eq!(key('V'), Action::Validate);
    assert_eq!(key('t'), Action::OpenTagPopup);
    assert_eq!(key('T'), Action::OpenThemePopup);
    assert_eq!(key('c'), Action::ClearFilters);
    assert_eq!(key('?'), Action::ShowHelp);
    assert_eq!(key('q'), Action::Quit);
}

#[test]
fn list_extras() {
    assert_eq!(dispatch(LIST, Key::Esc, NONE), Action::Quit);
    assert_eq!(dispatch(LIST, Key::Char('c'), CTRL), Action::Quit);
    assert_eq!(dispatch(LIST, Key::Char('d'), CTRL), Action::HalfPageDown);
    assert_eq!(dispatch(LIST, Key::Char('f'), CTRL), Action::PageDown);
    assert_eq!(dispatch(LIST, Key::Char('b'), CTRL), Action::PageUp);
    assert_eq!(dispatch(LIST, Key::Char('n'), CTRL), Action::MoveDown);
    assert_eq!(dispatch(LIST, Key::Char('J'), SHIFT), Action::ScrollPreview(Scroll::Down(3)));
    assert_eq!(key(' '), Action::OpenReader);
    assert_eq!(dispatch(LIST, Key::Char('q'), ALT), Action::Nothing);
    assert_eq!(dispatch(LIST, Key::Char('j'), SHIFT), Action::Nothing);
    let searching = Screen { filter_empty: false, ..LIST };
    assert_eq!(dispatch(searching, Key::Char('s'), NONE), Action::Nothing);
}

#[test]
fn search_field_keys() {
    let s = Screen { search: true, ..LIST };
    assert_eq!(dispatch(s, Key::Char('q'), NONE), Action::SearchChar('q'));
    assert_eq!(dispatch(s, Key::Char('Q'), SHIFT), Action::SearchChar('Q'));
    assert_eq!(dispatch(s, Key::Backspace, NONE), Action::SearchBackspace);
    assert_eq!(dispatch(s, Key::Esc, NONE), Action::LeaveSearch);
    assert_eq!(dispatch(s, Key::Enter, NONE), Action::LeaveSearch);
    assert_eq!(dispatch(s, Key::Tab, NONE), Action::SearchToAdd);
    assert_eq!(dispatch(s, Key::Char('a'), ALT), Action::SearchToAdd);
    assert_eq!(dispatch(s, Key::Char('c'), CTRL), Action::Quit);
    assert_eq!(dispatch(s, Key::Char('t'), CTRL), Action::OpenTagPopup);
    assert_eq!(dispatch(s, Key::Char('k'), CTRL), Action::MoveUp);
    assert_eq!(dispatch(s, Key::Down, NONE), Action::MoveDown);
}

#[test]
fn overlays_take_keys_first() {
    let help = Screen { help: true, reader: true, ..LIST };
    assert_eq!(dispatch(help, Key::Char('q'), NONE), Action::DismissHelp);
    let reader = Screen { reader: true, validate: true, ..LIST };
    assert_eq!(dispatch(reader, Key::Char('q'), NONE), Action::CloseReader);
    assert_eq!(dispatch(reader, Key::Char(' '), NONE), Action::ScrollReader(Scroll::Down(20)));
    assert_eq!(dispatch(reader, Key::Char('d'), CTRL), Action::ScrollReader(Scroll::Down(10)));
    assert_eq!(dispatch(reader, Key::Char('g'), NONE), Action::ScrollReader(Scroll::Top));
    let validate = Screen { validate: true, ..LIST };
    assert_eq!(dispatch(validate, Key::Enter, NONE), Action::CloseValidate);
    let delete = Screen { delete_confirm: true, ..LIST };
    assert_eq!(dispatch(delete, Key::Char('Y'), SHIFT), Action::ConfirmDelete);
    assert_eq!(dispatch(delete, Key::Char('n'), NONE), Action::CancelDelete);
    let add = Screen { add_input: true, ..LIST };
    assert_eq!(dispatch(add, Key::Char('h'), NONE), Action::AddChar('h'));
    assert_eq!(dispatch(add, Key::Char('a'), CTRL), Action::AddToSearch);
    assert_eq!(dispatch(add, Key::Char('x'), CTRL), Action::Nothing);
    assert_eq!(dispatch(add, Key::Enter, NONE), Action::SubmitAdd);
    let enrich = Screen { enrich_preview: true, ..LIST };
    assert_eq!(dispatch(enrich, Key::Char('y'), NONE), Action::ApplyEnrich);
    assert_eq!(dispatch(enrich, Key::Char('s'), NONE), Action::SkipEnrich);
    assert_eq!(dispatch(enrich, Key::Esc, NONE), Action::FinishEnrich);
    let tags = Screen { tag_popup: true, ..LIST };
    assert_eq!(dispatch(tags, Key::Char('f'), CTRL), Action::TagPageDown);
    assert_eq!(dispatch(tags, Key::Char('j'), NONE), Action::TagChar('j'));
    assert_eq!(dispatch(tags, Key::Enter, NONE), Action::TagAccept);
    let theme = Screen { theme_popup: true, ..LIST };
    assert_eq!(dispatch(theme, Key::Char('j'), NONE), Action::ThemeDown);
    assert_eq!(dispatch(theme, Key::Enter, NONE), Action::ThemeClose);
}

#[test]
fn scrolling_saturates() {
    assert_eq!(apply_scroll(5, Scroll::Up(10)), 0);
    assert_eq!(apply_scroll(65530, Scroll::Down(10)), 65535);
    assert_eq!(apply_scroll(7, Scroll::Down(3)), 10);
    assert_eq!(apply_scroll(7, Scroll::Top), 0);
}
