use vstd::prelude::*;

verus! {

/// A key as the terminal reports it.
#[derive(Debug, Clone, Copy, PartialEq, Eq, Structural)]
pub enum Key {
    Char(char),
    Esc,
    Enter,
    Tab,
    Backspace,
    Up,
    Down,
    Other,
}

/// The modifiers held with a key; `other` stands for super, hyper and meta.
#[derive(Debug, Clone, Copy, PartialEq, Eq, Structural)]
pub struct Mods {
    pub shift: bool,
    pub control: bool,
    pub alt: bool,
    pub other: bool,
}

impl Mods {
    /// No modifier at all.
    pub open spec fn none(self) -> bool {
        !self.shift && !self.control && !self.alt && !self.other
    }

    /// Control and nothing else.
    pub open spec fn only_control(self) -> bool {
        !self.shift && self.control && !self.alt && !self.other
    }

    /// Alt and nothing else.
    pub open spec fn only_alt(self) -> bool {
        !self.shift && !self.control && self.alt && !self.other
    }

    /// Shift and nothing else, or no modifier (how capitals arrive).
    pub open spec fn plain_or_shift(self) -> bool {
        !self.control && !self.alt && !self.other
    }
}

/// What the browser shows on top of the list, and its state, as far as
/// handling a key depends on it.
#[derive(Debug, Clone, Copy, PartialEq, Eq, Structural)]
pub struct Screen {
    pub help: bool,
    pub reader: bool,
    pub validate: bool,
    pub delete_confirm: bool,
    pub add_input: bool,
    pub enrich_preview: bool,
    pub tag_popup: bool,
    pub theme_popup: bool,
    pub search: bool,
    pub filter_empty: bool,
}

/// A change of a scroll offset.
#[derive(Debug, Clone, Copy, PartialEq, Eq, Structural)]
pub enum Scroll {
    Down(u16),
    Up(u16),
    Top,
}

/// What the browser does in answer to a key.
#[derive(Debug, Clone, Copy, PartialEq, Eq, Structural)]
pub enum Action {
    Nothing,
    DismissHelp,
    CloseReader,
    ScrollReader(Scroll),
    CloseValidate,
    ScrollValidate(Scroll),
    ConfirmDelete,
    CancelDelete,
    CancelAdd,
    SubmitAdd,
    AddToSearch,
    AddBackspace,
    AddChar(char),
    ApplyEnrich,
    SkipEnrich,
    FinishEnrich,
    ScrollEnrich(Scroll),
    TagCancel,
    TagUp,
    TagDown,
    TagPageDown,
    TagPageUp,
    TagBackspace,
    TagChar(char),
    TagAccept,
    ThemeClose,
    ThemeUp,
    ThemeDown,
    LeaveSearch,
    SearchToAdd,
    SearchChar(char),
    SearchBackspace,
    EnterSearch,
    Quit,
    MoveUp,
    MoveDown,
    HalfPageUp,
    HalfPageDown,
    PageUp,
    PageDown,
    MoveToTop,
    MoveToBottom,
    OpenTagPopup,
    OpenThemePopup,
    ClearFilters,
    Open,
    Edit,
    CopyUrl,
    CopyMarkdown,
    StartAdd,
    EnrichSelected,
    EnrichAll,
    Dedup,
    DeletePrompt,
    Reindex,
    Validate,
    CycleSort,
    ScrollPreview(Scroll),
    ShowHelp,
    OpenReader,
}

/// The new offset: moved down or up by the amount, stopping at the ends of
/// the `u16` range, or back to the top.
pub open spec fn scrolled(v: u16, s: Scroll) -> u16 {
    match s {
        Scroll::Down(n) => if v + n > u16::MAX {
            u16::MAX
        } else {
            (v + n) as u16
        },
        Scroll::Up(n) => if v < n {
            0
        } else {
            (v - n) as u16
        },
        Scroll::Top => 0,
    }
}

pub fn apply_scroll(v: u16, s: Scroll) -> (r: u16)
    ensures
        r == scrolled(v, s),
{
    match s {
        Scroll::Down(n) => v.saturating_add(n),
        Scroll::Up(n) => v.saturating_sub(n),
        Scroll::Top => 0,
    }
}

/// Keys in the reader view.
pub open spec fn reader_action(key: Key, mods: Mods) -> Action {
    match key {
        Key::Esc | Key::Char('q') => Action::CloseReader,
        Key::Char('j') | Key::Down => Action::ScrollReader(Scroll::Down(1)),
        Key::Char('k') | Key::Up => Action::ScrollReader(Scroll::Up(1)),
        Key::Char('d') if mods.control => Action::ScrollReader(Scroll::Down(10)),
        Key::Char('u') if mods.control => Action::ScrollReader(Scroll::Up(10)),
        Key::Char(' ') => Action::ScrollReader(Scroll::Down(20)),
        Key::Char('g') => Action::ScrollReader(Scroll::Top),
        _ => Action::Nothing,
    }
}

/// Keys in the validation report.
pub open spec fn validate_action(key: Key, mods: Mods) -> Action {
    match key {
        Key::Esc | Key::Char('q') | Key::Enter => Action::CloseValidate,
        Key::Char('j') | Key::Down => Action::ScrollValidate(Scroll::Down(1)),
        Key::Char('k') | Key::Up => Action::ScrollValidate(Scroll::Up(1)),
        Key::Char('d') if mods.control => Action::ScrollValidate(Scroll::Down(10)),
        Key::Char('u') if mods.control => Action::ScrollValidate(Scroll::Up(10)),
        _ => Action::Nothing,
    }
}

/// Keys while a deletion waits for confirmation: yes, or anything else.
pub open spec fn delete_action(key: Key) -> Action {
    match key {
        Key::Char('y') | Key::Char('Y') | Key::Enter => Action::ConfirmDelete,
        _ => Action::CancelDelete,
    }
}

/// Keys while a URL is typed in to be added.
pub open spec fn add_action(key: Key, mods: Mods) -> Action {
    match key {
        Key::Esc => Action::CancelAdd,
        Key::Enter => Action::SubmitAdd,
        Key::Tab => Action::AddToSearch,
        Key::Char('a') if mods.alt || mods.control => Action::AddToSearch,
        Key::Backspace => Action::AddBackspace,
        Key::Char(c) if !mods.control && !mods.alt => Action::AddChar(c),
        _ => Action::Nothing,
    }
}

/// Keys while a proposed enrichment is shown.
pub open spec fn enrich_action(key: Key) -> Action {
    match key {
        Key::Enter | Key::Char('y') => Action::ApplyEnrich,
        Key::Char('n') | Key::Char('s') => Action::SkipEnrich,
        Key::Esc | Key::Char('q') => Action::FinishEnrich,
        Key::Char('j') | Key::Down => Action::ScrollEnrich(Scroll::Down(1)),
        Key::Char('k') | Key::Up => Action::ScrollEnrich(Scroll::Up(1)),
        _ => Action::Nothing,
    }
}

/// Keys in the tag picker.
pub open spec fn tag_action(key: Key, mods: Mods) -> Action {
    match key {
        Key::Esc => Action::TagCancel,
        Key::Up => Action::TagUp,
        Key::Down => Action::TagDown,
        Key::Char('f') if mods.only_control() => Action::TagPageDown,
        Key::Char('b') if mods.only_control() => Action::TagPageUp,
        Key::Backspace => Action::TagBackspace,
        Key::Char(c) => Action::TagChar(c),
        Key::Enter => Action::TagAccept,
        _ => Action::Nothing,
    }
}

/// Keys in the theme picker.
pub open spec fn theme_action(key: Key) -> Action {
    match key {
        Key::Esc | Key::Enter => Action::ThemeClose,
        Key::Up | Key::Char('k') => Action::ThemeUp,
        Key::Down | Key::Char('j') => Action::ThemeDown,
        _ => Action::Nothing,
    }
}

/// Keys while search text is typed.
pub open spec fn search_action(key: Key, mods: Mods) -> Action {
    match key {
        Key::Esc => Action::LeaveSearch,
        Key::Char('c') if mods.only_control() => Action::Quit,
        Key::Char('a') if mods.only_alt() || mods.only_control() => Action::SearchToAdd,
        Key::Tab => Action::SearchToAdd,
        Key::Char(c) if mods.plain_or_shift() => Action::SearchChar(c),
        Key::Backspace => Action::SearchBackspace,
        Key::Up => Action::MoveUp,
        Key::Char('p') if mods.only_control() => Action::MoveUp,
        Key::Char('k') if mods.only_control() => Action::MoveUp,
        Key::Down => Action::MoveDown,
        Key::Char('n') if mods.only_control() => Action::MoveDown,
        Key::Char('j') if mods.only_control() => Action::MoveDown,
        Key::Char('d') if mods.only_control() => Action::HalfPageDown,
        Key::Char('u') if mods.only_control() => Action::HalfPageUp,
        Key::Char('f') if mods.only_control() => Action::PageDown,
        Key::Char('b') if mods.only_control() => Action::PageUp,
        Key::Char('t') if mods.only_control() => Action::OpenTagPopup,
        Key::Enter => Action::LeaveSearch,
        _ => Action::Nothing,
    }
}

/// Keys with a control modifier that move through the list, in both modes.
pub open spec fn control_motion(c: char) -> Action {
    if c == 'n' || c == 'j' {
        Action::MoveDown
    } else if c == 'p' || c == 'k' {
        Action::MoveUp
    } else if c == 'd' {
        Action::HalfPageDown
    } else if c == 'u' {
        Action::HalfPageUp
    } else if c == 'f' {
        Action::PageDown
    } else if c == 'b' {
        Action::PageUp
    } else if c == 'c' {
        Action::Quit
    } else {
        Action::Nothing
    }
}

/// The plain letter commands of the list.
pub open spec fn plain_command(c: char, filter_empty: bool) -> Action {
    if c == 'q' {
        Action::Quit
    } else if c == '/' || c == 'i' {
        Action::EnterSearch
    } else if c == 'j' {
        Action::MoveDown
    } else if c == 'k' {
        Action::MoveUp
    } else if c == 'g' {
        Action::MoveToTop
    } else if c == 't' {
        Action::OpenTagPopup
    } else if c == 'c' {
        Action::ClearFilters
    } else if c == 'e' {
        Action::Edit
    } else if c == 'y' {
        Action::CopyUrl
    } else if c == 'a' {
        Action::StartAdd
    } else if c == 'r' {
        Action::EnrichSelected
    } else if c == 'd' {
        Action::Dedup
    } else if c == 's' {
        if filter_empty {
            Action::CycleSort
        } else {
            Action::Nothing
        }
    } else {
        Action::Nothing
    }
}

/// The capital-letter commands of the list (typed with or without shift).
pub open spec fn capital_command(c: char) -> Action {
    if c == 'G' {
        Action::MoveToBottom
    } else if c == 'T' {
        Action::OpenThemePopup
    } else if c == 'Y' {
        Action::CopyMarkdown
    } else if c == 'R' {
        Action::EnrichAll
    } else if c == 'D' {
        Action::DeletePrompt
    } else if c == 'I' {
        Action::Reindex
    } else if c == 'V' {
        Action::Validate
    } else if c == 'J' {
        Action::ScrollPreview(Scroll::Down(3))
    } else if c == 'K' {
        Action::ScrollPreview(Scroll::Up(3))
    } else {
        Action::Nothing
    }
}

/// Keys on the list itself.
pub open spec fn browse_action(key: Key, mods: Mods, filter_empty: bool) -> Action {
    match key {
        Key::Esc => Action::Quit,
        Key::Down => Action::MoveDown,
        Key::Up => Action::MoveUp,
        Key::Enter => Action::Open,
        Key::Char(c) => if c == '?' {
            Action::ShowHelp
        } else if c == ' ' {
            Action::OpenReader
        } else if mods.only_control() {
            control_motion(c)
        } else if mods.none() && plain_command(c, filter_empty) != Action::Nothing {
            plain_command(c, filter_empty)
        } else if mods.plain_or_shift() {
            capital_command(c)
        } else {
            Action::Nothing
        },
        _ => Action::Nothing,
    }
}

/// What a key does on a screen: the help overlay takes any key; otherwise
/// the topmost of reader, validation report, delete confirmation, add
/// input, enrichment preview, tag picker and theme picker handles it; with
/// none of them, the search field or the list does.
pub open spec fn dispatch_spec(screen: Screen, key: Key, mods: Mods) -> Action {
    if screen.help {
        Action::DismissHelp
    } else if screen.reader {
        reader_action(key, mods)
    } else if screen.validate {
        validate_action(key, mods)
    } else if screen.delete_confirm {
        delete_action(key)
    } else if screen.add_input {
        add_action(key, mods)
    } else if screen.enrich_preview {
        enrich_action(key)
    } else if screen.tag_popup {
        tag_action(key, mods)
    } else if screen.theme_popup {
        theme_action(key)
    } else if screen.search {
        search_action(key, mods)
    } else {
        browse_action(key, mods, screen.filter_empty)
    }
}

fn only_control(m: Mods) -> (r: bool)
    ensures
        r == m.only_control(),
{
    !m.shift && m.control && !m.alt && !m.other
}

fn no_mods(m: Mods) -> (r: bool)
    ensures
        r == m.none(),
{
    !m.shift && !m.control && !m.alt && !m.other
}

fn plain_or_shift(m: Mods) -> (r: bool)
    ensures
        r == m.plain_or_shift(),
{
    !m.control && !m.alt && !m.other
}

fn control_motion_exec(c: char) -> (r: Action)
    ensures
        r == control_motion(c),
{
    if c == 'n' || c == 'j' {
        Action::MoveDown
    } else if c == 'p' || c == 'k' {
        Action::MoveUp
    } else if c == 'd' {
        Action::HalfPageDown
    } else if c == 'u' {
        Action::HalfPageUp
    } else if c == 'f' {
        Action::PageDown
    } else if c == 'b' {
        Action::PageUp
    } else if c == 'c' {
        Action::Quit
    } else {
        Action::Nothing
    }
}

fn plain_command_exec(c: char, filter_empty: bool) -> (r: Action)
    ensures
        r == plain_command(c, filter_empty),
{
    if c == 'q' {
        Action::Quit
    } else if c == '/' || c == 'i' {
        Action::EnterSearch
    } else if c == 'j' {
        Action::MoveDown
    } else if c == 'k' {
        Action::MoveUp
    } else if c == 'g' {
        Action::MoveToTop
    } else if c == 't' {
        Action::OpenTagPopup
    } else if c == 'c' {
        Action::ClearFilters
    } else if c == 'e' {
        Action::Edit
    } else if c == 'y' {
        Action::CopyUrl
    } else if c == 'a' {
        Action::StartAdd
    } else if c == 'r' {
        Action::EnrichSelected
    } else if c == 'd' {
        Action::Dedup
    } else if c == 's' {
        if filter_empty {
            Action::CycleSort
        } else {
            Action::Nothing
        }
    } else {
        Action::Nothing
    }
}

fn capital_command_exec(c: char) -> (r: Action)
    ensures
        r == capital_command(c),
{
    if c == 'G' {
        Action::MoveToBottom
    } else if c == 'T' {
        Action::OpenThemePopup
    } else if c == 'Y' {
        Action::CopyMarkdown
    } else if c == 'R' {
        Action::EnrichAll
    } else if c == 'D' {
        Action::DeletePrompt
    } else if c == 'I' {
        Action::Reindex
    } else if c == 'V' {
        Action::Validate
    } else if c == 'J' {
        Action::ScrollPreview(Scroll::Down(3))
    } else if c == 'K' {
        Action::ScrollPreview(Scroll::Up(3))
    } else {
        Action::Nothing
    }
}

fn is_nothing(a: Action) -> (r: bool)
    ensures
        r == (a == Action::Nothing),
{
    match a {
        Action::Nothing => true,
        _ => false,
    }
}

/// What a key does on a screen (see `dispatch_spec`).
pub fn dispatch(screen: Screen, key: Key, mods: Mods) -> (r: Action)
    ensures
        r == dispatch_spec(screen, key, mods),
{
    if screen.help {
        Action::DismissHelp
    } else if screen.reader {
        match key {
            Key::Esc | Key::Char('q') => Action::CloseReader,
            Key::Char('j') | Key::Down => Action::ScrollReader(Scroll::Down(1)),
            Key::Char('k') | Key::Up => Action::ScrollReader(Scroll::Up(1)),
            Key::Char('d') if mods.control => Action::ScrollReader(Scroll::Down(10)),
            Key::Char('u') if mods.control => Action::ScrollReader(Scroll::Up(10)),
            Key::Char(' ') => Action::ScrollReader(Scroll::Down(20)),
            Key::Char('g') => Action::ScrollReader(Scroll::Top),
            _ => Action::Nothing,
        }
    } else if screen.validate {
        match key {
            Key::Esc | Key::Char('q') | Key::Enter => Action::CloseValidate,
            Key::Char('j') | Key::Down => Action::ScrollValidate(Scroll::Down(1)),
            Key::Char('k') | Key::Up => Action::ScrollValidate(Scroll::Up(1)),
            Key::Char('d') if mods.control => Action::ScrollValidate(Scroll::Down(10)),
            Key::Char('u') if mods.control => Action::ScrollValidate(Scroll::Up(10)),
            _ => Action::Nothing,
        }
    } else if screen.delete_confirm {
        match key {
            Key::Char('y') | Key::Char('Y') | Key::Enter => Action::ConfirmDelete,
            _ => Action::CancelDelete,
        }
    } else if screen.add_input {
        match key {
            Key::Esc => Action::CancelAdd,
            Key::Enter => Action::SubmitAdd,
            Key::Tab => Action::AddToSearch,
            Key::Char('a') if mods.alt || mods.control => Action::AddToSearch,
            Key::Backspace => Action::AddBackspace,
            Key::Char(c) if !mods.control && !mods.alt => Action::AddChar(c),
            _ => Action::Nothing,
        }
    } else if screen.enrich_preview {
        match key {
            Key::Enter | Key::Char('y') => Action::ApplyEnrich,
            Key::Char('n') | Key::Char('s') => Action::SkipEnrich,
            Key::Esc | Key::Char('q') => Action::FinishEnrich,
            Key::Char('j') | Key::Down => Action::ScrollEnrich(Scroll::Down(1)),
            Key::Char('k') | Key::Up => Action::ScrollEnrich(Scroll::Up(1)),
            _ => Action::Nothing,
        }
    } else if screen.tag_popup {
        let ctl = only_control(mods);
        match key {
            Key::Esc => Action::TagCancel,
            Key::Up => Action::TagUp,
            Key::Down => Action::TagDown,
            Key::Char('f') if ctl => Action::TagPageDown,
            Key::Char('b') if ctl => Action::TagPageUp,
            Key::Backspace => Action::TagBackspace,
            Key::Char(c) => Action::TagChar(c),
            Key::Enter => Action::TagAccept,
            _ => Action::Nothing,
        }
    } else if screen.theme_popup {
        match key {
            Key::Esc | Key::Enter => Action::ThemeClose,
            Key::Up | Key::Char('k') => Action::ThemeUp,
            Key::Down | Key::Char('j') => Action::ThemeDown,
            _ => Action::Nothing,
        }
    } else if screen.search {
        let ctl = only_control(mods);
        let alt = !mods.shift && !mods.control && mods.alt && !mods.other;
        let plain = plain_or_shift(mods);
        match key {
            Key::Esc => Action::LeaveSearch,
            Key::Char('c') if ctl => Action::Quit,
            Key::Char('a') if alt || ctl => Action::SearchToAdd,
            Key::Tab => Action::SearchToAdd,
            Key::Char(c) if plain => Action::SearchChar(c),
            Key::Backspace => Action::SearchBackspace,
            Key::Up => Action::MoveUp,
            Key::Char('p') if ctl => Action::MoveUp,
            Key::Char('k') if ctl => Action::MoveUp,
            Key::Down => Action::MoveDown,
            Key::Char('n') if ctl => Action::MoveDown,
            Key::Char('j') if ctl => Action::MoveDown,
            Key::Char('d') if ctl => Action::HalfPageDown,
            Key::Char('u') if ctl => Action::HalfPageUp,
            Key::Char('f') if ctl => Action::PageDown,
            Key::Char('b') if ctl => Action::PageUp,
            Key::Char('t') if ctl => Action::OpenTagPopup,
            Key::Enter => Action::LeaveSearch,
            _ => Action::Nothing,
        }
    } else {
        match key {
            Key::Esc => Action::Quit,
            Key::Down => Action::MoveDown,
            Key::Up => Action::MoveUp,
            Key::Enter => Action::Open,
            Key::Char(c) => {
                if c == '?' {
                    Action::ShowHelp
                } else if c == ' ' {
                    Action::OpenReader
                } else if only_control(mods) {
                    control_motion_exec(c)
                } else {
                    let plain = plain_command_exec(c, screen.filter_empty);
                    if no_mods(mods) && !is_nothing(plain) {
                        plain
                    } else if plain_or_shift(mods) {
                        capital_command_exec(c)
                    } else {
                        Action::Nothing
                    }
                }
            },
            _ => Action::Nothing,
        }
    }
}

/// Control-C quits from the list and from the search field.
pub proof fn law_control_c_quits(screen: Screen, mods: Mods)
    requires
        !screen.help && !screen.reader && !screen.validate && !screen.delete_confirm
            && !screen.add_input && !screen.enrich_preview && !screen.tag_popup
            && !screen.theme_popup,
        mods.only_control(),
    ensures
        dispatch_spec(screen, Key::Char('c'), mods) == Action::Quit,
{
}

/// Whether no overlay is open (help, reader, validation report, delete
/// confirmation, add bar, enrichment preview, tag or theme picker).
pub open spec fn no_overlay(s: Screen) -> bool {
    !s.help && !s.reader && !s.validate && !s.delete_confirm && !s.add_input && !s.enrich_preview
        && !s.tag_popup && !s.theme_popup
}

/// Moving through the list: on the list, the Up arrow (with any modifiers)
/// and a plain `k` move the selection up one row, the Down arrow and a plain
/// `j` move it down; Control with `k`/`p` moves up and with `j`/`n` moves
/// down; a plain `g` jumps to the top and `G` to the bottom; a plain `q`
/// quits. In the search field the arrows and the Control moves do the same.
pub proof fn law_list_motion_keys(screen: Screen, m: Mods, plain: Mods, ctrl: Mods, shifted: Mods)
    requires
        no_overlay(screen),
        plain.none(),
        ctrl.only_control(),
        shifted.plain_or_shift(),
    ensures
        !screen.search ==> {
            &&& dispatch_spec(screen, Key::Up, m) == Action::MoveUp
            &&& dispatch_spec(screen, Key::Char('k'), plain) == Action::MoveUp
            &&& dispatch_spec(screen, Key::Down, m) == Action::MoveDown
            &&& dispatch_spec(screen, Key::Char('j'), plain) == Action::MoveDown
            &&& dispatch_spec(screen, Key::Char('g'), plain) == Action::MoveToTop
            &&& dispatch_spec(screen, Key::Char('G'), shifted) == Action::MoveToBottom
            &&& dispatch_spec(screen, Key::Char('q'), plain) == Action::Quit
        },
        dispatch_spec(screen, Key::Char('k'), ctrl) == Action::MoveUp,
        dispatch_spec(screen, Key::Char('p'), ctrl) == Action::MoveUp,
        dispatch_spec(screen, Key::Char('j'), ctrl) == Action::MoveDown,
        dispatch_spec(screen, Key::Char('n'), ctrl) == Action::MoveDown,
        screen.search ==> dispatch_spec(screen, Key::Up, m) == Action::MoveUp
            && dispatch_spec(screen, Key::Down, m) == Action::MoveDown,
{
}

/// The list's commands as the README's key table lists them: `/` or `i`
/// search, Enter opens, `e` edits, `y` copies the URL and `Y` a markdown
/// link, `a` adds, `r` re-enriches the selection and `R` all, `s` cycles the
/// order (while no search text is set), `d` deduplicates, `D` deletes, `I`
/// reindexes, `V` validates, `t` browses tags, `T` switches theme, `c`
/// clears the filters and `?` shows help.
pub proof fn law_list_command_keys(screen: Screen, m: Mods, plain: Mods, shifted: Mods)
    requires
        no_overlay(screen),
        !screen.search,
        plain.none(),
        shifted.plain_or_shift(),
    ensures
        dispatch_spec(screen, Key::Char('/'), plain) == Action::EnterSearch,
        dispatch_spec(screen, Key::Char('i'), plain) == Action::EnterSearch,
        dispatch_spec(screen, Key::Enter, m) == Action::Open,
        dispatch_spec(screen, Key::Char('e'), plain) == Action::Edit,
        dispatch_spec(screen, Key::Char('y'), plain) == Action::CopyUrl,
        dispatch_spec(screen, Key::Char('Y'), shifted) == Action::CopyMarkdown,
        dispatch_spec(screen, Key::Char('a'), plain) == Action::StartAdd,
        dispatch_spec(screen, Key::Char('r'), plain) == Action::EnrichSelected,
        dispatch_spec(screen, Key::Char('R'), shifted) == Action::EnrichAll,
        screen.filter_empty ==> dispatch_spec(screen, Key::Char('s'), plain) == Action::CycleSort,
        dispatch_spec(screen, Key::Char('d'), plain) == Action::Dedup,
        dispatch_spec(screen, Key::Char('D'), shifted) == Action::DeletePrompt,
        dispatch_spec(screen, Key::Char('I'), shifted) == Action::Reindex,
        dispatch_spec(screen, Key::Char('V'), shifted) == Action::Validate,
        dispatch_spec(screen, Key::Char('t'), plain) == Action::OpenTagPopup,
        dispatch_spec(screen, Key::Char('T'), shifted) == Action::OpenThemePopup,
        dispatch_spec(screen, Key::Char('c'), plain) == Action::ClearFilters,
        dispatch_spec(screen, Key::Char('?'), m) == Action::ShowHelp,
{
}

/// In every overlay that scrolls or holds a list, the Up arrow goes up and
/// the Down arrow goes down (whatever the modifiers): the reader and the
/// validation report and enrichment preview scroll by one line, the tag and
/// theme pickers move their selection.
pub proof fn law_arrows_keep_their_direction(screen: Screen, m: Mods)
    requires
        !screen.help,
    ensures
        screen.reader ==> dispatch_spec(screen, Key::Up, m) == Action::ScrollReader(Scroll::Up(1))
            && dispatch_spec(screen, Key::Down, m) == Action::ScrollReader(Scroll::Down(1)),
        !screen.reader && screen.validate ==> dispatch_spec(screen, Key::Up, m) == Action::ScrollValidate(Scroll::Up(1))
            && dispatch_spec(screen, Key::Down, m) == Action::ScrollValidate(Scroll::Down(1)),
        !screen.reader && !screen.validate && !screen.delete_confirm && !screen.add_input
            && screen.enrich_preview ==> dispatch_spec(screen, Key::Up, m) == Action::ScrollEnrich(Scroll::Up(1))
            && dispatch_spec(screen, Key::Down, m) == Action::ScrollEnrich(Scroll::Down(1)),
        !screen.reader && !screen.validate && !screen.delete_confirm && !screen.add_input
            && !screen.enrich_preview && screen.tag_popup ==> dispatch_spec(screen, Key::Up, m) == Action::TagUp
            && dispatch_spec(screen, Key::Down, m) == Action::TagDown,
        !screen.reader && !screen.validate && !screen.delete_confirm && !screen.add_input
            && !screen.enrich_preview && !screen.tag_popup && screen.theme_popup ==> dispatch_spec(screen, Key::Up, m)
            == Action::ThemeUp && dispatch_spec(screen, Key::Down, m) == Action::ThemeDown,
{
}

/// Any key closes the help overlay, whatever else is open.
pub proof fn law_help_takes_any_key(screen: Screen, key: Key, mods: Mods)
    requires
        screen.help,
    ensures
        dispatch_spec(screen, key, mods) == Action::DismissHelp,
{
}

// ---------------------------------------------------------------------------
// Deduplicating
// ---------------------------------------------------------------------------

/// What a key does while a duplicate group is shown.
#[derive(Debug, Clone, Copy, PartialEq, Eq, Structural)]
pub enum DedupAction {
    Cancel,
    Skip,
    Up,
    Down,
    Keep,
    Nothing,
}

/// q, Esc or Control-C cancel deduplication; s skips the group; k/Up and
/// j/Down move the selection; Enter keeps the selected entry and trashes
/// the others.
pub open spec fn dedup_action_spec(key: Key, mods: Mods) -> DedupAction {
    match key {
        Key::Char('q') | Key::Esc => DedupAction::Cancel,
        Key::Char('c') if mods.only_control() => DedupAction::Cancel,
        Key::Char('s') => DedupAction::Skip,
        Key::Up | Key::Char('k') => DedupAction::Up,
        Key::Down | Key::Char('j') => DedupAction::Down,
        Key::Enter => DedupAction::Keep,
        _ => DedupAction::Nothing,
    }
}

pub fn dedup_action(key: Key, mods: Mods) -> (r: DedupAction)
    ensures
        r == dedup_action_spec(key, mods),
{
    let ctl = only_control(mods);
    match key {
        Key::Char('q') | Key::Esc => DedupAction::Cancel,
        Key::Char('c') if ctl => DedupAction::Cancel,
        Key::Char('s') => DedupAction::Skip,
        Key::Up | Key::Char('k') => DedupAction::Up,
        Key::Down | Key::Char('j') => DedupAction::Down,
        Key::Enter => DedupAction::Keep,
        _ => DedupAction::Nothing,
    }
}

/// The selection in a group of `len` entries after moving up or down,
/// stopping at the first and last entry.
pub fn dedup_move(selected: usize, len: usize, up: bool) -> (r: usize)
    requires
        selected < len,
    ensures
        up ==> r == if selected == 0 { 0 } else { (selected - 1) as usize },
        !up ==> r == if selected + 1 < len { (selected + 1) as usize } else { (len - 1) as usize },
        r < len,
{
    if up {
        selected.saturating_sub(1)
    } else if selected + 1 < len {
        selected + 1
    } else {
        len - 1
    }
}

} // verus!
