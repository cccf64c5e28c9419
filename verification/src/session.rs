use vstd::prelude::*;

use crate::keys::Action;
use crate::model::opt_view;
use crate::text::{chars_of, string_of};
use crate::tui::{InputMode, SortMode};

verus! {

/// The part of the browser's state that keys change directly: the search
/// text, the tag filter, the text of the add bar (when it is open), the
/// input mode, the help overlay, the order and whether to quit.
pub struct Session {
    pub filter: String,
    pub tag_filter: Option<String>,
    pub add_input: Option<String>,
    pub input_mode: InputMode,
    pub show_help: bool,
    pub should_quit: bool,
    pub sort_mode: SortMode,
}

pub struct SessionView {
    pub filter: Seq<char>,
    pub tag_filter: Option<Seq<char>>,
    pub add_input: Option<Seq<char>>,
    pub input_mode: InputMode,
    pub show_help: bool,
    pub should_quit: bool,
    pub sort_mode: SortMode,
}

impl View for Session {
    type V = SessionView;

    open spec fn view(&self) -> SessionView {
        SessionView {
            filter: self.filter@,
            tag_filter: opt_view(self.tag_filter),
            add_input: opt_view(self.add_input),
            input_mode: self.input_mode,
            show_help: self.show_help,
            should_quit: self.should_quit,
            sort_mode: self.sort_mode,
        }
    }
}

/// What is left to do after `Session::apply`.
#[derive(Debug, Clone, Copy, PartialEq, Eq, Structural)]
pub enum Followup {
    /// Nothing: the action is done.
    Done,
    /// The search text, tag filter or order changed: filter and sort the
    /// list again.
    Refilter,
    /// The action concerns other parts of the browser (the cursor, the
    /// popups and overlays, or work on files), which the caller performs.
    Elsewhere,
}

/// The text without its last character (`String::pop`).
pub open spec fn popped(s: Seq<char>) -> Seq<char> {
    if s.len() == 0 {
        s
    } else {
        s.drop_last()
    }
}

/// The session after an action, and what is left to do.
pub open spec fn step_spec(s: SessionView, a: Action) -> (SessionView, Followup) {
    match a {
        Action::DismissHelp => (SessionView { show_help: false, ..s }, Followup::Done),
        Action::ShowHelp => (SessionView { show_help: true, ..s }, Followup::Done),
        Action::Quit => (SessionView { should_quit: true, ..s }, Followup::Done),
        Action::EnterSearch => (SessionView { input_mode: InputMode::Search, ..s }, Followup::Done),
        Action::LeaveSearch => (SessionView { input_mode: InputMode::Browse, ..s }, Followup::Done),
        Action::StartAdd => (SessionView { add_input: Some(seq![]), ..s }, Followup::Done),
        Action::CancelAdd => (SessionView { add_input: None, ..s }, Followup::Done),
        Action::AddChar(c) => (
            SessionView {
                add_input: match s.add_input {
                    Some(t) => Some(t.push(c)),
                    None => None,
                },
                ..s
            },
            Followup::Done,
        ),
        Action::AddBackspace => (
            SessionView {
                add_input: match s.add_input {
                    Some(t) => Some(popped(t)),
                    None => None,
                },
                ..s
            },
            Followup::Done,
        ),
        Action::AddToSearch => match s.add_input {
            Some(t) => (
                SessionView { filter: t, add_input: None, input_mode: InputMode::Search, ..s },
                Followup::Refilter,
            ),
            None => (SessionView { input_mode: InputMode::Search, ..s }, Followup::Done),
        },
        Action::SearchToAdd => (
            SessionView {
                add_input: Some(s.filter),
                filter: seq![],
                input_mode: InputMode::Browse,
                ..s
            },
            Followup::Refilter,
        ),
        Action::SearchChar(c) => (SessionView { filter: s.filter.push(c), ..s }, Followup::Refilter),
        Action::SearchBackspace => (SessionView { filter: popped(s.filter), ..s }, Followup::Refilter),
        Action::ClearFilters => (
            SessionView { filter: seq![], tag_filter: None, ..s },
            Followup::Refilter,
        ),
        Action::CycleSort => (SessionView { sort_mode: s.sort_mode.next_spec(), ..s }, Followup::Refilter),
        _ => (s, Followup::Elsewhere),
    }
}

/// Moving the search text to the add bar and back leaves the search text
/// as it was, with the search field active and the add bar closed.
pub proof fn law_search_add_round_trip(s: SessionView)
    ensures
        ({
            let there = step_spec(s, Action::SearchToAdd).0;
            let back = step_spec(there, Action::AddToSearch);
            &&& back.0 == SessionView { input_mode: InputMode::Search, add_input: None, ..s }
            &&& back.1 == Followup::Refilter
        }),
{
}

/// Typing a character into the search field and deleting it again gives
/// back the same search text.
pub proof fn law_type_then_backspace(s: SessionView, c: char)
    ensures
        step_spec(step_spec(s, Action::SearchChar(c)).0, Action::SearchBackspace).0 == s,
{
    assert(s.filter.push(c).drop_last() =~= s.filter);
}

fn push_char(s: &String, c: char) -> (r: String)
    ensures
        r@ == s@.push(c),
{
    let mut v = chars_of(s.as_str());
    v.push(c);
    string_of(&v)
}

fn pop_char(s: &String) -> (r: String)
    ensures
        r@ == popped(s@),
{
    let mut v = chars_of(s.as_str());
    if v.len() > 0 {
        v.pop();
    }
    string_of(&v)
}

impl Session {
    /// A session with the given search text, browsing in the given order.
    pub fn new(filter: String, sort_mode: SortMode) -> (r: Session)
        ensures
            r@ == (SessionView {
                filter: filter@,
                tag_filter: None,
                add_input: None,
                input_mode: InputMode::Browse,
                show_help: false,
                should_quit: false,
                sort_mode,
            }),
    {
        Session {
            filter,
            tag_filter: None,
            add_input: None,
            input_mode: InputMode::Browse,
            show_help: false,
            should_quit: false,
            sort_mode,
        }
    }

    /// Applies an action to the session (see `step_spec`) and says what is
    /// left to do.
    pub fn apply(&mut self, a: Action) -> (r: Followup)
        ensures
            (final(self)@, r) == step_spec(old(self)@, a),
    {
        match a {
            Action::DismissHelp => {
                self.show_help = false;
                Followup::Done
            },
            Action::ShowHelp => {
                self.show_help = true;
                Followup::Done
            },
            Action::Quit => {
                self.should_quit = true;
                Followup::Done
            },
            Action::EnterSearch => {
                self.input_mode = InputMode::Search;
                Followup::Done
            },
            Action::LeaveSearch => {
                self.input_mode = InputMode::Browse;
                Followup::Done
            },
            Action::StartAdd => {
                self.add_input = Some(string_of(&Vec::new()));
                Followup::Done
            },
            Action::CancelAdd => {
                self.add_input = None;
                Followup::Done
            },
            Action::AddChar(c) => {
                let next = match &self.add_input {
                    Some(t) => Some(push_char(t, c)),
                    None => None,
                };
                self.add_input = next;
                Followup::Done
            },
            Action::AddBackspace => {
                let next = match &self.add_input {
                    Some(t) => Some(pop_char(t)),
                    None => None,
                };
                self.add_input = next;
                Followup::Done
            },
            Action::AddToSearch => {
                self.input_mode = InputMode::Search;
                match self.add_input.take() {
                    Some(t) => {
                        self.filter = t;
                        Followup::Refilter
                    },
                    None => Followup::Done,
                }
            },
            Action::SearchToAdd => {
                let mut text = string_of(&Vec::new());
                std::mem::swap(&mut text, &mut self.filter);
                self.add_input = Some(text);
                self.input_mode = InputMode::Browse;
                Followup::Refilter
            },
            Action::SearchChar(c) => {
                self.filter = push_char(&self.filter, c);
                Followup::Refilter
            },
            Action::SearchBackspace => {
                self.filter = pop_char(&self.filter);
                Followup::Refilter
            },
            Action::ClearFilters => {
                self.filter = string_of(&Vec::new());
                self.tag_filter = None;
                Followup::Refilter
            },
            Action::CycleSort => {
                self.sort_mode = self.sort_mode.next();
                Followup::Refilter
            },
            _ => Followup::Elsewhere,
        }
    }
}

} // verus!
