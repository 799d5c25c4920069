//! The working-directory view: its popups and the files that the agent
//! changed.
use vstd::prelude::*;
use crate::git::{dec_repr, dec_repr_of};
use crate::keys::{Key, Modifiers};
use crate::text::{chars_of, occurs_at_exec, starts_with, str_eq, string_of, utf8_len, utf8_len_exceeds};
use crate::chat::join_with_newlines;
use crate::git::{join_lines, string_seq_view};
use std::collections::HashSet;

verus! {

/// A file that the agent changed, with its diff, and whether the diff is
/// unfolded.
#[derive(Debug)]
pub struct FileChange {
    pub path: String,
    pub diff: String,
    pub expanded: bool,
}

impl Clone for FileChange {
    fn clone(&self) -> (r: FileChange)
        ensures
            r == *self,
    {
        FileChange { path: self.path.clone(), diff: self.diff.clone(), expanded: self.expanded }
    }
}

/// The popups of the working-directory view.
#[derive(Debug)]
pub enum Popup {
    GetApiKeys,
    /// A turn of the agent, by its place and its id.
    Turn(usize, u64),
    Logs,
    /// A log, by its title and id.
    Log(String, u64),
    Summaries,
    Summary(String),
    FileChanges(Vec<FileChange>),
    Help,
    /// An image, by its id.
    Image(u64),
    Diff,
    TokenUsage,
    Prompt,
    Instruction,
    Config,
    Reset,
    Find { re: Option<String>, error: Option<String> },
    /// Asks whether to roll back to a turn, by its id and title.
    AskRollBack { id: u64, title: String },
    AskQuit,
}

fn clone_changes(v: &Vec<FileChange>) -> (r: Vec<FileChange>)
    ensures
        r@ == v@,
{
    let mut r: Vec<FileChange> = Vec::new();
    let mut i: usize = 0;
    while i < v.len()
        invariant
            i <= v@.len(),
            r@ == v@.take(i as int),
        decreases v@.len() - i,
    {
        r.push(v[i].clone());
        assert(v@.take(i + 1) =~= v@.take(i as int).push(v@[i as int]));
        i += 1;
    }
    assert(v@.take(v@.len() as int) =~= v@);
    r
}

fn clone_text(o: &Option<String>) -> (r: Option<String>)
    ensures
        r == *o,
{
    match o {
        Some(s) => Some(s.clone()),
        None => None,
    }
}

/// Two popups are the same: equal, where a list of file changes counts by
/// its items.
pub open spec fn same_popup(a: Popup, b: Popup) -> bool {
    match (a, b) {
        (Popup::FileChanges(x), Popup::FileChanges(y)) => x@ == y@,
        _ => a == b,
    }
}

impl Clone for Popup {
    fn clone(&self) -> (r: Popup)
        ensures
            same_popup(r, *self),
    {
        match self {
            Popup::GetApiKeys => Popup::GetApiKeys,
            Popup::Turn(i, id) => Popup::Turn(*i, *id),
            Popup::Logs => Popup::Logs,
            Popup::Log(title, id) => Popup::Log(title.clone(), *id),
            Popup::Summaries => Popup::Summaries,
            Popup::Summary(s) => Popup::Summary(s.clone()),
            Popup::FileChanges(v) => Popup::FileChanges(clone_changes(v)),
            Popup::Help => Popup::Help,
            Popup::Image(id) => Popup::Image(*id),
            Popup::Diff => Popup::Diff,
            Popup::TokenUsage => Popup::TokenUsage,
            Popup::Prompt => Popup::Prompt,
            Popup::Instruction => Popup::Instruction,
            Popup::Config => Popup::Config,
            Popup::Reset => Popup::Reset,
            Popup::Find { re, error } => Popup::Find { re: clone_text(re), error: clone_text(error) },
            Popup::AskRollBack { id, title } => Popup::AskRollBack { id: *id, title: title.clone() },
            Popup::AskQuit => Popup::AskQuit,
        }
    }
}

impl Popup {
    /// Whether the popup holds a one-line text input.
    pub fn has_short_text_input(&self) -> (r: bool)
        ensures
            r == self is Find,
    {
        match self {
            Popup::Find { .. } => true,
            _ => false,
        }
    }

    /// Whether the popup holds a multi-line text input.
    pub fn has_long_text_input(&self) -> (r: bool)
        ensures
            r == self is Reset,
    {
        match self {
            Popup::Reset => true,
            _ => false,
        }
    }
}

/// The turn that is selected after moving the selection by `offset` turns
/// (from before the first turn when none is selected), kept within the
/// history of `history_len` turns (the first turn when it is empty).
pub open spec fn spec_select_turn(selected: Option<usize>, offset: i32, history_len: usize) -> int {
    let from: int = match selected {
        Some(i) => i as int,
        None => -1,
    };
    let moved = from + offset;
    let capped = if moved < history_len - 1 { moved } else { history_len - 1 };
    if capped > 0 { capped } else { 0 }
}

/// Moves the selection of a turn by `offset` turns (see `spec_select_turn`).
pub fn select_turn(selected: Option<usize>, offset: i32, history_len: usize) -> (r: usize)
    requires
        selected matches Some(i) ==> i <= i32::MAX,
        history_len <= i32::MAX,
        i32::MIN <= (match selected {
            Some(i) => i as int,
            None => -1,
        }) + offset <= i32::MAX,
    ensures
        r == spec_select_turn(selected, offset, history_len),
{
    let from: i32 = match selected {
        Some(i) => i as i32,
        None => -1,
    };
    let moved = from + offset;
    let last = history_len as i32 - 1;
    let capped = if moved < last { moved } else { last };
    if capped > 0 {
        capped as usize
    } else {
        0
    }
}

/// What the key bindings of the working-directory view look at.
pub struct KeyContext {
    pub popup: Option<Popup>,
    pub has_prev_popup: bool,
    /// The agent waits for the user's answer to a question.
    pub llm_request: bool,
    pub interrupt_focused: bool,
    /// The ids of the turns of the history, in order.
    pub history: Vec<u64>,
    pub selected_turn: Option<usize>,
    pub is_paused: bool,
    pub has_copy_buffer: bool,
    /// The shown turn changed a file, whose diff can be shown.
    pub has_text_diff: bool,
    /// Where the shown turn's result is: a directory, and a file in it.
    pub turn_result_path: Option<(String, Option<String>)>,
    pub find_pattern: Option<String>,
    /// The id of the loaded turn and of the log of its model's answer.
    pub loaded_turn_log: Option<(u64, u64)>,
    pub working_dir: String,
}

impl KeyContext {
    /// The list of turns takes the clicks and keys: no popup, no question of
    /// the agent, no focus in the interrupt editor.
    pub open spec fn can_click_turn_entry(&self) -> bool {
        self.popup is None && !self.llm_request && !self.interrupt_focused
    }

    /// The popup can be closed: there is one, not the one that asks for API
    /// keys, and the agent asks nothing.
    pub open spec fn can_close_popup(&self) -> bool {
        !self.llm_request && !(self.popup is None || self.popup matches Some(Popup::GetApiKeys))
    }
}

/// What a key press asks of the working-directory view.
#[derive(Debug)]
pub enum KeyAction {
    Nothing,
    BackPopup,
    ClosePopup,
    OpenPopup { curr: Popup, prev: Option<Popup> },
    /// Select this turn, and scroll to it.
    SelectTurn(usize),
    /// Scroll the popup to its top or to its bottom.
    SnapPopup { bottom: bool },
    FocusInterrupt,
    Pause,
    Resume,
    CopyPopupContent,
    OpenBrowser { dir: String, file: Option<String> },
    ToggleTurnVisibility(u64),
    RollBack(u64),
    KillBeProcess,
    ZoomIn,
    ZoomOut,
}

/// `r` opens `curr`, and keeps `prev` to go back to.
pub open spec fn opened(r: KeyAction, curr: Popup, prev: Option<Popup>) -> bool {
    r matches KeyAction::OpenPopup { curr: c, prev: p } && c == curr && match (p, prev) {
        (Some(x), Some(y)) => same_popup(x, y),
        (None, None) => true,
        _ => false,
    }
}

/// The key bindings of the working-directory view (its help message lists
/// them): what `r` must be for `key` with the modifiers `m`.
pub open spec fn reacts(r: KeyAction, c: KeyContext, key: Key, m: Modifiers) -> bool {
    let click = c.can_click_turn_entry();
    let n = c.history@.len();
    match key {
        Key::Backspace => if m.none() && c.popup is Some && c.has_prev_popup {
            r is BackPopup
        } else {
            r is Nothing
        },
        Key::Escape => if m.none() && c.can_close_popup() {
            r is ClosePopup
        } else if m.none() && click {
            opened(r, Popup::AskQuit, None)
        } else {
            r is Nothing
        },
        Key::ArrowUp => if !m.alt && !m.shift && click {
            r == KeyAction::SelectTurn(
                spec_select_turn(c.selected_turn, if m.ctrl { -10i32 } else { -1i32 }, n as usize) as usize,
            )
        } else if m.ctrl_only() && c.popup is Some {
            r == KeyAction::SnapPopup { bottom: false }
        } else {
            r is Nothing
        },
        Key::ArrowDown => if !m.alt && !m.shift && click {
            r == KeyAction::SelectTurn(
                spec_select_turn(c.selected_turn, if m.ctrl { 10i32 } else { 1i32 }, n as usize) as usize,
            )
        } else if m.ctrl_only() && c.popup is Some {
            r == KeyAction::SnapPopup { bottom: true }
        } else {
            r is Nothing
        },
        Key::ArrowLeft => if m.none() && (c.popup matches Some(Popup::Turn(i, _)) && i >= 1) {
            let i = c.popup->Some_0->Turn_0;
            opened(r, Popup::Turn((i - 1) as usize, c.history@[i - 1]), None)
        } else {
            r is Nothing
        },
        Key::ArrowRight => if m.none() && (c.popup matches Some(Popup::Turn(i, _)) && i + 1 < n) {
            let i = c.popup->Some_0->Turn_0;
            opened(r, Popup::Turn((i + 1) as usize, c.history@[i + 1]), None)
        } else {
            r is Nothing
        },
        Key::Enter => if m.none() && click && (c.selected_turn matches Some(i) && i < n) {
            let i = c.selected_turn->Some_0;
            opened(r, Popup::Turn(i, c.history@[i as int]), None)
        } else {
            r is Nothing
        },
        Key::Tab => if m.ctrl_only() && click {
            r is FocusInterrupt
        } else {
            r is Nothing
        },
        Key::Space => if m.none() && click {
            if c.is_paused {
                r is Resume
            } else {
                r is Pause
            }
        } else {
            r is Nothing
        },
        Key::Character(ch) => if !m.ctrl_only() {
            r is Nothing
        } else if ch == 'c' {
            if click {
                opened(r, Popup::Config, None)
            } else if c.has_copy_buffer {
                r is CopyPopupContent
            } else {
                r is Nothing
            }
        } else if ch == 'd' {
            if c.popup matches Some(Popup::Turn(_, _)) && c.has_text_diff {
                opened(r, Popup::Diff, c.popup)
            } else {
                r is Nothing
            }
        } else if ch == 'f' {
            if click {
                opened(r, Popup::Find { re: c.find_pattern, error: None }, None)
            } else {
                r is Nothing
            }
        } else if ch == 'g' {
            if click {
                r matches KeyAction::OpenPopup { curr: Popup::FileChanges(v), prev: None } && v@.len()
                    == 0
            } else {
                r is Nothing
            }
        } else if ch == 'o' {
            if click {
                r matches KeyAction::OpenBrowser { dir, file: None } && dir == c.working_dir
            } else if c.popup matches Some(Popup::Turn(_, _)) && c.turn_result_path is Some {
                r == KeyAction::OpenBrowser {
                    dir: c.turn_result_path->Some_0.0,
                    file: c.turn_result_path->Some_0.1,
                }
            } else {
                r is Nothing
            }
        } else if ch == 's' {
            if click {
                opened(r, Popup::Summaries, None)
            } else if c.loaded_turn_log is Some {
                r matches KeyAction::OpenPopup { curr: Popup::Log(title, log), prev } && title@ == dec_repr(
                    c.loaded_turn_log->Some_0.0 as nat,
                ) && log == c.loaded_turn_log->Some_0.1 && match (prev, c.popup) {
                    (Some(x), Some(y)) => same_popup(x, y),
                    (None, None) => true,
                    _ => false,
                }
            } else {
                r is Nothing
            }
        } else if ch == 'v' {
            if click && (c.selected_turn matches Some(i) && i < n) {
                r == KeyAction::ToggleTurnVisibility(c.history@[c.selected_turn->Some_0 as int])
            } else {
                r is Nothing
            }
        } else if ch == 'y' {
            if c.popup matches Some(Popup::AskRollBack { id, .. }) && !c.llm_request {
                r == KeyAction::RollBack(c.popup->Some_0->AskRollBack_id)
            } else if c.popup matches Some(Popup::AskQuit) && !c.llm_request {
                r is KillBeProcess
            } else {
                r is Nothing
            }
        } else if ch == '-' {
            r is ZoomOut
        } else if ch == '=' {
            r is ZoomIn
        } else if click && (ch == 'h' || ch == 'l' || ch == 'r' || ch == 'q' || ch == 'u') {
            opened(
                r,
                if ch == 'h' {
                    Popup::Help
                } else if ch == 'l' {
                    Popup::Logs
                } else if ch == 'r' {
                    Popup::Reset
                } else if ch == 'q' {
                    Popup::AskQuit
                } else {
                    Popup::TokenUsage
                },
                None,
            )
        } else {
            r is Nothing
        },
        _ => r is Nothing,
    }
}

fn open(curr: Popup) -> (r: KeyAction)
    ensures
        opened(r, curr, None),
{
    KeyAction::OpenPopup { curr, prev: None }
}

fn prev_of(popup: &Option<Popup>) -> (r: Option<Popup>)
    ensures
        match (r, *popup) {
            (Some(x), Some(y)) => same_popup(x, y),
            (None, None) => true,
            _ => false,
        },
{
    match popup {
        Some(p) => Some(p.clone()),
        None => None,
    }
}

/// What a key press asks of the working-directory view.
pub fn key_action(c: &KeyContext, key: Key, m: Modifiers) -> (r: KeyAction)
    requires
        c.history@.len() <= i32::MAX,
        c.selected_turn matches Some(i) ==> i + 10 <= i32::MAX,
        c.popup matches Some(Popup::Turn(i, _)) ==> i < c.history@.len(),
    ensures
        reacts(r, *c, key, m),
{
    let click = c.popup.is_none() && !c.llm_request && !c.interrupt_focused;
    let none = !m.ctrl && !m.alt && !m.shift;
    let ctrl_only = m.ctrl && !m.alt && !m.shift;
    let n = c.history.len();
    match key {
        Key::Backspace => if none && c.popup.is_some() && c.has_prev_popup {
            KeyAction::BackPopup
        } else {
            KeyAction::Nothing
        },
        Key::Escape => {
            let can_close = !c.llm_request && match &c.popup {
                None | Some(Popup::GetApiKeys) => false,
                _ => true,
            };
            if none && can_close {
                KeyAction::ClosePopup
            } else if none && click {
                open(Popup::AskQuit)
            } else {
                KeyAction::Nothing
            }
        },
        Key::ArrowUp | Key::ArrowDown => {
            let down = match key {
                Key::ArrowDown => true,
                _ => false,
            };
            if !m.alt && !m.shift && click {
                let offset: i32 = if down {
                    if m.ctrl { 10 } else { 1 }
                } else {
                    if m.ctrl { -10 } else { -1 }
                };
                KeyAction::SelectTurn(select_turn(c.selected_turn, offset, n))
            } else if ctrl_only && c.popup.is_some() {
                KeyAction::SnapPopup { bottom: down }
            } else {
                KeyAction::Nothing
            }
        },
        Key::ArrowLeft => match &c.popup {
            Some(Popup::Turn(i, _)) if none && *i >= 1 => open(Popup::Turn(*i - 1, c.history[*i - 1])),
            _ => KeyAction::Nothing,
        },
        Key::ArrowRight => match &c.popup {
            Some(Popup::Turn(i, _)) if none && *i + 1 < n => open(Popup::Turn(*i + 1, c.history[*i + 1])),
            _ => KeyAction::Nothing,
        },
        Key::Enter => match c.selected_turn {
            Some(i) if none && click && i < n => open(Popup::Turn(i, c.history[i])),
            _ => KeyAction::Nothing,
        },
        Key::Tab => if ctrl_only && click {
            KeyAction::FocusInterrupt
        } else {
            KeyAction::Nothing
        },
        Key::Space => if none && click {
            if c.is_paused {
                KeyAction::Resume
            } else {
                KeyAction::Pause
            }
        } else {
            KeyAction::Nothing
        },
        Key::Character(ch) => {
            if !ctrl_only {
                return KeyAction::Nothing;
            }
            let on_turn = match &c.popup {
                Some(Popup::Turn(_, _)) => true,
                _ => false,
            };
            if ch == 'c' {
                if click {
                    open(Popup::Config)
                } else if c.has_copy_buffer {
                    KeyAction::CopyPopupContent
                } else {
                    KeyAction::Nothing
                }
            } else if ch == 'd' {
                if on_turn && c.has_text_diff {
                    KeyAction::OpenPopup { curr: Popup::Diff, prev: prev_of(&c.popup) }
                } else {
                    KeyAction::Nothing
                }
            } else if ch == 'f' {
                if click {
                    let re = match &c.find_pattern {
                        Some(p) => Some(p.clone()),
                        None => None,
                    };
                    open(Popup::Find { re, error: None })
                } else {
                    KeyAction::Nothing
                }
            } else if ch == 'g' {
                if click {
                    KeyAction::OpenPopup { curr: Popup::FileChanges(Vec::new()), prev: None }
                } else {
                    KeyAction::Nothing
                }
            } else if ch == 'o' {
                if click {
                    KeyAction::OpenBrowser { dir: c.working_dir.clone(), file: None }
                } else {
                    match &c.turn_result_path {
                        Some((dir, file)) if on_turn => {
                            let file = match file {
                                Some(f) => Some(f.clone()),
                                None => None,
                            };
                            KeyAction::OpenBrowser { dir: dir.clone(), file }
                        },
                        _ => KeyAction::Nothing,
                    }
                }
            } else if ch == 's' {
                if click {
                    open(Popup::Summaries)
                } else {
                    match c.loaded_turn_log {
                        Some((turn, log)) => {
                            let title = string_of(&dec_repr_of(turn));
                            KeyAction::OpenPopup { curr: Popup::Log(title, log), prev: prev_of(&c.popup) }
                        },
                        None => KeyAction::Nothing,
                    }
                }
            } else if ch == 'v' {
                match c.selected_turn {
                    Some(i) if click && i < n => KeyAction::ToggleTurnVisibility(c.history[i]),
                    _ => KeyAction::Nothing,
                }
            } else if ch == 'y' {
                match &c.popup {
                    Some(Popup::AskRollBack { id, .. }) if !c.llm_request => KeyAction::RollBack(*id),
                    Some(Popup::AskQuit) if !c.llm_request => KeyAction::KillBeProcess,
                    _ => KeyAction::Nothing,
                }
            } else if ch == '-' {
                KeyAction::ZoomOut
            } else if ch == '=' {
                KeyAction::ZoomIn
            } else if click && ch == 'h' {
                open(Popup::Help)
            } else if click && ch == 'l' {
                open(Popup::Logs)
            } else if click && ch == 'r' {
                open(Popup::Reset)
            } else if click && ch == 'q' {
                open(Popup::AskQuit)
            } else if click && ch == 'u' {
                open(Popup::TokenUsage)
            } else {
                KeyAction::Nothing
            }
        },
        _ => KeyAction::Nothing,
    }
}

#[verifier::external_type_specification]
#[verifier::external_body]
pub struct ExRegex(regex::Regex);

/// The message (`{:?}` of the error) with which `regex::Regex::new` refuses
/// a pattern, or `None` where it builds.
pub uninterp spec fn regex_error(p: Seq<char>) -> Option<Seq<char>>;

/// The byte range of the leftmost-first match of the regex of `p` in `t`,
/// as `Regex::find` gives it, or `None` where it does not match.
pub uninterp spec fn regex_first_match(p: Seq<char>, t: Seq<char>) -> Option<(usize, usize)>;

/// A pattern of the search over the turns, and its regex. Only
/// `compile_find_regex` makes one, so the regex is always the pattern's.
pub struct FindRegex {
    pattern: String,
    regex: regex::Regex,
}

impl FindRegex {
    pub closed spec fn pattern(&self) -> Seq<char> {
        self.pattern@
    }

    pub fn pattern_text(&self) -> (r: String)
        ensures
            r@ == self.pattern(),
    {
        self.pattern.clone()
    }
}

/// `regex::Regex::new` (regex crate), its error printed with `{:?}`: the
/// contract claims only that the outcome is the named one of the pattern.
#[verifier::external_body]
fn compile_find_regex(p: &str) -> (r: Result<FindRegex, String>)
    ensures
        match r {
            Ok(re) => regex_error(p@) is None && re.pattern() == p@,
            Err(e) => regex_error(p@) == Some(e@),
        },
{
    match regex::Regex::new(p) {
        Ok(regex) => Ok(FindRegex { pattern: p.to_string(), regex }),
        Err(e) => Err(format!("{e:?}")),
    }
}

/// `Regex::find` (regex crate), the match taken by its start and end: the
/// contract claims only that the result is the named match.
#[verifier::external_body]
fn regex_find(re: &FindRegex, t: &str) -> (r: Option<(usize, usize)>)
    ensures
        r == regex_first_match(re.pattern(), t@),
{
    re.regex.find(t).map(|m| (m.start(), m.end()))
}

/// The search over the titles of the turns: its pattern, and for each
/// title, in order, where the pattern first matches it.
pub struct FindState {
    pub pattern: Option<FindRegex>,
    pub result: Vec<Option<(usize, usize)>>,
}

/// The result is the first match of the pattern in each title, in order;
/// no pattern matches nothing.
pub open spec fn find_result_of(pattern: Option<FindRegex>, titles: Seq<String>, result: Seq<Option<(usize, usize)>>) -> bool {
    match pattern {
        None => result.len() == 0,
        Some(re) => result.len() == titles.len() && forall|k: int|
            0 <= k < titles.len() ==> #[trigger] result[k] == regex_first_match(re.pattern(), titles[k]@),
    }
}

/// What a search asks of the view.
pub enum FindOutcome {
    /// The popup closes; the state holds the new search.
    Closed,
    /// The pattern is refused: the popup opens again with it and the error.
    Reopen(Popup),
}

impl FindState {
    pub fn new() -> (r: FindState)
        ensures
            r.pattern is None,
            r.result@.len() == 0,
    {
        FindState { pattern: None, result: Vec::new() }
    }

    /// Finds the pattern again in each title.
    pub fn update_find_result(&mut self, titles: &Vec<String>)
        ensures
            final(self).pattern == old(self).pattern,
            find_result_of(final(self).pattern, titles@, final(self).result@),
    {
        let mut result: Vec<Option<(usize, usize)>> = Vec::new();
        match &self.pattern {
            None => {},
            Some(re) => {
                let mut i: usize = 0;
                while i < titles.len()
                    invariant
                        i <= titles@.len(),
                        result@.len() == i,
                        forall|k: int|
                            0 <= k < i ==> #[trigger] result@[k] == regex_first_match(re.pattern(), titles@[k]@),
                    decreases titles@.len() - i,
                {
                    let m = regex_find(re, titles[i].as_str());
                    result.push(m);
                    i += 1;
                }
            },
        }
        self.result = result;
    }
}

/// A search for `pattern` over the titles: an empty pattern ends the
/// search; a valid one becomes the search and each title's first match is
/// found; an invalid one leaves the state as it was and opens the popup
/// again with the pattern and the error.
pub fn apply_find(state: &mut FindState, pattern: String, titles: &Vec<String>) -> (r: FindOutcome)
    ensures
        pattern@.len() == 0 ==> r is Closed && final(state).pattern is None && final(state).result@.len()
            == 0,
        pattern@.len() > 0 ==> match regex_error(pattern@) {
            None => r is Closed && (final(state).pattern matches Some(re) && re.pattern() == pattern@)
                && find_result_of(final(state).pattern, titles@, final(state).result@),
            Some(e) => (r matches FindOutcome::Reopen(Popup::Find { re: Some(p), error: Some(m) })
                && p == pattern && m@ == e) && final(state).pattern == old(state).pattern
                && final(state).result == old(state).result,
        },
{
    if pattern.as_str().is_empty() {
        state.pattern = None;
        state.update_find_result(titles);
        return FindOutcome::Closed;
    }
    match compile_find_regex(pattern.as_str()) {
        Ok(re) => {
            state.pattern = Some(re);
            state.update_find_result(titles);
            FindOutcome::Closed
        },
        Err(e) => FindOutcome::Reopen(Popup::Find { re: Some(pattern), error: Some(e) }),
    }
}

/// A view that can open an image in a popup.
pub trait ImagePopup {
    type Message;

    /// The message that opens the image with this id.
    fn open_image_popup(&self, id: u64) -> Self::Message;
}

/// Which turns the history hides, and which it pins, by turn id.
pub struct TurnVisibility {
    pub hidden_turns: HashSet<u64>,
    pub pinned_turns: HashSet<u64>,
}

/// The next visibility of a turn: a shown turn is hidden, a hidden one
/// pinned, a pinned one shown again.
pub open spec fn toggled_visibility(hidden: Set<u64>, pinned: Set<u64>, id: u64) -> (Set<u64>, Set<u64>) {
    if hidden.contains(id) {
        (hidden.remove(id), pinned.insert(id))
    } else if pinned.contains(id) {
        (hidden, pinned.remove(id))
    } else {
        (hidden.insert(id), pinned)
    }
}

impl TurnVisibility {
    pub open spec fn view(&self) -> (Set<u64>, Set<u64>) {
        (self.hidden_turns@, self.pinned_turns@)
    }

    /// Every turn is shown.
    pub fn new() -> (r: TurnVisibility)
        ensures
            r.view() == (Set::<u64>::empty(), Set::<u64>::empty()),
    {
        TurnVisibility { hidden_turns: HashSet::new(), pinned_turns: HashSet::new() }
    }

    /// Moves the turn `id` on to its next visibility.
    pub fn toggle(&mut self, id: u64)
        ensures
            final(self).view() == toggled_visibility(old(self).hidden_turns@, old(self).pinned_turns@, id),
    {
        broadcast use vstd::std_specs::hash::group_hash_axioms;

        let was_hidden = self.hidden_turns.remove(&id);
        let was_pinned = self.pinned_turns.remove(&id);
        if was_hidden {
            self.pinned_turns.insert(id);
        } else if !was_pinned {
            self.hidden_turns.insert(id);
        }
        proof {
            if was_hidden {
                assert(self.pinned_turns@ =~= old(self).pinned_turns@.insert(id));
            } else if was_pinned {
                assert(self.hidden_turns@ =~= old(self).hidden_turns@);
            } else {
                assert(self.hidden_turns@ =~= old(self).hidden_turns@.insert(id));
                assert(self.pinned_turns@ =~= old(self).pinned_turns@);
            }
        }
    }
}

/// Law: the visibility of a turn goes round in three steps: shown, hidden,
/// pinned, shown again, and the other turns are left as they were.
pub proof fn law_visibility_cycles(hidden: Set<u64>, pinned: Set<u64>, id: u64)
    requires
        !(hidden.contains(id) && pinned.contains(id)),
    ensures
        ({
            let one = toggled_visibility(hidden, pinned, id);
            let two = toggled_visibility(one.0, one.1, id);
            let three = toggled_visibility(two.0, two.1, id);
            &&& three == (hidden, pinned)
            &&& forall|x: u64|
                x != id ==> (one.0.contains(x) == hidden.contains(x) && one.1.contains(x)
                    == pinned.contains(x))
        }),
{
    let one = toggled_visibility(hidden, pinned, id);
    let two = toggled_visibility(one.0, one.1, id);
    let three = toggled_visibility(two.0, two.1, id);
    if hidden.contains(id) {
        assert(three.0 =~= hidden);
        assert(three.1 =~= pinned);
    } else if pinned.contains(id) {
        assert(three.0 =~= hidden);
        assert(three.1 =~= pinned);
    } else {
        assert(three.0 =~= hidden);
        assert(three.1 =~= pinned);
    }
}

/// The user's answer to a question of the model.
#[derive(Clone, Debug, PartialEq, Eq)]
pub enum UserResponse {
    Answer(String),
    Reject,
}

/// What the view does after a look at the model's question.
#[derive(Clone, Copy, Debug, PartialEq, Eq, Structural)]
pub enum QuestionStep {
    Nothing,
    /// A new question: close the popup, restart the answer timer and focus
    /// the answer editor; the rest of the frame is skipped.
    Ask,
    /// The question was withdrawn: close the popup.
    Withdrawn,
}

/// The model's question to the user and what became of the earlier ones.
pub struct LlmQuestion {
    /// The question that waits for an answer: its id and its text.
    pub llm_request: Option<(u64, String)>,
    /// The questions answered or dismissed already.
    pub processed_llm_requests: HashSet<u64>,
    /// The answer to hand to the agent at the next frame.
    pub user_response: Option<(u64, UserResponse)>,
}

pub open spec fn request_view(r: Option<(u64, String)>) -> Option<(u64, Seq<char>)> {
    match r {
        Some((id, t)) => Some((id, t@)),
        None => None,
    }
}

/// The question after a look at what the model asks now (`fetched`): a
/// question not processed yet is taken, and asked if none was waiting; a
/// processed one changes nothing; with no question, one that was waiting is
/// withdrawn.
pub open spec fn question_step(
    waiting: Option<(u64, Seq<char>)>,
    processed: Set<u64>,
    fetched: Option<(u64, Seq<char>)>,
) -> (Option<(u64, Seq<char>)>, QuestionStep) {
    match fetched {
        Some((id, _)) => if processed.contains(id) {
            (waiting, QuestionStep::Nothing)
        } else if waiting is None {
            (fetched, QuestionStep::Ask)
        } else {
            (fetched, QuestionStep::Nothing)
        },
        None => if waiting is Some {
            (None, QuestionStep::Withdrawn)
        } else {
            (None, QuestionStep::Nothing)
        },
    }
}

impl LlmQuestion {
    /// No question yet.
    pub fn new() -> (r: LlmQuestion)
        ensures
            r.llm_request is None,
            r.processed_llm_requests@ == Set::<u64>::empty(),
            r.user_response is None,
    {
        LlmQuestion { llm_request: None, processed_llm_requests: HashSet::new(), user_response: None }
    }

    /// Takes what the model asks now (see `question_step`).
    pub fn on_llm_request(&mut self, fetched: Option<(u64, String)>) -> (r: QuestionStep)
        ensures
            (request_view(final(self).llm_request), r) == question_step(
                request_view(old(self).llm_request),
                old(self).processed_llm_requests@,
                request_view(fetched),
            ),
            final(self).processed_llm_requests@ == old(self).processed_llm_requests@,
            final(self).user_response == old(self).user_response,
    {
        broadcast use vstd::std_specs::hash::group_hash_axioms;

        match fetched {
            Some((id, text)) => {
                if self.processed_llm_requests.contains(&id) {
                    QuestionStep::Nothing
                } else if self.llm_request.is_none() {
                    self.llm_request = Some((id, text));
                    QuestionStep::Ask
                } else {
                    self.llm_request = Some((id, text));
                    QuestionStep::Nothing
                }
            },
            None => {
                if self.llm_request.is_some() {
                    self.llm_request = None;
                    QuestionStep::Withdrawn
                } else {
                    QuestionStep::Nothing
                }
            },
        }
    }

    /// Answers the waiting question with `text` (`Some`), or dismisses it
    /// (`None`): it is no longer waiting, it counts as processed, and the
    /// response waits for the next frame.
    pub fn respond(&mut self, text: Option<String>)
        requires
            old(self).llm_request is Some,
        ensures
            final(self).llm_request is None,
            final(self).processed_llm_requests@ == old(self).processed_llm_requests@.insert(
                old(self).llm_request.unwrap().0,
            ),
            final(self).user_response == Some(
                (
                    old(self).llm_request.unwrap().0,
                    match text {
                        Some(t) => UserResponse::Answer(t),
                        None => UserResponse::Reject,
                    },
                ),
            ),
    {
        broadcast use vstd::std_specs::hash::group_hash_axioms;

        let id = match &self.llm_request {
            Some((id, _)) => *id,
            None => 0,
        };
        self.llm_request = None;
        self.processed_llm_requests.insert(id);
        self.user_response = Some(
            (
                id,
                match text {
                    Some(t) => UserResponse::Answer(t),
                    None => UserResponse::Reject,
                },
            ),
        );
    }
}

/// Law: a question that was answered or dismissed is not asked again, nor
/// does it take the place of the one that waits.
pub proof fn law_processed_question_not_asked_again(
    waiting: Option<(u64, Seq<char>)>,
    processed: Set<u64>,
    id: u64,
    text: Seq<char>,
)
    ensures
        question_step(waiting, processed.insert(id), Some((id, text))) == (
            waiting,
            QuestionStep::Nothing,
        ),
{
}

/// The most bytes of a log that the log popup shows.
pub const LOG_DISPLAY_MAX: usize = 32768;

/// The text that stands in for a log too long to show.
pub open spec fn log_too_long_note() -> Seq<char> {
    "The log is too long to display. Copy the log and paste it to your text editor to see the log."@
}

/// What the log popup shows of a log with the given file extension: the
/// text shown, its syntax, and the text that Ctrl+C copies. A log of more
/// than `LOG_DISPLAY_MAX` bytes is replaced by a note, shown as plain text;
/// the copy is always the whole log.
pub fn log_display(log: String, extension: String) -> (r: (String, String, String))
    ensures
        r.2@ == log@,
        utf8_len(log@) > LOG_DISPLAY_MAX ==> r.0@ == log_too_long_note() && r.1@ == "txt"@,
        utf8_len(log@) <= LOG_DISPLAY_MAX ==> r.0@ == log@ && r.1@ == extension@,
{
    let copy = log.clone();
    if utf8_len_exceeds(log.as_str(), LOG_DISPLAY_MAX) {
        let note = String::from_str(
            "The log is too long to display. Copy the log and paste it to your text editor to see the log.",
        );
        let txt = String::from_str("txt");
        proof {
            reveal_strlit(
                "The log is too long to display. Copy the log and paste it to your text editor to see the log.",
            );
            reveal_strlit("txt");
        }
        (note, txt, copy)
    } else {
        (log, extension, copy)
    }
}

/// What a turn's result changed of a file, as far as the turn popup shows
/// it: a write with its diff (if one was made), a patch with the diff of
/// each of its edits, or no file change.
pub enum TurnChange {
    Write(Option<String>),
    Patch(Vec<String>),
    Other,
}

/// The diff that the turn popup keeps for Ctrl+D: a write's diff, or the
/// diffs of a patch's edits, one after another on their own lines.
pub fn turn_text_diff(change: TurnChange) -> (r: Option<String>)
    ensures
        match change {
            TurnChange::Write(d) => r == d,
            TurnChange::Patch(diffs) => r matches Some(t) && t@ == join_lines(string_seq_view(diffs@)),
            TurnChange::Other => r is None,
        },
{
    match change {
        TurnChange::Write(d) => d,
        TurnChange::Patch(diffs) => Some(join_with_newlines(&diffs)),
        TurnChange::Other => None,
    }
}

/// The changes with the first one at `path` folded or unfolded.
pub open spec fn toggled_change(changes: Seq<FileChange>, path: Seq<char>) -> Seq<FileChange> {
    if exists|i: int| 0 <= i < changes.len() && (#[trigger] changes[i]).path@ == path {
        let i = choose|i: int|
            0 <= i < changes.len() && (#[trigger] changes[i]).path@ == path && forall|j: int|
                0 <= j < i ==> changes[j].path@ != path;
        changes.update(i, FileChange { expanded: !changes[i].expanded, ..changes[i] })
    } else {
        changes
    }
}

/// A change under `logs/` (`log`) or elsewhere (`!log`) gets `expand`.
pub open spec fn expanded_all(c: FileChange, log: bool, expand: bool) -> FileChange {
    if starts_with(c.path@, "logs/"@) == log {
        FileChange { expanded: expand, ..c }
    } else {
        c
    }
}

/// What the working-directory view holds apart from the agent's files: its
/// popups, the search, the visibility of turns, the model's question and
/// what waits to be handed to the agent at the next frame.
pub struct ViewState {
    pub popup: Option<Popup>,
    /// The popup that Backspace goes back to.
    pub prev_popup: Option<Popup>,
    pub find: FindState,
    pub visibility: TurnVisibility,
    pub question: LlmQuestion,
    /// A pause (`Some(true)`) or a resume (`Some(false)`) for the agent.
    pub pause: Option<bool>,
    /// A question of the user for the agent, with its id.
    pub question_from_user: Option<(u64, String)>,
    pub is_interrupt_button_hovered: bool,
}

/// What the user does in the working-directory view.
pub enum ViewMessage {
    Pause,
    Resume,
    /// The user asks the agent something; `id` is a fresh random number.
    Interrupt { id: u64, question: String },
    ToggleTurnVisibility(u64),
    /// The user answers the model's question with this text.
    AnswerLlmRequest(String),
    DismissLlmRequest,
    ClosePopup,
    BackPopup,
    /// Folds or unfolds the diff of the change at this path.
    ExpandFileChange(String),
    /// Folds or unfolds the changes under `logs/` (`log`), or the others.
    ExpandAllFileChanges { log: bool, expand: bool },
}

/// What the caller does after a message.
#[derive(Debug)]
pub enum ViewAction {
    Nothing,
    /// Interrupts the agent and runs a frame now.
    InterruptAndTick,
    /// Clears the interrupt editor, interrupts the agent and runs a frame now.
    SendQuestion,
    /// Clears the answer editor.
    ClearAnswer,
    /// Clears what the popup showed and scrolls the turn list back.
    ClosePopup,
    /// Loads what this popup shows, now open again.
    Reopen(Popup),
}

fn toggle_change(changes: &mut Vec<FileChange>, path: &str)
    ensures
        final(changes)@ == toggled_change(old(changes)@, path@),
{
    let mut i: usize = 0;
    while i < changes.len()
        invariant
            i <= changes@.len(),
            changes@ == old(changes)@,
            forall|j: int| 0 <= j < i ==> changes@[j].path@ != path@,
        decreases changes@.len() - i,
    {
        if str_eq(changes[i].path.as_str(), path) {
            let c = FileChange {
                path: changes[i].path.clone(),
                diff: changes[i].diff.clone(),
                expanded: !changes[i].expanded,
            };
            proof {
                let k = choose|k: int|
                    0 <= k < changes@.len() && (#[trigger] changes@[k]).path@ == path@ && forall|j: int|
                        0 <= j < k ==> changes@[j].path@ != path@;
                if k < i {
                } else if k > i {
                    assert(changes@[i as int].path@ == path@);
                }
                assert(k == i);
            }
            changes.set(i, c);
            return;
        }
        i += 1;
    }
}

fn expand_all_changes(changes: &mut Vec<FileChange>, log: bool, expand: bool)
    ensures
        final(changes)@.len() == old(changes)@.len(),
        forall|k: int|
            0 <= k < old(changes)@.len() ==> #[trigger] final(changes)@[k] == expanded_all(
                old(changes)@[k],
                log,
                expand,
            ),
{
    let prefix = chars_of("logs/");
    proof {
        reveal_strlit("logs/");
    }
    let mut i: usize = 0;
    while i < changes.len()
        invariant
            i <= changes@.len(),
            changes@.len() == old(changes)@.len(),
            prefix@ == "logs/"@,
            forall|k: int| 0 <= k < i ==> #[trigger] changes@[k] == expanded_all(old(changes)@[k], log, expand),
            forall|k: int| i <= k < changes@.len() ==> #[trigger] changes@[k] == old(changes)@[k],
        decreases changes@.len() - i,
    {
        let path = chars_of(changes[i].path.as_str());
        if occurs_at_exec(&path, 0, &prefix) == log {
            let c = FileChange { path: changes[i].path.clone(), diff: changes[i].diff.clone(), expanded: expand };
            changes.set(i, c);
        }
        i += 1;
    }
}

impl ViewState {
    /// Takes a message of the user. `requires` leaves out an answer or a
    /// dismissal with no question waiting, which the view never sends.
    pub fn update(&mut self, message: ViewMessage) -> (r: ViewAction)
        requires
            message is AnswerLlmRequest || message is DismissLlmRequest ==> old(self).question.llm_request is Some,
        ensures
            match message {
                ViewMessage::Pause => r is InterruptAndTick && final(self).pause == Some(true),
                ViewMessage::Resume => r is Nothing && final(self).pause == Some(false),
                ViewMessage::Interrupt { id, question } => !final(self).is_interrupt_button_hovered && if question@.len() == 0 {
                    r is Nothing && final(self).question_from_user == old(self).question_from_user
                } else {
                    r is SendQuestion && final(self).question_from_user == Some((id, question))
                },
                ViewMessage::ToggleTurnVisibility(id) => r is InterruptAndTick && final(self).visibility.view()
                    == toggled_visibility(
                    old(self).visibility.hidden_turns@,
                    old(self).visibility.pinned_turns@,
                    id,
                ),
                ViewMessage::AnswerLlmRequest(text) => r is ClearAnswer && final(self).question.llm_request is None
                    && final(self).question.processed_llm_requests@ == old(self).question.processed_llm_requests@.insert(
                    old(self).question.llm_request.unwrap().0,
                ) && final(self).question.user_response == Some(
                    (old(self).question.llm_request.unwrap().0, UserResponse::Answer(text)),
                ),
                ViewMessage::DismissLlmRequest => r is ClearAnswer && final(self).question.llm_request is None
                    && final(self).question.processed_llm_requests@ == old(self).question.processed_llm_requests@.insert(
                    old(self).question.llm_request.unwrap().0,
                ) && final(self).question.user_response == Some(
                    (old(self).question.llm_request.unwrap().0, UserResponse::Reject),
                ),
                ViewMessage::ClosePopup => r is ClosePopup && final(self).popup is None
                    && final(self).prev_popup == old(self).prev_popup && if old(self).popup matches Some(Popup::Find { .. }) {
                    final(self).find.pattern is None && final(self).find.result@.len() == 0
                } else {
                    final(self).find == old(self).find
                },
                ViewMessage::BackPopup => match old(self).prev_popup {
                    Some(p) => (r matches ViewAction::Reopen(q) && same_popup(q, p)) && (final(self).popup matches Some(
                        q2,
                    ) && same_popup(q2, p)) && final(self).prev_popup is None,
                    None => r is Nothing && final(self).popup == old(self).popup && final(self).prev_popup is None,
                },
                ViewMessage::ExpandFileChange(path) => r is Nothing && match old(self).popup {
                    Some(Popup::FileChanges(cs)) => final(self).popup matches Some(Popup::FileChanges(ds))
                        && ds@ == toggled_change(cs@, path@),
                    _ => final(self).popup == old(self).popup,
                },
                ViewMessage::ExpandAllFileChanges { log, expand } => r is Nothing && match old(self).popup {
                    Some(Popup::FileChanges(cs)) => final(self).popup matches Some(Popup::FileChanges(ds))
                        && ds@.len() == cs@.len() && forall|k: int|
                        0 <= k < cs@.len() ==> #[trigger] ds@[k] == expanded_all(cs@[k], log, expand),
                    _ => final(self).popup == old(self).popup,
                },
            },
    {
        match message {
            ViewMessage::Pause => {
                self.pause = Some(true);
                ViewAction::InterruptAndTick
            },
            ViewMessage::Resume => {
                self.pause = Some(false);
                ViewAction::Nothing
            },
            ViewMessage::Interrupt { id, question } => {
                self.is_interrupt_button_hovered = false;
                if question.as_str().is_empty() {
                    ViewAction::Nothing
                } else {
                    self.question_from_user = Some((id, question));
                    ViewAction::SendQuestion
                }
            },
            ViewMessage::ToggleTurnVisibility(id) => {
                self.visibility.toggle(id);
                ViewAction::InterruptAndTick
            },
            ViewMessage::AnswerLlmRequest(text) => {
                self.question.respond(Some(text));
                ViewAction::ClearAnswer
            },
            ViewMessage::DismissLlmRequest => {
                self.question.respond(None);
                ViewAction::ClearAnswer
            },
            ViewMessage::ClosePopup => {
                let was_find = match &self.popup {
                    Some(Popup::Find { .. }) => true,
                    _ => false,
                };
                if was_find {
                    self.find.pattern = None;
                    self.find.result = Vec::new();
                }
                self.popup = None;
                ViewAction::ClosePopup
            },
            ViewMessage::BackPopup => {
                let prev = self.prev_popup.take();
                match prev {
                    Some(p) => {
                        self.popup = Some(p.clone());
                        ViewAction::Reopen(p)
                    },
                    None => ViewAction::Nothing,
                }
            },
            ViewMessage::ExpandFileChange(path) => {
                let popup = self.popup.take();
                match popup {
                    Some(Popup::FileChanges(mut changes)) => {
                        toggle_change(&mut changes, path.as_str());
                        self.popup = Some(Popup::FileChanges(changes));
                    },
                    other => {
                        self.popup = other;
                    },
                }
                ViewAction::Nothing
            },
            ViewMessage::ExpandAllFileChanges { log, expand } => {
                let popup = self.popup.take();
                match popup {
                    Some(Popup::FileChanges(mut changes)) => {
                        expand_all_changes(&mut changes, log, expand);
                        self.popup = Some(Popup::FileChanges(changes));
                    },
                    other => {
                        self.popup = other;
                    },
                }
                ViewAction::Nothing
            },
        }
    }
}

} // verus!
