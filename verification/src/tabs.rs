//! The tabs of the main window: what a new tab opens, which tab is
//! selected, and the short notes shown over them.
use crate::keys::{Key, Modifiers};
use crate::tab::TabId;
use vstd::prelude::*;

verus! {

/// What a tab shows when it is opened.
#[derive(Clone, Debug)]
pub enum Tab {
    /// The file browser in `dir`, with `file` selected.
    Browser { dir: String, file: Option<String> },
    /// A chat, by its id.
    Chat(u64),
    /// The working directory of a project.
    WorkingDir(String),
}

/// The open tabs, by id, in the order they are shown, and the selected
/// one (`None` for the index page, which is always there).
pub struct TabStrip {
    pub tab_ids: Vec<TabId>,
    pub selected_tab: Option<usize>,
}

/// What gets the keyboard focus after a change of tabs.
#[derive(Clone, Copy, Debug, PartialEq, Eq, Structural)]
pub enum Focus {
    /// Nothing changes.
    Unchanged,
    Index,
    Tab(usize),
}

impl TabStrip {
    /// The selection points at an open tab, or at the index page.
    pub open spec fn wf(&self) -> bool {
        self.selected_tab matches Some(i) ==> i < self.tab_ids@.len()
    }

    /// No tab is open and the index page is selected.
    pub fn new() -> (r: TabStrip)
        ensures
            r.wf(),
            r.tab_ids@.len() == 0,
            r.selected_tab is None,
    {
        TabStrip { tab_ids: Vec::new(), selected_tab: None }
    }

    /// Selects the `i`-th tab.
    pub fn select_tab(&mut self, i: usize) -> (r: Focus)
        requires
            old(self).wf(),
            i < old(self).tab_ids@.len(),
        ensures
            final(self).wf(),
            final(self).tab_ids == old(self).tab_ids,
            final(self).selected_tab == Some(i),
            r == if old(self).selected_tab == Some(i) {
                Focus::Unchanged
            } else {
                Focus::Tab(i)
            },
    {
        match self.selected_tab {
            Some(s) if s == i => Focus::Unchanged,
            _ => {
                self.selected_tab = Some(i);
                Focus::Tab(i)
            },
        }
    }

    /// Selects the index page.
    pub fn select_index(&mut self) -> (r: Focus)
        requires
            old(self).wf(),
        ensures
            final(self).wf(),
            final(self).tab_ids == old(self).tab_ids,
            final(self).selected_tab is None,
            r == if old(self).selected_tab is Some {
                Focus::Index
            } else {
                Focus::Unchanged
            },
    {
        if self.selected_tab.is_some() {
            self.selected_tab = None;
            Focus::Index
        } else {
            Focus::Unchanged
        }
    }

    /// Selects the page of a shortcut Alt+`digit`: 1 is the index page, 2
    /// to 9 the first eight tabs, 0 the ninth. A shortcut to a tab that is
    /// not open does nothing.
    pub fn select_by_digit(&mut self, digit: u8) -> (r: Focus)
        requires
            old(self).wf(),
            digit <= 9,
        ensures
            final(self).wf(),
            final(self).tab_ids == old(self).tab_ids,
            ({
                let target: Option<int> = if digit == 1 {
                    None
                } else if digit == 0 {
                    Some(8)
                } else {
                    Some(digit - 2)
                };
                match target {
                    Some(t) if t >= old(self).tab_ids@.len() => r == Focus::Unchanged
                        && final(self).selected_tab == old(self).selected_tab,
                    Some(t) => final(self).selected_tab == Some(t as usize) && r == if old(
                        self,
                    ).selected_tab == Some(t as usize) {
                        Focus::Unchanged
                    } else {
                        Focus::Tab(t as usize)
                    },
                    None => final(self).selected_tab is None && r == if old(self).selected_tab is Some {
                        Focus::Index
                    } else {
                        Focus::Unchanged
                    },
                }
            }),
    {
        if digit == 1 {
            self.select_index()
        } else {
            let t: usize = if digit == 0 {
                8
            } else {
                (digit - 2) as usize
            };
            if t >= self.tab_ids.len() {
                Focus::Unchanged
            } else {
                self.select_tab(t)
            }
        }
    }

    /// Selects the `index`-th tab if it is the tab `id` (the index page
    /// asks so for a tab it listed, which may have moved or closed since).
    pub fn open_tab(&mut self, id: TabId, index: usize) -> (r: Focus)
        requires
            old(self).wf(),
        ensures
            final(self).wf(),
            final(self).tab_ids == old(self).tab_ids,
            if index < old(self).tab_ids@.len() && old(self).tab_ids@[index as int] == id {
                final(self).selected_tab == Some(index) && r == Focus::Tab(index)
            } else {
                final(self).selected_tab == old(self).selected_tab && r == Focus::Unchanged
            },
    {
        if index < self.tab_ids.len() && self.tab_ids[index].0 == id.0 {
            self.selected_tab = Some(index);
            Focus::Tab(index)
        } else {
            Focus::Unchanged
        }
    }

    /// Where the tab `id` is, if it is open.
    pub fn find_tab(&self, id: TabId) -> (r: Option<usize>)
        ensures
            match r {
                Some(i) => i < self.tab_ids@.len() && self.tab_ids@[i as int] == id && forall|j: int|
                    0 <= j < i ==> self.tab_ids@[j] != id,
                None => forall|j: int| 0 <= j < self.tab_ids@.len() ==> self.tab_ids@[j] != id,
            },
    {
        let mut i: usize = 0;
        while i < self.tab_ids.len()
            invariant
                i <= self.tab_ids@.len(),
                forall|j: int| 0 <= j < i ==> self.tab_ids@[j] != id,
            decreases self.tab_ids@.len() - i,
        {
            if self.tab_ids[i].0 == id.0 {
                return Some(i);
            }
            i += 1;
        }
        None
    }

    /// Opens the tab `id` right after the selected one (first, from the
    /// index page), selects it, and gives its place.
    pub fn insert_tab(&mut self, id: TabId) -> (r: usize)
        requires
            old(self).wf(),
        ensures
            final(self).wf(),
            r == match old(self).selected_tab {
                Some(i) => i + 1,
                None => 0,
            },
            final(self).tab_ids@ == old(self).tab_ids@.insert(r as int, id),
            final(self).selected_tab == Some(r),
    {
        let index = match self.selected_tab {
            Some(i) => {
                assert(i < self.tab_ids.len());
                i + 1
            },
            None => 0,
        };
        self.tab_ids.insert(index, id);
        self.selected_tab = Some(index);
        index
    }

    /// Closes the `i`-th tab. A selection at or after it moves one tab to
    /// the left (the first tab stays selected while a tab is left); with
    /// no tab left, the index page is selected.
    pub fn close_tab(&mut self, i: usize) -> (r: Focus)
        requires
            old(self).wf(),
            i < old(self).tab_ids@.len(),
        ensures
            final(self).wf(),
            final(self).tab_ids@ == old(self).tab_ids@.remove(i as int),
            match old(self).selected_tab {
                Some(s) if s >= i && s > 0 => final(self).selected_tab == Some((s - 1) as usize) && r
                    == Focus::Tab((s - 1) as usize),
                _ => if final(self).tab_ids@.len() == 0 {
                    final(self).selected_tab is None && r == Focus::Index
                } else {
                    final(self).selected_tab == old(self).selected_tab && r == Focus::Unchanged
                },
            },
            // A selected tab other than the closed one stays selected.
            old(self).selected_tab is Some && old(self).selected_tab->0 != i ==> final(
                self).selected_tab is Some && final(self).tab_ids@[final(self).selected_tab->0 as int]
                == old(self).tab_ids@[old(self).selected_tab->0 as int],
            // The selection is lost only with the last tab.
            old(self).selected_tab is Some && final(self).tab_ids@.len() > 0 ==> final(self).selected_tab is Some,
    {
        self.tab_ids.remove(i);
        match self.selected_tab {
            Some(s) if s >= i && s > 0 => {
                self.selected_tab = Some(s - 1);
                Focus::Tab(s - 1)
            },
            _ => {
                if self.tab_ids.len() == 0 {
                    self.selected_tab = None;
                    Focus::Index
                } else {
                    Focus::Unchanged
                }
            },
        }
    }
}

/// Where a key press goes in the main window.
#[derive(Clone, Copy, Debug, PartialEq, Eq, Structural)]
pub enum KeyRoute {
    Nothing,
    /// Ctrl+T: a file browser at the home directory, in a new tab.
    NewBrowserTab,
    /// Ctrl+W: the selected tab is asked to close.
    KillTab(usize),
    /// Alt+digit: the page of that shortcut (see `select_by_digit`).
    SelectByDigit(u8),
    ToggleCalendar,
    ToggleTextEditor,
    ToggleSlideRule,
    /// Another key with Ctrl+Shift goes to the scratch pad, while it shows.
    ScratchPad,
    /// Any other key goes to the selected tab, or to the index page.
    Tab(usize),
    Index,
}

/// The digit of a character, if it is one.
pub open spec fn digit_of(c: char) -> Option<u8> {
    if '0' <= c && c <= '9' {
        Some((c as int - '0' as int) as u8)
    } else {
        None
    }
}

/// The key bindings of the main window, before the selected page sees a
/// key.
pub open spec fn spec_key_route(selected_tab: Option<usize>, scratch_pad_shown: bool, key: Key, m: Modifiers) -> KeyRoute {
    let to_page = match selected_tab {
        Some(i) => KeyRoute::Tab(i),
        None => KeyRoute::Index,
    };
    match key {
        Key::Character(c) if m.ctrl_only() && c == 't' => KeyRoute::NewBrowserTab,
        Key::Character(c) if m.ctrl_only() && c == 'w' => match selected_tab {
            Some(i) => KeyRoute::KillTab(i),
            None => KeyRoute::Nothing,
        },
        Key::Character(c) if !m.ctrl && m.alt && !m.shift && digit_of(c) is Some => KeyRoute::SelectByDigit(
            digit_of(c)->Some_0,
        ),
        Key::Character(c) if m.ctrl && !m.alt && m.shift && c == 'c' => KeyRoute::ToggleCalendar,
        Key::Character(c) if m.ctrl && !m.alt && m.shift && c == 'm' => KeyRoute::ToggleTextEditor,
        Key::Character(c) if m.ctrl && !m.alt && m.shift && c == 'p' => KeyRoute::ToggleSlideRule,
        _ => if m.ctrl && m.shift {
            if scratch_pad_shown {
                KeyRoute::ScratchPad
            } else {
                KeyRoute::Nothing
            }
        } else {
            to_page
        },
    }
}

pub fn key_route(selected_tab: Option<usize>, scratch_pad_shown: bool, key: Key, m: Modifiers) -> (r: KeyRoute)
    ensures
        r == spec_key_route(selected_tab, scratch_pad_shown, key, m),
{
    let ctrl_only = m.ctrl && !m.alt && !m.shift;
    let ctrl_shift = m.ctrl && !m.alt && m.shift;
    if let Key::Character(c) = key {
        if ctrl_only && c == 't' {
            return KeyRoute::NewBrowserTab;
        }
        if ctrl_only && c == 'w' {
            return match selected_tab {
                Some(i) => KeyRoute::KillTab(i),
                None => KeyRoute::Nothing,
            };
        }
        if !m.ctrl && m.alt && !m.shift && '0' <= c && c <= '9' {
            return KeyRoute::SelectByDigit((c as u32 - '0' as u32) as u8);
        }
        if ctrl_shift && c == 'c' {
            return KeyRoute::ToggleCalendar;
        }
        if ctrl_shift && c == 'm' {
            return KeyRoute::ToggleTextEditor;
        }
        if ctrl_shift && c == 'p' {
            return KeyRoute::ToggleSlideRule;
        }
    }
    if m.ctrl && m.shift {
        if scratch_pad_shown {
            KeyRoute::ScratchPad
        } else {
            KeyRoute::Nothing
        }
    } else {
        match selected_tab {
            Some(i) => KeyRoute::Tab(i),
            None => KeyRoute::Index,
        }
    }
}

/// How many notes are shown at most.
pub const MAX_NOTES: usize = 3;

/// How many frames a note stays (6 seconds).
pub const NOTE_LIFE: usize = 60;

/// The notes keep their lives above zero, and there are at most `MAX_NOTES`.
pub open spec fn notes_wf(notes: Seq<(String, usize)>) -> bool {
    &&& notes.len() <= MAX_NOTES
    &&& forall|i: int| 0 <= i < notes.len() ==> (#[trigger] notes[i]).1 > 0
}

/// Shows a note for `NOTE_LIFE` frames; the oldest goes when there are
/// more than `MAX_NOTES`.
pub fn notify(notes: &mut Vec<(String, usize)>, note: String)
    ensures
        notes_wf(old(notes)@) ==> notes_wf(final(notes)@),
        old(notes)@.len() <= MAX_NOTES ==> final(notes)@.len() <= MAX_NOTES && final(notes)@.last() == (
            note,
            NOTE_LIFE,
        ),
        ({
            let pushed = old(notes)@.push((note, NOTE_LIFE));
            final(notes)@ == if pushed.len() > MAX_NOTES {
                pushed.drop_first()
            } else {
                pushed
            }
        }),
{
    notes.push((note, NOTE_LIFE));
    if notes.len() > MAX_NOTES {
        notes.remove(0);
    }
}

/// The notes after a frame: each loses a frame of life, in order, and
/// those whose life is over are gone.
pub open spec fn aged_notes(notes: Seq<(String, usize)>) -> Seq<(String, usize)>
    decreases notes.len(),
{
    if notes.len() == 0 {
        Seq::empty()
    } else {
        let prev = aged_notes(notes.drop_last());
        let (text, life) = notes.last();
        if life > 1 {
            prev.push((text, (life - 1) as usize))
        } else {
            prev
        }
    }
}

proof fn lemma_aged_notes_wf(notes: Seq<(String, usize)>)
    ensures
        aged_notes(notes).len() <= notes.len(),
        forall|i: int| 0 <= i < aged_notes(notes).len() ==> (#[trigger] aged_notes(notes)[i]).1 > 0,
    decreases notes.len(),
{
    if notes.len() > 0 {
        lemma_aged_notes_wf(notes.drop_last());
    }
}

/// Ages the notes by one frame.
pub fn tick_notes(notes: &mut Vec<(String, usize)>)
    requires
        notes_wf(old(notes)@),
    ensures
        notes_wf(final(notes)@),
        final(notes)@ == aged_notes(old(notes)@),
{
    let ghost before = notes@;
    let mut kept: Vec<(String, usize)> = Vec::new();
    let mut i: usize = 0;
    while i < notes.len()
        invariant
            i <= notes@.len(),
            notes@.len() == before.len(),
            forall|j: int| i <= j < before.len() ==> #[trigger] notes@[j] == before[j],
            forall|j: int| 0 <= j < before.len() ==> (#[trigger] before[j]).1 > 0,
            kept@ == aged_notes(before.take(i as int)),
        decreases notes@.len() - i,
    {
        let mut note = (String::new(), 0usize);
        std::mem::swap(&mut note, &mut notes[i]);
        assert(note == before[i as int]);
        assert(before.take(i + 1).drop_last() =~= before.take(i as int));
        let (text, life) = note;
        if life > 1 {
            kept.push((text, life - 1));
        }
        i += 1;
    }
    assert(before.take(before.len() as int) =~= before);
    proof {
        lemma_aged_notes_wf(before);
    }
    *notes = kept;
}

} // verus!
