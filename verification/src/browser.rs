//! The file browser: how it lists a directory, and how it shows the
//! results of a search.
use crate::text::{count_chars, spaces, take_chars, total_weight};
use crate::keys::{Key, Modifiers};
use crate::worker::{JobId, JobResult, JobResultKind, RgMatch};
use vstd::prelude::*;

verus! {

/// An entry of a directory, as the browser lists it.
#[derive(Clone, Debug)]
pub struct FileEntry {
    pub name: String,
    pub path: String,
    pub is_dir: bool,
    pub has_neukgu_index: bool,
    pub size: Option<u64>,
    /// What went wrong while the entry was read.
    pub error: Option<String>,
}

/// The popups of the file browser.
#[derive(Clone, Debug)]
pub enum Popup {
    Create { path: String },
    Init { path: String },
    EntryError(String),
    Preview { path: String },
    AskDelete { is_dir: bool, path: String },
    /// A search; `job` is set when a worker starts it.
    Find { error: Option<String>, job: Option<JobId> },
    FindResult { regex: String, matches: Vec<RgMatch>, truncate: Option<usize>, match_count: usize },
    Help,
}

/// The directories among the entries, in order.
pub open spec fn dirs_of(es: Seq<FileEntry>) -> Seq<FileEntry>
    decreases es.len(),
{
    if es.len() == 0 {
        Seq::empty()
    } else if es.last().is_dir {
        dirs_of(es.drop_last()).push(es.last())
    } else {
        dirs_of(es.drop_last())
    }
}

/// The other entries, in order.
pub open spec fn files_of(es: Seq<FileEntry>) -> Seq<FileEntry>
    decreases es.len(),
{
    if es.len() == 0 {
        Seq::empty()
    } else if !es.last().is_dir {
        files_of(es.drop_last()).push(es.last())
    } else {
        files_of(es.drop_last())
    }
}

/// The entries of a directory as the browser lists them: the directories
/// first, then the files, each in the order they were read.
pub fn arrange_entries(entries: Vec<FileEntry>) -> (r: Vec<FileEntry>)
    ensures
        r@ == dirs_of(entries@) + files_of(entries@),
{
    let ghost es = entries@;
    let mut entries = entries;
    let mut dirs: Vec<FileEntry> = Vec::new();
    let mut files: Vec<FileEntry> = Vec::new();
    let mut i: usize = 0;
    while i < entries.len()
        invariant
            i <= entries@.len(),
            entries@.len() == es.len(),
            forall|j: int| i <= j < es.len() ==> #[trigger] entries@[j] == es[j],
            dirs@ == dirs_of(es.take(i as int)),
            files@ == files_of(es.take(i as int)),
        decreases entries@.len() - i,
    {
        let mut e = FileEntry {
            name: String::new(),
            path: String::new(),
            is_dir: false,
            has_neukgu_index: false,
            size: None,
            error: None,
        };
        std::mem::swap(&mut e, &mut entries[i]);
        assert(e == es[i as int]);
        assert(es.take(i + 1).drop_last() =~= es.take(i as int));
        if e.is_dir {
            dirs.push(e);
        } else {
            files.push(e);
        }
        i += 1;
    }
    assert(es.take(es.len() as int) =~= es);
    dirs.append(&mut files);
    dirs
}

/// How many matches of a search the browser shows at most.
pub const FIND_RESULT_LIMIT: usize = 512;

/// The matches that a search shows: the first `FIND_RESULT_LIMIT`, and how
/// many were left out, if any.
pub fn truncate_find_result(matches: Vec<RgMatch>) -> (r: (Vec<RgMatch>, Option<usize>))
    ensures
        matches@.len() < FIND_RESULT_LIMIT ==> r.0@ == matches@ && r.1 is None,
        matches@.len() >= FIND_RESULT_LIMIT ==> r.0@ == matches@.take(FIND_RESULT_LIMIT as int)
            && r.1 == Some((matches@.len() - FIND_RESULT_LIMIT) as usize),
{
    if matches.len() < FIND_RESULT_LIMIT {
        (matches, None)
    } else {
        let total = matches.len();
        let mut shown = matches;
        shown.truncate(FIND_RESULT_LIMIT);
        (shown, Some(total - FIND_RESULT_LIMIT))
    }
}

/// The byte ranges that can be highlighted on a line of `line_len` bytes:
/// each range is cut to the line, and one that reaches its end is dropped.
pub open spec fn clipped_ranges(line_len: usize, ranges: Seq<(usize, usize)>) -> Seq<(usize, usize)>
    decreases ranges.len(),
{
    if ranges.len() == 0 {
        Seq::empty()
    } else {
        let prev = clipped_ranges(line_len, ranges.drop_last());
        let (s, e) = ranges.last();
        let s2 = if s < line_len { s } else { line_len };
        let e2 = if e < line_len { e } else { line_len };
        if e2 >= line_len {
            prev
        } else {
            prev.push((s2, e2))
        }
    }
}

/// The highlights of a matched line, cut to its first `line_len` bytes.
pub fn clip_submatches(line_len: usize, submatches: &Vec<(usize, usize)>) -> (r: Vec<(usize, usize)>)
    ensures
        r@ == clipped_ranges(line_len, submatches@),
{
    let mut r: Vec<(usize, usize)> = Vec::new();
    let mut i: usize = 0;
    while i < submatches.len()
        invariant
            i <= submatches@.len(),
            r@ == clipped_ranges(line_len, submatches@.take(i as int)),
        decreases submatches@.len() - i,
    {
        assert(submatches@.take(i + 1).drop_last() =~= submatches@.take(i as int));
        let (start, end) = submatches[i];
        let start = if start < line_len { start } else { line_len };
        let end = if end < line_len { end } else { line_len };
        if end < line_len {
            r.push((start, end));
        }
        i += 1;
    }
    assert(submatches@.take(submatches@.len() as int) =~= submatches@);
    r
}

/// How wide, in columns, the name column of the listing is.
pub const NAME_COLUMNS: usize = 42;

/// The mark after a name: "/" for a directory, a space otherwise.
pub open spec fn dir_mark(is_dir: bool) -> Seq<char> {
    if is_dir {
        "/"@
    } else {
        " "@
    }
}

/// The name of an entry as the listing shows it, in `NAME_COLUMNS`
/// columns: a name that fits is followed by its mark and spaces up to the
/// width; a longer one is cut to the longest prefix within 39 columns and
/// followed by "..." and its mark.
pub fn entry_label(name: &String, is_dir: bool) -> (r: String)
    requires
        total_weight(name@) <= usize::MAX,
    ensures
        total_weight(name@) / 7 < 42 ==> r@ == name@ + dir_mark(is_dir) + Seq::new(
            (42 - total_weight(name@) / 7) as nat,
            |i: int| ' ',
        ),
        total_weight(name@) / 7 >= 42 ==> exists|k: int|
            0 <= k <= name@.len() && total_weight(name@.take(k)) <= 39 * 7 && (k < name@.len()
                ==> total_weight(name@.take(k + 1)) > 39 * 7) && r@ == name@.take(k) + "..."@
                + dir_mark(is_dir),
{
    let char_count = count_chars(name.as_str());
    if char_count < NAME_COLUMNS {
        let mut r = name.clone();
        if is_dir {
            r.append("/");
        } else {
            r.append(" ");
        }
        let pad = spaces(NAME_COLUMNS - char_count);
        r.append(pad.as_str());
        r
    } else {
        let mut r = take_chars(name.as_str(), 39);
        let ghost k = r@.len() as int;
        r.append("...");
        if is_dir {
            r.append("/");
        } else {
            r.append(" ");
        }
        assert(r@ == name@.take(k) + "..."@ + dir_mark(is_dir));
        r
    }
}

/// The entry that the arrow keys select: `offset` entries after the
/// selected one (before the first where none is), kept within the list,
/// the first where the list is empty.
pub open spec fn spec_select_entry(selected: Option<usize>, offset: int, len: int) -> int {
    let t = (match selected {
        Some(i) => i as int,
        None => -1,
    }) + offset;
    let u = if t < len - 1 {
        t
    } else {
        len - 1
    };
    if u > 0 {
        u
    } else {
        0
    }
}

pub fn select_entry(selected: Option<usize>, offset: i32, len: usize) -> (r: usize)
    requires
        len <= i32::MAX,
        i32::MIN <= (match selected {
            Some(i) => i as int,
            None => -1,
        }) + offset <= i32::MAX,
    ensures
        r == spec_select_entry(selected, offset as int, len as int),
{
    let base: i64 = match selected {
        Some(i) => i as i64,
        None => -1,
    };
    let t = base + offset as i64;
    let last = len as i64 - 1;
    let u = if t < last {
        t
    } else {
        last
    };
    if u > 0 {
        u as usize
    } else {
        0
    }
}

/// Law: Delete alone never removes anything. With no popup and an entry
/// selected it opens the question whether to delete that entry; a file or a
/// directory is deleted only on Ctrl+Y while that question is open, and
/// it is the entry the question names, as a directory exactly when the
/// question says so.
pub proof fn law_delete_asks_first(
    key: Key,
    m: Modifiers,
    popup: Option<Popup>,
    cwd: String,
    entries: Seq<FileEntry>,
    selected: Option<usize>,
    has_neukgu_index: bool,
)
    ensures
        ({
            let r = spec_key_action(key, m, popup, cwd, entries, selected, has_neukgu_index);
            &&& (key is Delete && m.none() && popup is None && selected is Some && selected->0
                < entries.len()) ==> r == KeyAction::OpenPopup(
                Popup::AskDelete {
                    is_dir: entries[selected->0 as int].is_dir,
                    path: entries[selected->0 as int].path,
                },
            )
            &&& key is Delete ==> !(r is DeleteFile) && !(r is DeleteDirectory)
            &&& r is DeleteFile ==> key == Key::Character('y') && m.ctrl_only() && popup == Some(
                Popup::AskDelete { is_dir: false, path: r->DeleteFile_0 },
            )
            &&& r is DeleteDirectory ==> key == Key::Character('y') && m.ctrl_only() && popup
                == Some(Popup::AskDelete { is_dir: true, path: r->DeleteDirectory_0 })
        }),
{
}

/// What a key press asks of the file browser.
#[derive(Clone, Debug)]
pub enum KeyAction {
    Nothing,
    ClosePopup,
    /// Go to the parent of the current directory.
    ChDirToParent,
    /// Select this entry, and scroll to it.
    SelectEntry(usize),
    ChDir(String),
    OpenPopup(Popup),
    Launch(String),
    DeleteFile(String),
    DeleteDirectory(String),
    ZoomIn,
    ZoomOut,
}

/// The entry at the selection, if any.
pub open spec fn selected_entry(entries: Seq<FileEntry>, selected: Option<usize>) -> Option<FileEntry> {
    match selected {
        Some(i) => if i < entries.len() {
            Some(entries[i as int])
        } else {
            None
        },
        None => None,
    }
}

/// The key bindings of the file browser (its help message lists them).
pub open spec fn spec_key_action(
    key: Key,
    m: Modifiers,
    popup: Option<Popup>,
    cwd: String,
    entries: Seq<FileEntry>,
    selected: Option<usize>,
    has_neukgu_index: bool,
) -> KeyAction {
    let no_popup = popup is None;
    match key {
        Key::Escape => if m.none() {
            KeyAction::ClosePopup
        } else {
            KeyAction::Nothing
        },
        Key::ArrowUp => if !m.ctrl && m.alt && !m.shift {
            KeyAction::ChDirToParent
        } else if !m.alt && !m.shift && no_popup {
            KeyAction::SelectEntry(
                spec_select_entry(selected, if m.ctrl { -10 } else { -1 }, entries.len() as int) as usize,
            )
        } else {
            KeyAction::Nothing
        },
        Key::ArrowDown => if !m.alt && !m.shift && no_popup {
            KeyAction::SelectEntry(
                spec_select_entry(selected, if m.ctrl { 10 } else { 1 }, entries.len() as int) as usize,
            )
        } else {
            KeyAction::Nothing
        },
        Key::Enter => if m.none() && no_popup {
            match selected_entry(entries, selected) {
                Some(e) => if e.is_dir {
                    KeyAction::ChDir(e.path)
                } else {
                    KeyAction::OpenPopup(Popup::Preview { path: e.path })
                },
                None => KeyAction::Nothing,
            }
        } else {
            KeyAction::Nothing
        },
        Key::Delete => if m.none() && no_popup {
            match selected_entry(entries, selected) {
                Some(e) => KeyAction::OpenPopup(Popup::AskDelete { is_dir: e.is_dir, path: e.path }),
                None => KeyAction::Nothing,
            }
        } else {
            KeyAction::Nothing
        },
        Key::Character(c) => if !m.ctrl_only() {
            KeyAction::Nothing
        } else if c == 'c' && no_popup {
            KeyAction::OpenPopup(Popup::Create { path: cwd })
        } else if c == 'f' && no_popup {
            KeyAction::OpenPopup(Popup::Find { error: None, job: None })
        } else if c == 'h' && no_popup {
            KeyAction::OpenPopup(Popup::Help)
        } else if c == 'i' && no_popup && !has_neukgu_index {
            KeyAction::OpenPopup(Popup::Init { path: cwd })
        } else if c == 'l' && no_popup && has_neukgu_index {
            KeyAction::Launch(cwd)
        } else if c == 'y' {
            match popup {
                Some(Popup::AskDelete { is_dir, path }) => if is_dir {
                    KeyAction::DeleteDirectory(path)
                } else {
                    KeyAction::DeleteFile(path)
                },
                _ => KeyAction::Nothing,
            }
        } else if c == '-' {
            KeyAction::ZoomOut
        } else if c == '=' {
            KeyAction::ZoomIn
        } else {
            KeyAction::Nothing
        },
        _ => KeyAction::Nothing,
    }
}

/// What a key press asks of the file browser, given its popup, its
/// directory, its entries, the selected entry and whether the directory is
/// a working directory.
pub fn key_action(
    key: Key,
    m: Modifiers,
    popup: &Option<Popup>,
    cwd: &String,
    entries: &Vec<FileEntry>,
    selected: Option<usize>,
    has_neukgu_index: bool,
) -> (r: KeyAction)
    requires
        key is ArrowUp || key is ArrowDown ==> entries@.len() <= i32::MAX && (selected matches Some(
            i,
        ) ==> i + 10 <= i32::MAX),
    ensures
        r == spec_key_action(key, m, *popup, *cwd, entries@, selected, has_neukgu_index),
{
    let no_popup = popup.is_none();
    match key {
        Key::Escape => if !m.ctrl && !m.alt && !m.shift {
            KeyAction::ClosePopup
        } else {
            KeyAction::Nothing
        },
        Key::ArrowUp => if !m.ctrl && m.alt && !m.shift {
            KeyAction::ChDirToParent
        } else if !m.alt && !m.shift && no_popup {
            KeyAction::SelectEntry(select_entry(selected, if m.ctrl { -10 } else { -1 }, entries.len()))
        } else {
            KeyAction::Nothing
        },
        Key::ArrowDown => if !m.alt && !m.shift && no_popup {
            KeyAction::SelectEntry(select_entry(selected, if m.ctrl { 10 } else { 1 }, entries.len()))
        } else {
            KeyAction::Nothing
        },
        Key::Enter | Key::Delete => {
            if m.ctrl || m.alt || m.shift || !no_popup {
                return KeyAction::Nothing;
            }
            let i = match selected {
                Some(i) => i,
                None => {
                    return KeyAction::Nothing;
                },
            };
            if i >= entries.len() {
                return KeyAction::Nothing;
            }
            let path = entries[i].path.clone();
            let is_dir = entries[i].is_dir;
            match key {
                Key::Enter => if is_dir {
                    KeyAction::ChDir(path)
                } else {
                    KeyAction::OpenPopup(Popup::Preview { path })
                },
                _ => KeyAction::OpenPopup(Popup::AskDelete { is_dir, path }),
            }
        },
        Key::Character(c) => if !(m.ctrl && !m.alt && !m.shift) {
            KeyAction::Nothing
        } else if c == 'c' && no_popup {
            KeyAction::OpenPopup(Popup::Create { path: cwd.clone() })
        } else if c == 'f' && no_popup {
            KeyAction::OpenPopup(Popup::Find { error: None, job: None })
        } else if c == 'h' && no_popup {
            KeyAction::OpenPopup(Popup::Help)
        } else if c == 'i' && no_popup && !has_neukgu_index {
            KeyAction::OpenPopup(Popup::Init { path: cwd.clone() })
        } else if c == 'l' && no_popup && has_neukgu_index {
            KeyAction::Launch(cwd.clone())
        } else if c == 'y' {
            match popup {
                Some(Popup::AskDelete { is_dir, path }) => if *is_dir {
                    KeyAction::DeleteDirectory(path.clone())
                } else {
                    KeyAction::DeleteFile(path.clone())
                },
                _ => KeyAction::Nothing,
            }
        } else if c == '-' {
            KeyAction::ZoomOut
        } else if c == '=' {
            KeyAction::ZoomIn
        } else {
            KeyAction::Nothing
        },
        _ => KeyAction::Nothing,
    }
}

/// The popup after a worker answers: the search popup that waits for this
/// job reports a timeout, or gives way to the result, cut to
/// `FIND_RESULT_LIMIT` matches; any other popup stays.
pub fn popup_after_job(popup: Option<Popup>, result: JobResult) -> (r: Option<Popup>)
    ensures
        match (popup, result.kind) {
            (Some(Popup::Find { job, .. }), JobResultKind::RgTimeout) if job == result.id => r
                matches Some(Popup::Find { error, job }) && job is None && (error matches Some(e)
                && e@ == "ripgrep timeout"@),
            (Some(Popup::Find { job, .. }), JobResultKind::Rg { regex, matches, count }) if job
                == result.id => r matches Some(
                Popup::FindResult { regex: g, matches: shown, truncate, match_count },
            ) && g == regex && match_count == count && if matches@.len() < FIND_RESULT_LIMIT {
                shown@ == matches@ && truncate is None
            } else {
                shown@ == matches@.take(FIND_RESULT_LIMIT as int) && truncate == Some(
                    (matches@.len() - FIND_RESULT_LIMIT) as usize,
                )
            },
            _ => r == popup,
        },
{
    let waiting = match &popup {
        Some(Popup::Find { job, .. }) => match (job, result.id) {
            (Some(a), Some(b)) => a.0 == b.0,
            (None, None) => true,
            _ => false,
        },
        _ => false,
    };
    if !waiting {
        return popup;
    }
    match result.kind {
        JobResultKind::RgTimeout => Some(Popup::Find { error: Some("ripgrep timeout".to_string()), job: None }),
        JobResultKind::Rg { regex, matches, count } => {
            let (shown, truncate) = truncate_find_result(matches);
            Some(Popup::FindResult { regex, matches: shown, truncate, match_count: count })
        },
        _ => popup,
    }
}

} // verus!
