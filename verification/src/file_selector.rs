//! The file selector: files picked to be attached to a new project or chat.
use crate::browser::FileEntry;
use vstd::prelude::*;

verus! {

/// The state of the file selector.
pub struct IcedContext {
    pub home_dir: String,
    pub cwd: String,
    pub current_entry: FileEntry,
    pub entries: Vec<FileEntry>,
    /// The picked entries, in the order they were picked.
    pub selected: Vec<FileEntry>,
    pub hovered: Option<String>,
    pub error: Option<String>,
}

/// What the file selector reacts to.
pub enum IcedMessage {
    /// Goes to the parent directory (the caller finds it and sends `Chdir`).
    Up,
    /// Goes to a directory (the caller reads it and calls `enter_dir`).
    Chdir(String),
    Select(FileEntry),
    Unselect(String),
    Hover(Option<String>),
    /// Shown to the user by the caller.
    Notify(String),
}

/// No path is picked twice.
pub open spec fn distinct_paths(v: Seq<FileEntry>) -> bool {
    forall|i: int, j: int| 0 <= i < j < v.len() ==> v[i].path@ != v[j].path@
}

pub open spec fn is_selected(v: Seq<FileEntry>, path: Seq<char>) -> bool {
    exists|i: int| 0 <= i < v.len() && v[i].path@ == path
}

/// The picked entries without those at `path`.
pub open spec fn without_path(v: Seq<FileEntry>, path: Seq<char>) -> Seq<FileEntry>
    decreases v.len(),
{
    if v.len() == 0 {
        Seq::empty()
    } else if v.last().path@ == path {
        without_path(v.drop_last(), path)
    } else {
        without_path(v.drop_last(), path).push(v.last())
    }
}

proof fn lemma_is_selected_push(s: Seq<FileEntry>, e: FileEntry, p: Seq<char>)
    ensures
        is_selected(s.push(e), p) == (is_selected(s, p) || e.path@ == p),
{
    if is_selected(s, p) {
        let j = choose|j: int| 0 <= j < s.len() && s[j].path@ == p;
        assert(s.push(e)[j] == s[j]);
    }
    if e.path@ == p {
        assert(s.push(e)[s.len() as int] == e);
    }
    if is_selected(s.push(e), p) {
        let j = choose|j: int| 0 <= j < s.len() + 1 && s.push(e)[j].path@ == p;
        if j < s.len() {
            assert(s.push(e)[j] == s[j]);
        }
    }
}

proof fn lemma_without_path(v: Seq<FileEntry>, path: Seq<char>)
    requires
        distinct_paths(v),
    ensures
        distinct_paths(without_path(v, path)),
        !is_selected(without_path(v, path), path),
        forall|p: Seq<char>| p != path ==> (is_selected(without_path(v, path), p) == is_selected(v, p)),
    decreases v.len(),
{
    if v.len() > 0 {
        let prev = v.drop_last();
        let last = v.last();
        assert(v == prev.push(last));
        assert(distinct_paths(prev));
        lemma_without_path(prev, path);
        let w = without_path(prev, path);
        assert forall|p: Seq<char>| p != path implies (is_selected(without_path(v, path), p)
            == is_selected(v, p)) by {
            lemma_is_selected_push(prev, last, p);
            lemma_is_selected_push(w, last, p);
        }
        lemma_is_selected_push(w, last, path);
        if last.path@ != path {
            let r = w.push(last);
            assert(!is_selected(prev, last.path@)) by {
                if is_selected(prev, last.path@) {
                    let j = choose|j: int| 0 <= j < prev.len() && prev[j].path@ == last.path@;
                    assert(v[j] == prev[j]);
                }
            }
            assert(!is_selected(w, last.path@));
            assert forall|a: int, b: int| 0 <= a < b < r.len() implies r[a].path@ != r[b].path@ by {
                if b == w.len() {
                    assert(r[a] == w[a]);
                    assert(is_selected(w, w[a].path@));
                } else {
                    assert(r[a] == w[a] && r[b] == w[b]);
                }
            }
        }
    }
}

fn has_path(v: &Vec<FileEntry>, path: &String) -> (r: bool)
    ensures
        r == is_selected(v@, path@),
{
    let mut i: usize = 0;
    while i < v.len()
        invariant
            i <= v@.len(),
            forall|j: int| 0 <= j < i ==> v@[j].path@ != path@,
        decreases v@.len() - i,
    {
        if v[i].path == *path {
            return true;
        }
        i += 1;
    }
    false
}

fn drop_path(v: Vec<FileEntry>, path: &String) -> (r: Vec<FileEntry>)
    ensures
        r@ == without_path(v@, path@),
{
    let ghost before = v@;
    let mut v = v;
    let mut kept: Vec<FileEntry> = Vec::new();
    let mut i: usize = 0;
    while i < v.len()
        invariant
            i <= v@.len(),
            v@.len() == before.len(),
            forall|j: int| i <= j < before.len() ==> #[trigger] v@[j] == before[j],
            kept@ == without_path(before.take(i as int), path@),
        decreases v@.len() - i,
    {
        assert(before.take(i + 1).drop_last() =~= before.take(i as int));
        let mut e = FileEntry {
            name: String::new(),
            path: String::new(),
            is_dir: false,
            has_neukgu_index: false,
            size: None,
            error: None,
        };
        std::mem::swap(&mut e, &mut v[i]);
        assert(e == before[i as int]);
        if e.path != *path {
            kept.push(e);
        }
        i += 1;
    }
    assert(before.take(before.len() as int) =~= before);
    kept
}

impl IcedContext {
    /// Shows the directory `path` with its `entries`; `current_entry` is
    /// the directory itself.
    pub fn enter_dir(&mut self, path: String, entries: Vec<FileEntry>, current_entry: FileEntry)
        ensures
            final(self).cwd == path,
            final(self).entries == entries,
            final(self).current_entry == current_entry,
            final(self).hovered is None,
            final(self).error is None,
            final(self).selected == old(self).selected,
            final(self).home_dir == old(self).home_dir,
    {
        self.entries = entries;
        self.cwd = path;
        self.current_entry = current_entry;
        self.hovered = None;
        self.error = None;
    }
}

/// Reacts to picking, dropping and hovering entries; the message that
/// the caller handles next, if any, is returned.
pub fn update(context: &mut IcedContext, message: IcedMessage) -> (r: Option<IcedMessage>)
    requires
        distinct_paths(old(context).selected@),
        message is Select || message is Unselect || message is Hover,
    ensures
        distinct_paths(final(context).selected@),
        final(context).cwd == old(context).cwd,
        final(context).entries == old(context).entries,
        match message {
            IcedMessage::Select(e) => if is_selected(old(context).selected@, e.path@) {
                final(context).selected == old(context).selected && (r matches Some(
                    IcedMessage::Notify(n),
                ) && n@ == "It's already selected."@)
            } else {
                final(context).selected@ == old(context).selected@.push(e) && r is None
            },
            IcedMessage::Unselect(p) => final(context).selected@ == without_path(
                old(context).selected@,
                p@,
            ) && !is_selected(final(context).selected@, p@) && r is None,
            IcedMessage::Hover(h) => final(context).hovered == h && final(context).selected
                == old(context).selected && r is None,
            _ => true,
        },
{
    match message {
        IcedMessage::Select(entry) => {
            if has_path(&context.selected, &entry.path) {
                return Some(IcedMessage::Notify("It's already selected.".to_string()));
            }
            let ghost before = context.selected@;
            context.selected.push(entry);
            assert forall|a: int, b: int| 0 <= a < b < context.selected@.len() implies context.selected@[a].path@
                != context.selected@[b].path@ by {
                assert(context.selected@[a] == before[a]);
                if b < before.len() {
                    assert(context.selected@[b] == before[b]);
                } else {
                    assert(is_selected(before, before[a].path@));
                }
            }
            None
        },
        IcedMessage::Unselect(path) => {
            let mut picked: Vec<FileEntry> = Vec::new();
            std::mem::swap(&mut picked, &mut context.selected);
            proof {
                lemma_without_path(picked@, path@);
            }
            context.selected = drop_path(picked, &path);
            None
        },
        IcedMessage::Hover(h) => {
            context.hovered = h;
            None
        },
        _ => None,
    }
}

} // verus!
