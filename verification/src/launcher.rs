//! The launcher: the directory listing from which a project is opened.
use vstd::prelude::*;

verus! {

/// An entry of a directory, as the launcher lists it.
#[derive(Clone, Debug)]
pub struct FileEntry {
    pub name: String,
    pub path: String,
    pub is_dir: bool,
    pub has_neukgu_index: bool,
    pub size: Option<u64>,
    /// What went wrong while the entry was read.
    pub error: Option<String>,
}

/// The popups of the launcher.
#[derive(Clone, Debug)]
pub enum Popup {
    Create { path: String },
    Init { path: String },
    EntryError(String),
    Preview { path: String },
    Help,
}

/// The directories among the entries, in order.
pub open spec fn dirs_of(es: Seq<FileEntry>) -> Seq<FileEntry>
    decreases es.len(),
{
    if es.len() == 0 {
        Seq::empty()
    } else if es.last().is_dir {
        dirs_of(es.drop_last()).push(es.last())
    } else {
        dirs_of(es.drop_last())
    }
}

/// The other entries, in order.
pub open spec fn files_of(es: Seq<FileEntry>) -> Seq<FileEntry>
    decreases es.len(),
{
    if es.len() == 0 {
        Seq::empty()
    } else if !es.last().is_dir {
        files_of(es.drop_last()).push(es.last())
    } else {
        files_of(es.drop_last())
    }
}

/// The entries of a directory as the launcher lists them: the entry of the
/// parent directory, then the directories, then the files, each in the
/// order they were read.
pub fn arrange_entries(parent: FileEntry, entries: Vec<FileEntry>) -> (r: Vec<FileEntry>)
    ensures
        r@ == seq![parent] + dirs_of(entries@) + files_of(entries@),
{
    let ghost es = entries@;
    let mut entries = entries;
    let mut dirs: Vec<FileEntry> = Vec::new();
    dirs.push(parent);
    let mut files: Vec<FileEntry> = Vec::new();
    let mut i: usize = 0;
    while i < entries.len()
        invariant
            i <= entries@.len(),
            entries@.len() == es.len(),
            forall|j: int| i <= j < es.len() ==> #[trigger] entries@[j] == es[j],
            dirs@ == seq![parent] + dirs_of(es.take(i as int)),
            files@ == files_of(es.take(i as int)),
        decreases entries@.len() - i,
    {
        let mut e = FileEntry {
            name: String::new(),
            path: String::new(),
            is_dir: false,
            has_neukgu_index: false,
            size: None,
            error: None,
        };
        std::mem::swap(&mut e, &mut entries[i]);
        assert(e == es[i as int]);
        assert(es.take(i + 1).drop_last() =~= es.take(i as int));
        if e.is_dir {
            dirs.push(e);
        } else {
            files.push(e);
        }
        i += 1;
    }
    assert(es.take(es.len() as int) =~= es);
    dirs.append(&mut files);
    dirs
}

} // verus!
