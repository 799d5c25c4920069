//! The file editor: a text being edited, the text last saved, and the
//! diffs of the saves so far.
use vstd::prelude::*;

verus! {

/// What `similar::udiff::unified_diff` gives for two texts with the
/// patience algorithm, no header and `context` lines of context.
pub uninterp spec fn patience_unified_diff(old: Seq<char>, new: Seq<char>, context: usize) -> Seq<char>;

/// `similar::udiff::unified_diff` with `Algorithm::Patience` and no header
/// (similar crate): the contract claims only that the result is the named
/// diff.
#[verifier::external_body]
fn unified_diff(old: &str, new: &str, context: usize) -> (r: String)
    ensures
        r@ == patience_unified_diff(old@, new@, context),
{
    similar::udiff::unified_diff(similar::Algorithm::Patience, old, new, context, None)
}

/// How many lines of context a saved diff keeps around each change.
pub const DIFF_CONTEXT_LINES: usize = 5;

/// The state of the file editor.
pub struct IcedContext {
    pub path: String,
    /// The list of saves is shown in place of the text.
    pub history_view: bool,
    pub last_saved_content: String,
    /// The diff of each save, from the text saved before it, oldest first.
    pub diffs: Vec<String>,
    /// The text being edited.
    pub editor_text: String,
}

/// What saving asks of the caller.
#[derive(Clone, Debug)]
pub enum SaveStep {
    /// The text is the one saved last: "Nothing to save".
    NothingToSave,
    /// Write this text to the file, then tell "Saved".
    Write { path: String, content: String },
}

impl IcedContext {
    /// An editor of the file at `path`, whose text is `content`.
    pub fn new(path: String, content: String) -> (r: IcedContext)
        ensures
            r.path == path,
            !r.history_view,
            r.last_saved_content == content,
            r.editor_text == content,
            r.diffs@.len() == 0,
    {
        IcedContext {
            path,
            history_view: false,
            last_saved_content: content.clone(),
            diffs: Vec::new(),
            editor_text: content,
        }
    }

    pub fn toggle_history_view(&mut self)
        ensures
            *final(self) == (IcedContext { history_view: !old(self).history_view, ..*old(self) }),
    {
        self.history_view = !self.history_view;
    }

    /// Saves the edited text: where it differs from the text saved last, the
    /// diff between them is kept and the edited text becomes the saved one.
    pub fn save(&mut self) -> (r: SaveStep)
        ensures
            if old(self).editor_text@ == old(self).last_saved_content@ {
                r is NothingToSave && *final(self) == *old(self)
            } else {
                &&& r matches SaveStep::Write { path, content }
                &&& path == old(self).path
                &&& content == old(self).editor_text
                &&& final(self).diffs@.len() == old(self).diffs@.len() + 1
                &&& final(self).diffs@.take(old(self).diffs@.len() as int) == old(self).diffs@
                &&& final(self).diffs@.last()@ == patience_unified_diff(
                    old(self).last_saved_content@,
                    old(self).editor_text@,
                    DIFF_CONTEXT_LINES,
                )
                &&& final(self).last_saved_content == old(self).editor_text
                &&& final(self).editor_text == old(self).editor_text
                &&& final(self).path == old(self).path
                &&& final(self).history_view == old(self).history_view
            },
    {
        if self.editor_text == self.last_saved_content {
            return SaveStep::NothingToSave;
        }
        let diff = unified_diff(self.last_saved_content.as_str(), self.editor_text.as_str(), DIFF_CONTEXT_LINES);
        let ghost before = self.diffs@;
        self.diffs.push(diff);
        assert(self.diffs@.take(before.len() as int) =~= before);
        self.last_saved_content = self.editor_text.clone();
        SaveStep::Write { path: self.path.clone(), content: self.editor_text.clone() }
    }
}

} // verus!
