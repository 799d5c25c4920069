//! The log list that several views show.
use vstd::prelude::*;

verus! {

/// A view that can open a log in a popup.
pub trait LogsContext {
    type Message;

    /// The message that opens the log with this title and id.
    fn open_log_popup(&self, log_title: String, log_id: u64) -> Self::Message;
}

} // verus!
