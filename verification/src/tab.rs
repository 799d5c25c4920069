//! Identity of a tab of the main window.
use vstd::prelude::*;

verus! {

/// A tab's id: a random number drawn when the tab is opened.
#[derive(Clone, Copy, Debug, PartialEq, Eq, Hash, Structural)]
pub struct TabId(pub u64);

} // verus!
