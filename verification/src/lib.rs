//! Verified logic of the neukgu desktop front end.
use vstd::prelude::*;

pub mod api_key;
pub mod browser;
pub mod calendar;
pub mod chat;
pub mod config;
pub mod crypt;
pub mod file_change;
pub mod file_editor;
pub mod file_selector;
pub mod git;
pub mod glob;
pub mod hexdump;
pub mod index;
pub mod keys;
pub mod launcher;
pub mod logs;
pub mod model_store;
pub mod popup;
pub mod preview;
pub mod scratch_pad;
pub mod slide_rule;
pub mod tab;
pub mod tabs;
pub mod text;
pub mod worker;
pub mod working_dir;
pub mod zoom;

verus! {

} // verus!
