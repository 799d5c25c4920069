//! The frame of every popup: its buttons, and what they send.
use vstd::prelude::*;

verus! {

/// The messages that the buttons of a popup's frame send.
pub trait PopupMessage: Sized {
    fn close_popup() -> Self;

    fn back_popup() -> Self;

    fn copy_popup_content() -> Self;

    fn open_scratch_pad() -> Self;
}

/// A button of a popup's frame.
#[derive(Clone, Copy, Debug, PartialEq, Eq, Structural)]
pub enum PopupButton {
    Close,
    Back,
    Copy,
    ScratchPad,
}

/// The buttons of a popup's frame, left to right: close where the popup
/// can be closed, back where there is a popup to go back to, copy where it
/// has something to copy, and the scratch pad where its content can be
/// opened there.
pub open spec fn spec_popup_buttons(can_close: bool, has_prev: bool, has_copy: bool, can_open_scratch_pad: bool) -> Seq<PopupButton> {
    (if can_close { seq![PopupButton::Close] } else { Seq::empty() }) + (if has_prev {
        seq![PopupButton::Back]
    } else {
        Seq::empty()
    }) + (if has_copy { seq![PopupButton::Copy] } else { Seq::empty() }) + (if can_open_scratch_pad {
        seq![PopupButton::ScratchPad]
    } else {
        Seq::empty()
    })
}

pub fn popup_buttons(can_close: bool, has_prev: bool, has_copy: bool, can_open_scratch_pad: bool) -> (r: Vec<PopupButton>)
    ensures
        r@ == spec_popup_buttons(can_close, has_prev, has_copy, can_open_scratch_pad),
{
    let mut r: Vec<PopupButton> = Vec::new();
    if can_close {
        r.push(PopupButton::Close);
    }
    if has_prev {
        r.push(PopupButton::Back);
    }
    if has_copy {
        r.push(PopupButton::Copy);
    }
    if can_open_scratch_pad {
        r.push(PopupButton::ScratchPad);
    }
    assert(r@ =~= spec_popup_buttons(can_close, has_prev, has_copy, can_open_scratch_pad));
    r
}

} // verus!
