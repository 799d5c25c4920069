//! The zoom of the index page and of the chat view, in tenths: one step at
//! a time, between a smallest and a largest zoom.
use vstd::prelude::*;

verus! {

/// The zoom can grow while it is below this, and shrink while it is above
/// `ZOOM_OUT_LIMIT` (in tenths).
pub const ZOOM_IN_LIMIT: u32 = 24;

pub const ZOOM_OUT_LIMIT: u32 = 4;

/// The zoom after one step in.
pub open spec fn zoomed_in(tenths: int) -> int {
    if tenths < ZOOM_IN_LIMIT { tenths + 1 } else { tenths }
}

/// The zoom after one step out.
pub open spec fn zoomed_out(tenths: int) -> int {
    if tenths > ZOOM_OUT_LIMIT { tenths - 1 } else { tenths }
}

/// One step in: the new zoom, and the note shown where it cannot grow.
pub fn zoom_in(tenths: u32) -> (r: (u32, Option<String>))
    ensures
        r.0 == zoomed_in(tenths as int),
        tenths < ZOOM_IN_LIMIT ==> r.1 is None,
        tenths >= ZOOM_IN_LIMIT ==> (r.1 matches Some(note) && note@ == "Cannot zoom in anymore."@),
{
    if tenths < ZOOM_IN_LIMIT {
        (tenths + 1, None)
    } else {
        (tenths, Some("Cannot zoom in anymore.".to_string()))
    }
}

/// One step out: the new zoom, and the note shown where it cannot shrink.
pub fn zoom_out(tenths: u32) -> (r: (u32, Option<String>))
    ensures
        r.0 == zoomed_out(tenths as int),
        tenths > ZOOM_OUT_LIMIT ==> r.1 is None,
        tenths <= ZOOM_OUT_LIMIT ==> (r.1 matches Some(note) && note@ == "Cannot zoom out anymore."@),
{
    if tenths > ZOOM_OUT_LIMIT {
        (tenths - 1, None)
    } else {
        (tenths, Some("Cannot zoom out anymore.".to_string()))
    }
}

/// Law: a zoom between the limits stays between them, whichever step is
/// taken.
pub proof fn lemma_zoom_stays_between_limits(tenths: int)
    requires
        ZOOM_OUT_LIMIT <= tenths <= ZOOM_IN_LIMIT,
    ensures
        ZOOM_OUT_LIMIT <= zoomed_in(tenths) <= ZOOM_IN_LIMIT,
        ZOOM_OUT_LIMIT <= zoomed_out(tenths) <= ZOOM_IN_LIMIT,
{
}

} // verus!
