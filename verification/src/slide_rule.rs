//! The slide rule of the scratch pad: the scales it can show.
use vstd::prelude::*;

verus! {

/// The scale of a ruler.
#[derive(Clone, Copy, Debug, PartialEq, Eq, Structural)]
pub enum RulerKind {
    Log,
    Linear,
    Sin2x,
}

} // verus!
