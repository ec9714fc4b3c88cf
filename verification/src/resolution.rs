//! The bounds of the arena.
use vstd::prelude::*;

verus! {

/// The arena: a rectangle about the origin, and the scale at which the
/// platform draws it.
#[derive(Clone, Copy, Debug, PartialEq, Eq, Structural)]
pub struct Resolution {
    pub half_width: i64,
    pub half_height: i64,
    pub pixel_ratio: u32,
}

} // verus!
