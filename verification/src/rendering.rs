//! How snakes are drawn.

use vstd::prelude::*;

verus! {

/// The shape snake segments are drawn in.
#[derive(Copy, Clone, PartialEq, Eq, Debug, Structural)]
pub enum Style {
    Hexagon,
    Smooth,
}

} // verus!
