//! Statistics about what is being drawn, shown on request.

use vstd::prelude::*;

use crate::prefs::push_all;
use crate::text::{bool_text, chars_of, decimal, string_of, write_bool, write_u64};

verus! {

/// Statistics about the current game state
#[derive(Copy, Clone, PartialEq, Eq, Debug, Default, Structural)]
pub struct Stats {
    /// Total number of graphical (sub)segments currently visible
    pub polygons: usize,
    /// Number of subsegments per segment (note that head and tail will have
    /// fewer); the maximum in the case of multiple snakes
    pub max_subsegments_per_segment: usize,
    pub redrawing_apples: bool,
    pub redrawing_snakes: bool,
}

/// The text the statistics are shown as.
pub open spec fn stats_text(s: Stats) -> Seq<char> {
    "total polygons: "@ + decimal(s.polygons as nat) + "\nmax subsegments: "@ + decimal(
        s.max_subsegments_per_segment as nat,
    ) + "\nredrawing apples: "@ + bool_text(s.redrawing_apples) + "\nredrawing snakes: "@
        + bool_text(s.redrawing_snakes)
}

impl Stats {
    /// The text the statistics are shown as, one per line.
    pub fn text(&self) -> (text: String)
        ensures
            text@ == stats_text(*self),
    {
        let mut out = chars_of("total polygons: ");
        push_all(&mut out, &write_u64(self.polygons as u64));
        push_all(&mut out, &chars_of("\nmax subsegments: "));
        push_all(&mut out, &write_u64(self.max_subsegments_per_segment as u64));
        push_all(&mut out, &chars_of("\nredrawing apples: "));
        push_all(&mut out, &write_bool(self.redrawing_apples));
        push_all(&mut out, &chars_of("\nredrawing snakes: "));
        push_all(&mut out, &write_bool(self.redrawing_snakes));
        string_of(&out)
    }
}

} // verus!
