//! The LED-strip layout: how many LEDs sit on each screen edge, and the
//! marker bytes that frame a serial payload.

use vstd::prelude::*;

verus! {

/// LED counts per screen edge plus the wire-format markers.
///
/// The mapping formulas require the strip to be symmetric: the two bottom
/// segments hold the same number of LEDs, and the left and right edges hold
/// the same number of LEDs.
#[derive(Clone, Copy, Debug)]
pub struct LayoutConfig {
    pub leds_top: usize,
    pub leds_left: usize,
    pub leds_right: usize,
    pub leds_bottom_left: usize,
    pub leds_bottom_right: usize,
    /// First four bytes of every payload.
    pub header: [u8; 4],
    /// Last four bytes of every payload.
    pub footer: [u8; 4],
}

impl LayoutConfig {
    /// Total number of LEDs on the strip, and of triplets in a payload.
    pub open spec fn total_spec(self) -> int {
        self.leds_top + self.leds_left + self.leds_right + self.leds_bottom_left
            + self.leds_bottom_right
    }

    /// A valid configuration: the symmetry the mapping formulas rely on,
    /// and a payload size that fits in memory.
    pub open spec fn wf(self) -> bool {
        &&& self.leds_bottom_left == self.leds_bottom_right
        &&& self.leds_left == self.leds_right
        &&& 8 + 3 * self.total_spec() <= usize::MAX
    }

    /// Runtime validity check; configuration errors are caught at startup,
    /// never mid-stream.
    pub fn is_valid(&self) -> (r: bool)
        ensures
            r == self.wf(),
    {
        let total: u128 = self.leds_top as u128 + self.leds_left as u128 + self.leds_right as u128
            + self.leds_bottom_left as u128 + self.leds_bottom_right as u128;
        self.leds_bottom_left == self.leds_bottom_right && self.leds_left == self.leds_right
            && 8 + 3 * total <= usize::MAX as u128
    }

    /// Total number of LEDs on the strip.
    pub fn total_leds(&self) -> (n: usize)
        requires
            self.wf(),
        ensures
            n == self.total_spec(),
    {
        self.leds_top + self.leds_left + self.leds_right + self.leds_bottom_left
            + self.leds_bottom_right
    }
}

} // verus!
