//! Inclusive integer bound pairs used for randomized sampling.

use vstd::prelude::*;

verus! {

/// An inclusive bound pair `[min, max]` for randomized sampling of stage
/// durations and item-drop quantities.
#[derive(Debug, Clone, Copy, PartialEq, Eq, Hash, Structural)]
pub struct Range {
    pub min: u32,
    pub max: u32,
}

impl Range {
    /// A range is valid when its bounds are ordered, so that every integer in
    /// `[min, max]` is a possible sample.
    pub open spec fn valid(self) -> bool {
        self.min <= self.max
    }
}

impl Range {
    /// Samples a uniformly random integer in `[min, max]`, such that `min`,
    /// `max`, and all values in between are valid to return. When the bounds
    /// coincide the sample is that constant.
    pub fn get(&self, rng: &mut rand::rngs::StdRng) -> (r: u32)
        requires
            self.valid(),
        ensures
            self.min <= r && r <= self.max,
            self.min == self.max ==> r == self.min,
    {
        crate::entropy::sample_inclusive(rng, self.min, self.max)
    }
}

impl Default for Range {
    fn default() -> (r: Self)
        ensures
            r == (Range { min: 0u32, max: 1u32 }),
    {
        Range { min: 0, max: 1 }
    }
}

} // verus!
