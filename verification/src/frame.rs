//! Frame numbers of the reversible schedule.
use vstd::prelude::*;

pub mod last_run;

verus! {

/// The number of a frame of the reversible schedule.
#[derive(Clone, Copy, Debug, PartialEq, Eq, Structural, PartialOrd, Ord, Hash)]
pub struct RevFrame(pub u64);

impl RevFrame {
    /// The following frame.
    pub fn increase(self) -> (r: Self)
        requires
            self.0 < u64::MAX,
        ensures
            r.0 == self.0 + 1,
    {
        RevFrame(self.0 + 1)
    }

    /// The preceding frame.
    pub fn decrease(self) -> (r: Self)
        requires
            self.0 > 0,
        ensures
            r.0 == self.0 - 1,
    {
        RevFrame(self.0 - 1)
    }
}

} // verus!
