//! The frame a logged entry was logged at, and a compact form of frames for log entries.
use vstd::prelude::*;

use super::framed_state::ValueLoggedAt;
use super::packed_uint::{le_bytes_of, le_value, le_value_of, lemma_le_value_bound, lemma_pow256_8};
use super::rare_state::RareValue;
use super::EntryAmount;
use crate::frame::RevFrame;

verus! {

/// A frame stored as eight little-endian bytes, with an alignment of `1`.
#[derive(Clone, Copy, PartialEq, Eq, Debug, Hash)]
pub struct PackedRevFrame([u8; 8]);

impl PackedRevFrame {
    /// The frame the bytes stand for.
    pub closed spec fn frame(self) -> RevFrame {
        RevFrame(le_value(self.0@) as u64)
    }

    /// The frame as a packed frame.
    pub fn from_frame(frame: RevFrame) -> (r: Self)
        ensures
            r.frame() == frame,
    {
        proof {
            lemma_pow256_8();
        }
        match le_bytes_of(frame.0, 8) {
            Some(b) => {
                let packed = PackedRevFrame([b[0], b[1], b[2], b[3], b[4], b[5], b[6], b[7]]);
                proof {
                    assert(packed.0@ =~= b@);
                }
                packed
            },
            None => {
                proof {
                    assert(false);
                }
                PackedRevFrame([0, 0, 0, 0, 0, 0, 0, 0])
            },
        }
    }

    /// The frame the bytes stand for.
    pub fn to_frame(self) -> (r: RevFrame)
        ensures
            r == self.frame(),
    {
        proof {
            lemma_le_value_bound(self.0@);
            lemma_pow256_8();
        }
        RevFrame(le_value_of(&self.0))
    }
}

/// A log entry that knows the frame it was logged at.
pub trait LoggedAt {
    /// The frame the entry was logged at.
    spec fn spec_logged_at(&self) -> RevFrame;

    fn logged_at(&self) -> (r: RevFrame)
        ensures
            r == self.spec_logged_at(),
    ;
}

impl LoggedAt for RevFrame {
    open spec fn spec_logged_at(&self) -> RevFrame {
        *self
    }

    fn logged_at(&self) -> (r: RevFrame) {
        *self
    }
}

impl LoggedAt for PackedRevFrame {
    open spec fn spec_logged_at(&self) -> RevFrame {
        self.frame()
    }

    fn logged_at(&self) -> (r: RevFrame) {
        self.to_frame()
    }
}

impl<T> LoggedAt for ValueLoggedAt<T> {
    open spec fn spec_logged_at(&self) -> RevFrame {
        RevFrame(self.logged_at)
    }

    fn logged_at(&self) -> (r: RevFrame) {
        RevFrame(self.logged_at)
    }
}

impl<T: LoggedAt> LoggedAt for RareValue<T> {
    open spec fn spec_logged_at(&self) -> RevFrame {
        self.value.spec_logged_at()
    }

    fn logged_at(&self) -> (r: RevFrame) {
        self.value.logged_at()
    }
}

impl<U: LoggedAt, const AMOUNT_BYTES: usize> LoggedAt for EntryAmount<U, AMOUNT_BYTES> {
    open spec fn spec_logged_at(&self) -> RevFrame {
        self.spec_entry().spec_logged_at()
    }

    fn logged_at(&self) -> (r: RevFrame) {
        self.entry().logged_at()
    }
}

impl<T, U: LoggedAt> LoggedAt for (T, U) {
    open spec fn spec_logged_at(&self) -> RevFrame {
        self.1.spec_logged_at()
    }

    fn logged_at(&self) -> (r: RevFrame) {
        self.1.logged_at()
    }
}

} // verus!
