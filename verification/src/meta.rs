//! The direction in which the reversible schedule moves the world.
use vstd::prelude::*;

verus! {

/// How the reversible schedule moves the world in the present update.
#[derive(Clone, Copy, Debug, PartialEq, Eq, Structural, Hash)]
pub enum RevDirection {
    /// The world moves forward past the newest logged frame: systems run and log.
    NotLog,
    /// The world moves forward through logged frames: logs are redone.
    ForwardLog,
    /// The world moves backward through logged frames: logs are undone.
    BackwardLog,
}

} // verus!
