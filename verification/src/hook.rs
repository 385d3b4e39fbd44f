//! The direction that a component hook of a reversible component is triggered at.
use vstd::prelude::*;

use crate::meta::RevDirection;

verus! {

/// The direction the current hook is triggered at.
#[derive(Clone, Copy, PartialEq, Eq, Debug, Structural)]
pub enum HookDirection {
    /// Triggered by reversible systems in the forward schedule; this follows the hook logic
    /// of the ECS.
    Forward { log: bool },
    /// Triggered by reversible systems in the backward schedule as a reversible command: an
    /// `on_remove` hook with this direction stands for an undone remove.
    BackwardLog,
    /// Triggered by reversible systems in the forward schedule while logs are redone;
    /// reversible logic should not be done with this variant.
    IndeterministicForwardLog,
    /// Triggered by reversible systems in the backward schedule; reversible logic should not be
    /// done with this variant.
    IndeterministicBackwardLog,
    /// Triggered at any point outside reversible systems; reversible logic should not be done
    /// with this variant.
    NonReversibleSchedule,
}

impl From<RevDirection> for HookDirection {
    fn from(value: RevDirection) -> (r: Self) {
        match value {
            RevDirection::NotLog => HookDirection::Forward { log: false },
            RevDirection::ForwardLog => HookDirection::Forward { log: true },
            RevDirection::BackwardLog => HookDirection::BackwardLog,
        }
    }
}

impl vstd::std_specs::convert::FromSpecImpl<RevDirection> for HookDirection {
    open spec fn obeys_from_spec() -> bool {
        true
    }

    open spec fn from_spec(value: RevDirection) -> Self {
        match value {
            RevDirection::NotLog => HookDirection::Forward { log: false },
            RevDirection::ForwardLog => HookDirection::Forward { log: true },
            RevDirection::BackwardLog => HookDirection::BackwardLog,
        }
    }
}

impl TryFrom<HookDirection> for RevDirection {
    type Error = Option<RevDirection>;

    fn try_from(value: HookDirection) -> (r: Result<Self, Self::Error>) {
        match value {
            HookDirection::Forward { log: false } => Ok(RevDirection::NotLog),
            HookDirection::Forward { log: true } => Ok(RevDirection::ForwardLog),
            HookDirection::BackwardLog => Ok(RevDirection::BackwardLog),
            HookDirection::IndeterministicForwardLog => Err(Some(RevDirection::ForwardLog)),
            HookDirection::IndeterministicBackwardLog => Err(Some(RevDirection::BackwardLog)),
            HookDirection::NonReversibleSchedule => Err(None),
        }
    }
}

impl vstd::std_specs::convert::TryFromSpecImpl<HookDirection> for RevDirection {
    open spec fn obeys_try_from_spec() -> bool {
        true
    }

    open spec fn try_from_spec(value: HookDirection) -> Result<Self, Option<RevDirection>> {
        match value {
            HookDirection::Forward { log: false } => Ok(RevDirection::NotLog),
            HookDirection::Forward { log: true } => Ok(RevDirection::ForwardLog),
            HookDirection::BackwardLog => Ok(RevDirection::BackwardLog),
            HookDirection::IndeterministicForwardLog => Err(Some(RevDirection::ForwardLog)),
            HookDirection::IndeterministicBackwardLog => Err(Some(RevDirection::BackwardLog)),
            HookDirection::NonReversibleSchedule => Err(None),
        }
    }
}

impl HookDirection {
    /// The direction a hook sees for the direction the schedule moves in, or for no
    /// reversible schedule: while logs are redone or undone, the hook is triggered by the
    /// ECS itself and not as a reversible command.
    pub fn in_hook(direction: Option<RevDirection>) -> (r: Self)
        ensures
            r == (match direction {
                Some(RevDirection::NotLog) => HookDirection::Forward { log: false },
                Some(RevDirection::ForwardLog) => HookDirection::IndeterministicForwardLog,
                Some(RevDirection::BackwardLog) => HookDirection::IndeterministicBackwardLog,
                None => HookDirection::NonReversibleSchedule,
            }),
    {
        match direction {
            Some(RevDirection::NotLog) => HookDirection::Forward { log: false },
            Some(RevDirection::ForwardLog) => HookDirection::IndeterministicForwardLog,
            Some(RevDirection::BackwardLog) => HookDirection::IndeterministicBackwardLog,
            None => HookDirection::NonReversibleSchedule,
        }
    }

    /// Whether a hook triggered at this direction is recorded as a reversible command, so that
    /// moving through the log triggers it again: only hooks of systems that run without
    /// logging are.
    pub fn is_recorded(self) -> (recorded: bool)
        ensures
            recorded == (self == HookDirection::Forward { log: false }),
    {
        match self {
            HookDirection::Forward { log } => !log,
            _ => false,
        }
    }
}

} // verus!
