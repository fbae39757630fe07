//! Mission lifecycle: the closed status enumeration and its transition rules.
//!
//! The state machine is `Pending -> InProgress -> {Completed, Failed}`;
//! `Completed` and `Failed` are terminal.

use vstd::prelude::*;

verus! {

#[derive(Clone, Copy, PartialEq, Eq, Structural, Debug)]
pub enum MissionStatus {
    Pending,
    InProgress,
    Completed,
    Failed,
}

/// A terminal status admits no further transition.
pub open spec fn is_terminal(s: MissionStatus) -> bool {
    s == MissionStatus::Completed || s == MissionStatus::Failed
}

/// The edges of the mission state machine.
pub open spec fn allowed_transition(from: MissionStatus, to: MissionStatus) -> bool {
    ||| (from == MissionStatus::Pending && to == MissionStatus::InProgress)
    ||| (from == MissionStatus::InProgress && to == MissionStatus::Completed)
    ||| (from == MissionStatus::InProgress && to == MissionStatus::Failed)
}

impl MissionStatus {
    pub fn terminal(&self) -> (r: bool)
        ensures
            r == is_terminal(*self),
    {
        match *self {
            MissionStatus::Completed => true,
            MissionStatus::Failed => true,
            _ => false,
        }
    }

    pub fn can_transition_to(&self, to: &MissionStatus) -> (r: bool)
        ensures
            r == allowed_transition(*self, *to),
    {
        match (*self, *to) {
            (MissionStatus::Pending, MissionStatus::InProgress) => true,
            (MissionStatus::InProgress, MissionStatus::Completed) => true,
            (MissionStatus::InProgress, MissionStatus::Failed) => true,
            _ => false,
        }
    }

    /// Storage-facing name of the status.
    pub fn as_str(&self) -> (r: &'static str)
        ensures
            *self == MissionStatus::Pending ==> r@ == "Pending"@,
            *self == MissionStatus::InProgress ==> r@ == "InProgress"@,
            *self == MissionStatus::Completed ==> r@ == "Completed"@,
            *self == MissionStatus::Failed ==> r@ == "Failed"@,
    {
        match *self {
            MissionStatus::Pending => "Pending",
            MissionStatus::InProgress => "InProgress",
            MissionStatus::Completed => "Completed",
            MissionStatus::Failed => "Failed",
        }
    }
}

/// Once a mission is `Completed` or `Failed`, no target status is reachable.
pub proof fn lemma_terminal_is_final(from: MissionStatus, to: MissionStatus)
    ensures
        is_terminal(from) ==> !allowed_transition(from, to),
{
}

} // verus!
