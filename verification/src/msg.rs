//! The messages of the action protocol that the server reads and writes.

use crate::time::Time;
use vstd::prelude::*;

verus! {

/// The state of a goal as the server reports it.
#[derive(Clone, Copy, Debug, PartialEq, Eq, Structural)]
pub enum StatusCode {
    Pending,
    Active,
    Preempted,
    Succeeded,
    Aborted,
    Rejected,
    Preempting,
    Recalling,
    Recalled,
    Lost,
}

impl StatusCode {
    /// A state that a goal never leaves.
    pub open spec fn spec_is_terminal(self) -> bool {
        self is Preempted || self is Succeeded || self is Aborted || self is Rejected
            || self is Recalled || self is Lost
    }

    /// A state in which a cancel request is pending.
    pub open spec fn is_cancel_requested(self) -> bool {
        self is Preempting || self is Recalling
    }

    /// The state a goal enters when it is asked to cancel: a pending goal is
    /// being recalled, an active one is being preempted, any other stays.
    pub open spec fn cancel_requested(self) -> StatusCode {
        match self {
            StatusCode::Pending => StatusCode::Recalling,
            StatusCode::Active => StatusCode::Preempting,
            other => other,
        }
    }

    /// The state a goal enters when its cancellation completes, if it can be
    /// canceled: recalled before it was started, preempted after.
    pub open spec fn canceled(self) -> Option<StatusCode> {
        match self {
            StatusCode::Pending | StatusCode::Recalling => Some(StatusCode::Recalled),
            StatusCode::Active | StatusCode::Preempting => Some(StatusCode::Preempted),
            _ => None,
        }
    }

    #[verifier::when_used_as_spec(spec_is_terminal)]
    pub fn is_terminal(self) -> (r: bool)
        ensures
            r == self.spec_is_terminal(),
    {
        match self {
            StatusCode::Preempted
            | StatusCode::Succeeded
            | StatusCode::Aborted
            | StatusCode::Rejected
            | StatusCode::Recalled
            | StatusCode::Lost => true,
            _ => false,
        }
    }
}

/// The name of a goal and the time it was issued. As a cancel request it is a
/// filter: an empty name and a zero time stand for "every goal".
#[derive(Debug, PartialEq, Eq)]
pub struct GoalID {
    pub stamp: Time,
    pub id: String,
}

/// A `GoalID` as a mathematical value.
pub struct GoalIDView {
    pub stamp: Time,
    pub id: Seq<char>,
}

impl View for GoalID {
    type V = GoalIDView;

    open spec fn view(&self) -> GoalIDView {
        GoalIDView { stamp: self.stamp, id: self.id@ }
    }
}

impl Clone for GoalID {
    fn clone(&self) -> (r: Self)
        ensures
            r == *self,
    {
        GoalID { stamp: self.stamp, id: self.id.clone() }
    }
}

/// What the server reports of one goal.
#[derive(Debug, PartialEq, Eq)]
pub struct GoalStatus {
    pub goal_id: GoalID,
    pub status: StatusCode,
    pub text: String,
}

/// A `GoalStatus` as a mathematical value.
pub struct GoalStatusView {
    pub goal_id: GoalIDView,
    pub status: StatusCode,
    pub text: Seq<char>,
}

impl View for GoalStatus {
    type V = GoalStatusView;

    open spec fn view(&self) -> GoalStatusView {
        GoalStatusView { goal_id: self.goal_id@, status: self.status, text: self.text@ }
    }
}

impl Clone for GoalStatus {
    fn clone(&self) -> (r: Self)
        ensures
            r == *self,
    {
        GoalStatus { goal_id: self.goal_id.clone(), status: self.status, text: self.text.clone() }
    }
}

/// The states of all goals that the server tracks, taken at one moment. The
/// stamp is left at the epoch for the sender to set.
#[derive(Debug, PartialEq, Eq)]
pub struct GoalStatusArray {
    pub stamp: Time,
    pub status_list: Vec<GoalStatus>,
}

impl GoalStatusArray {
    /// The reported states, in order.
    pub open spec fn statuses(&self) -> Seq<GoalStatusView> {
        self.status_list@.map_values(|s: GoalStatus| s@)
    }
}

/// A request to the server: the goal's name and issue time, and what is asked.
#[derive(Debug)]
pub struct Goal<B> {
    pub id: GoalID,
    pub body: B,
}

/// A `Goal` as a mathematical value.
pub struct GoalView<B> {
    pub id: GoalIDView,
    pub body: B,
}

impl<B> View for Goal<B> {
    type V = GoalView<B>;

    open spec fn view(&self) -> GoalView<B> {
        GoalView { id: self.id@, body: self.body }
    }
}

} // verus!
