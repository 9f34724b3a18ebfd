//! The record that the server keeps of one goal.

use crate::msg::{Goal, GoalID, GoalIDView, GoalStatus, GoalStatusView, GoalView, StatusCode};
use crate::time::Time;
use vstd::prelude::*;

verus! {

/// The state of one goal, what the goal asks for if it has arrived, and the
/// time from which the record may be dropped. That time is zero while the goal
/// is live.
#[derive(Debug)]
pub struct StatusTracker<B> {
    pub status: GoalStatus,
    pub goal_body: Option<B>,
    pub handle_destruction_time: Time,
}

/// A `StatusTracker` as a mathematical value.
pub struct StatusTrackerView<B> {
    pub status: GoalStatusView,
    pub goal_body: Option<B>,
    pub handle_destruction_time: Time,
}

impl<B> View for StatusTracker<B> {
    type V = StatusTrackerView<B>;

    open spec fn view(&self) -> StatusTrackerView<B> {
        StatusTrackerView {
            status: self.status@,
            goal_body: self.goal_body,
            handle_destruction_time: self.handle_destruction_time,
        }
    }
}

impl<B> StatusTrackerView<B> {
    /// The name of the goal.
    pub open spec fn id(self) -> Seq<char> {
        self.status.goal_id.id
    }

    /// The state of the goal.
    pub open spec fn code(self) -> StatusCode {
        self.status.status
    }

    /// The record of a goal that has just arrived.
    pub open spec fn from_goal(goal: GoalView<B>) -> Self {
        StatusTrackerView {
            status: GoalStatusView {
                goal_id: goal.id,
                status: StatusCode::Pending,
                text: Seq::<char>::empty(),
            },
            goal_body: Some(goal.body),
            handle_destruction_time: Time { sec: 0, nsec: 0 },
        }
    }

    /// The record of a goal of which only the name and a state are known.
    pub open spec fn from_status(goal_id: GoalIDView, status: StatusCode) -> Self {
        StatusTrackerView {
            status: GoalStatusView { goal_id, status, text: Seq::<char>::empty() },
            goal_body: None,
            handle_destruction_time: Time { sec: 0, nsec: 0 },
        }
    }

    /// The record with its state replaced.
    pub open spec fn with_code(self, status: StatusCode) -> Self {
        StatusTrackerView {
            status: GoalStatusView { status, ..self.status },
            ..self
        }
    }

    /// The record with its text replaced.
    pub open spec fn with_text(self, text: Seq<char>) -> Self {
        StatusTrackerView {
            status: GoalStatusView { text, ..self.status },
            ..self
        }
    }

    /// The record with its destruction time replaced.
    pub open spec fn with_destruction_time(self, time: Time) -> Self {
        StatusTrackerView { handle_destruction_time: time, ..self }
    }

    /// The record after its destruction time was brought up to date at `now`:
    /// zero while the goal is live, `now` once its state is terminal.
    pub open spec fn refreshed(self, now: Time) -> Self {
        if self.code().spec_is_terminal() {
            self.with_destruction_time(now)
        } else {
            self.with_destruction_time(Time { sec: 0, nsec: 0 })
        }
    }

    /// A request to cancel changes the state of this goal.
    pub open spec fn accepts_cancel(self) -> bool {
        self.code() is Pending || self.code() is Active
    }

    /// The record after the goal was asked to cancel.
    pub open spec fn cancel_requested(self) -> Self {
        self.with_code(self.code().cancel_requested())
    }

    /// The record after a cancel request that names or covers the goal: the
    /// destruction time is brought up to date, then the goal is asked to cancel.
    pub open spec fn invited(self, now: Time) -> Self {
        self.refreshed(now).cancel_requested()
    }

    /// The record after the goal arrived once more: the destruction time is
    /// brought up to date, and a goal that was being recalled is now recalled.
    pub open spec fn redelivered(self, now: Time) -> Self {
        if self.code() is Recalling {
            self.refreshed(now).with_code(StatusCode::Recalled)
        } else {
            self.refreshed(now)
        }
    }

    /// The record after the goal's cancellation completed at `now`, for a goal
    /// that can be canceled.
    pub open spec fn canceled(self, text: Seq<char>, now: Time) -> Self {
        self.with_code(self.code().canceled().unwrap()).with_text(text).with_destruction_time(now)
    }
}

impl<B> StatusTracker<B> {
    /// A record for a goal that has just arrived: pending, with no text, live.
    pub fn from_goal(goal: Goal<B>) -> (r: Self)
        ensures
            r@ == StatusTrackerView::from_goal(goal@),
    {
        StatusTracker {
            status: GoalStatus { goal_id: goal.id, status: StatusCode::Pending, text: String::new() },
            goal_body: Some(goal.body),
            handle_destruction_time: Time::new(),
        }
    }

    /// A record that stands in for a goal of which only the name is known.
    pub fn from_status(goal_id: GoalID, status: StatusCode) -> (r: Self)
        ensures
            r@ == StatusTrackerView::<B>::from_status(goal_id@, status),
    {
        StatusTracker {
            status: GoalStatus { goal_id, status, text: String::new() },
            goal_body: None,
            handle_destruction_time: Time::new(),
        }
    }

    /// Brings the destruction time up to date: zero while the goal is live,
    /// `now` once its state is terminal.
    pub fn refresh_destruction_time(&mut self, now: Time)
        ensures
            final(self)@ == old(self)@.refreshed(now),
    {
        if self.status.status.is_terminal() {
            self.handle_destruction_time = now;
        } else {
            self.handle_destruction_time = Time::new();
        }
    }
}

} // verus!
