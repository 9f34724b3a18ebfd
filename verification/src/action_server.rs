//! The bookkeeping of an action server: which goals it tracks, in what state,
//! and what is to be done when a goal or a cancel request arrives.
//!
//! The server itself sends nothing and calls nobody. Each operation changes the
//! state and returns what is to be sent or called, so that the one who holds
//! the lock can do so.
//!
//! The model of the state is a `ServerView`: the records of the tracked goals
//! in the order in which they were added, the time of the latest cancel
//! request, and the time for which a finished goal stays listed. No goal is
//! listed twice (`ServerView::wf`): a new server has it so, and every
//! operation keeps it so.

use crate::msg::{
    Goal, GoalID, GoalIDView, GoalStatus, GoalStatusArray, GoalStatusView, GoalView, StatusCode,
};
use crate::status_tracker::{StatusTracker, StatusTrackerView};
use crate::time::Time;
use vstd::prelude::*;

verus! {

/// The state of a server as a mathematical value.
pub struct ServerView<B> {
    /// The records of the listed goals, in the order in which they were added.
    pub trackers: Seq<StatusTrackerView<B>>,
    /// The time of the latest cancel request, in nanoseconds.
    pub last_cancel_ns: int,
    /// The time in nanoseconds for which the record of a finished goal stays listed.
    pub status_list_timeout: int,
}

/// The records of a list, each by its view.
pub open spec fn tracker_views<B>(list: Seq<StatusTracker<B>>) -> Seq<StatusTrackerView<B>> {
    list.map_values(|t: StatusTracker<B>| t@)
}

/// The record is of a finished goal and has been kept for longer than `timeout`
/// nanoseconds at `now`. A record whose destruction time is zero never is.
pub open spec fn expired<B>(t: StatusTrackerView<B>, timeout: int, now: Time) -> bool {
    t.handle_destruction_time@ != 0 && t.handle_destruction_time@ + timeout < now@
}

/// The test by which a sweep at `now` keeps a record.
pub open spec fn kept<B>(timeout: int, now: Time) -> spec_fn(StatusTrackerView<B>) -> bool {
    |t: StatusTrackerView<B>| !expired(t, timeout, now)
}

/// The cancel request `filter` names or covers the goal of record `t`: the
/// request is for every goal, or names this goal, or carries a time that is
/// not before the goal's own.
pub open spec fn selected<B>(t: StatusTrackerView<B>, filter: GoalIDView) -> bool {
    ||| filter.id.len() == 0 && filter.stamp@ == 0
    ||| t.id() == filter.id
    ||| filter.stamp@ != 0 && t.status.goal_id.stamp@ <= filter.stamp@
}

/// The record that keeps a cancel request whose goal has not arrived yet.
pub open spec fn placeholder<B>(filter: GoalIDView, now: Time) -> StatusTrackerView<B> {
    StatusTrackerView::from_status(filter, StatusCode::Recalling).with_destruction_time(now)
}

/// The test for the goals whose state the cancel request `filter` changes.
pub open spec fn invites<B>(filter: GoalIDView) -> spec_fn(StatusTrackerView<B>) -> bool {
    |t: StatusTrackerView<B>| selected(t, filter) && t.accepts_cancel()
}

/// What the cancel request `filter`, arriving at `now`, makes of a record.
pub open spec fn cancel_applied<B>(filter: GoalIDView, now: Time) -> spec_fn(
    StatusTrackerView<B>,
) -> StatusTrackerView<B> {
    |t: StatusTrackerView<B>|
        if selected(t, filter) {
            t.invited(now)
        } else {
            t
        }
}

/// The text of a goal that is canceled on arrival.
pub open spec fn stale_goal_text() -> Seq<char> {
    "This goal handle was canceled by the action server because its timestamp is before the timestamp of the last cancel request"@
}

impl<B> ServerView<B> {
    /// No goal is listed twice.
    pub open spec fn wf(self) -> bool {
        forall|i: int, j: int|
            0 <= i < j < self.trackers.len() ==> self.trackers[i].id() != self.trackers[j].id()
    }

    /// A goal of this name is listed.
    pub open spec fn has(self, id: Seq<char>) -> bool {
        exists|i: int| 0 <= i < self.trackers.len() && #[trigger] self.trackers[i].id() == id
    }

    /// The state after the sweep at `now`: the expired records are gone, the
    /// others stand as they stood.
    pub open spec fn swept(self, now: Time) -> Self {
        ServerView {
            trackers: self.trackers.filter(kept(self.status_list_timeout, now)),
            ..self
        }
    }

    /// The place of the goal of this name in the list, where it is listed.
    pub open spec fn index_of(self, id: Seq<char>) -> int {
        choose|i: int| 0 <= i < self.trackers.len() && #[trigger] self.trackers[i].id() == id
    }

    /// The state with `f` applied to the record of the goal of this name.
    pub open spec fn with_named(
        self,
        id: Seq<char>,
        f: spec_fn(StatusTrackerView<B>) -> StatusTrackerView<B>,
    ) -> Self {
        ServerView {
            trackers: self.trackers.map_values(
                |t: StatusTrackerView<B>|
                    if t.id() == id {
                        f(t)
                    } else {
                        t
                    },
            ),
            ..self
        }
    }

    /// The state with one more record at the end.
    pub open spec fn with_added(self, t: StatusTrackerView<B>) -> Self {
        ServerView { trackers: self.trackers.push(t), ..self }
    }

    /// The state after `t` was put into the list: in the place of the record
    /// of the same goal, or at the end where the goal was not listed.
    pub open spec fn inserted(self, t: StatusTrackerView<B>) -> Self {
        if self.has(t.id()) {
            self.with_named(t.id(), |x: StatusTrackerView<B>| t)
        } else {
            self.with_added(t)
        }
    }

    /// The state after the goal of this name was asked to cancel.
    pub open spec fn cancel_requested(self, id: Seq<char>) -> Self {
        self.with_named(id, |t: StatusTrackerView<B>| t.cancel_requested())
    }

    /// The goal of this name is listed and can be canceled.
    pub open spec fn can_cancel(self, id: Seq<char>) -> bool {
        self.has(id) && self.trackers[self.index_of(id)].code().canceled() is Some
    }

    /// The state after the cancellation of the goal of this name completed at
    /// `now`; the state itself where the goal cannot be canceled.
    pub open spec fn canceled(self, id: Seq<char>, text: Seq<char>, now: Time) -> Self {
        if self.can_cancel(id) {
            self.with_named(id, |t: StatusTrackerView<B>| t.canceled(text, now))
        } else {
            self
        }
    }

    /// The state after the cancel request `filter` arrived at `now`. Every goal
    /// that the request names or covers is invited to cancel. A request that
    /// names a goal which is not listed leaves a placeholder for it. The time
    /// of the latest cancel request moves forward to that of this one.
    pub open spec fn cancel_received(self, filter: GoalIDView, now: Time) -> Self {
        let invited = self.trackers.map_values(cancel_applied(filter, now));
        ServerView {
            trackers: if filter.id.len() > 0 && !self.has(filter.id) {
                invited.push(placeholder(filter, now))
            } else {
                invited
            },
            last_cancel_ns: if filter.stamp@ > self.last_cancel_ns {
                filter.stamp@
            } else {
                self.last_cancel_ns
            },
            ..self
        }
    }

    /// The names of the goals whose state the cancel request `filter` changes,
    /// in the order of the list: the goals for which the user is to be told.
    pub open spec fn cancel_callbacks(self, filter: GoalIDView) -> Seq<Seq<char>> {
        self.trackers.filter(invites(filter)).map_values(|t: StatusTrackerView<B>| t.id())
    }

    /// A goal issued at `stamp` is older than the latest cancel request.
    pub open spec fn stale(self, stamp: Time) -> bool {
        stamp@ != 0 && stamp@ <= self.last_cancel_ns
    }

    /// The state after `goal` arrived at `now`. A goal that is listed is
    /// delivered once more. A new goal is listed as pending, or, where it is
    /// older than the latest cancel request, as recalled at `now`.
    pub open spec fn goal_received(self, goal: GoalView<B>, now: Time) -> Self {
        if self.has(goal.id.id) {
            self.with_named(goal.id.id, |t: StatusTrackerView<B>| t.redelivered(now))
        } else if self.stale(goal.id.stamp) {
            self.with_added(StatusTrackerView::from_goal(goal).canceled(stale_goal_text(), now))
        } else {
            self.with_added(StatusTrackerView::from_goal(goal))
        }
    }

    /// What is to be done after `goal` arrived at `now`.
    pub open spec fn goal_outcome(self, goal: GoalView<B>, now: Time) -> GoalOutcomeView {
        if self.has(goal.id.id) {
            let t = self.trackers[self.index_of(goal.id.id)];
            GoalOutcomeView::Known {
                recalled: if t.code() is Recalling {
                    Some(t.redelivered(now).status)
                } else {
                    None
                },
            }
        } else if self.stale(goal.id.stamp) {
            GoalOutcomeView::Canceled {
                status: StatusTrackerView::from_goal(goal).canceled(stale_goal_text(), now).status,
            }
        } else {
            GoalOutcomeView::Accepted { goal_id: goal.id.id }
        }
    }

    /// What is reported of the listed goals, in their order.
    pub open spec fn statuses(self) -> Seq<GoalStatusView> {
        self.trackers.map_values(|t: StatusTrackerView<B>| t.status)
    }
}

/// The ways in which an operation of the server fails.
#[derive(Clone, Copy, Debug, PartialEq, Eq, Structural)]
pub enum ActionError {
    /// The server is gone while one of its handles is still used.
    ServerGone,
    /// The transport could not send or subscribe.
    TransportFailure,
    /// The goal is in no state in which the operation applies.
    ProtocolMisuse,
}

/// The name of one goal, by which the user acts on it.
#[derive(Debug)]
pub struct ServerGoalHandle {
    goal_id: String,
}

impl View for ServerGoalHandle {
    type V = Seq<char>;

    /// The name of the goal.
    closed spec fn view(&self) -> Seq<char> {
        self.goal_id@
    }
}

/// What is to be done after a goal arrived.
#[derive(Debug)]
pub enum GoalOutcome {
    /// The goal was listed already. Where it was being recalled it is now
    /// recalled, and `recalled` is to be published with an empty result.
    Known { recalled: Option<GoalStatus> },
    /// The goal is older than the latest cancel request and was canceled on
    /// arrival: `status` is to be published with an empty result.
    Canceled { status: GoalStatus },
    /// The goal is new: the user is to be told, with this handle.
    Accepted { handle: ServerGoalHandle },
}

/// A `GoalOutcome` as a mathematical value.
pub enum GoalOutcomeView {
    Known { recalled: Option<GoalStatusView> },
    Canceled { status: GoalStatusView },
    Accepted { goal_id: Seq<char> },
}

impl View for GoalOutcome {
    type V = GoalOutcomeView;

    open spec fn view(&self) -> GoalOutcomeView {
        match self {
            GoalOutcome::Known { recalled } => GoalOutcomeView::Known {
                recalled: match recalled {
                    Some(s) => Some(s@),
                    None => None,
                },
            },
            GoalOutcome::Canceled { status } => GoalOutcomeView::Canceled { status: status@ },
            GoalOutcome::Accepted { handle } => GoalOutcomeView::Accepted { goal_id: handle@ },
        }
    }
}

/// The names of the goals of a list of handles.
pub open spec fn handle_names(handles: Seq<ServerGoalHandle>) -> Seq<Seq<char>> {
    handles.map_values(|h: ServerGoalHandle| h@)
}

/// The goals of an action server and the time of the latest cancel request.
pub struct ActionServerState<B> {
    status_list: Vec<StatusTracker<B>>,
    last_cancel_ns: i64,
    status_list_timeout: i64,
}

impl<B> View for ActionServerState<B> {
    type V = ServerView<B>;

    closed spec fn view(&self) -> ServerView<B> {
        ServerView {
            trackers: tracker_views(self.status_list@),
            last_cancel_ns: self.last_cancel_ns as int,
            status_list_timeout: self.status_list_timeout as int,
        }
    }
}

impl<B> ActionServerState<B> {
    /// A server that tracks no goal and has seen no cancel request.
    /// `status_list_timeout` is the time in nanoseconds for which the record of
    /// a finished goal stays listed.
    pub fn new(status_list_timeout: i64) -> (r: Self)
        ensures
            r@ == (ServerView::<B> {
                trackers: Seq::empty(),
                last_cancel_ns: 0,
                status_list_timeout: status_list_timeout as int,
            }),
            r@.wf(),
    {
        let r = ActionServerState { status_list: Vec::new(), last_cancel_ns: 0, status_list_timeout };
        assert(r@.trackers =~= Seq::empty());
        r
    }

    /// The time of the latest cancel request, in nanoseconds.
    pub fn last_cancel_ns(&self) -> (r: i64)
        ensures
            r == self@.last_cancel_ns,
    {
        self.last_cancel_ns
    }

    /// The time in nanoseconds for which the record of a finished goal stays listed.
    pub fn status_list_timeout(&self) -> (r: i64)
        ensures
            r == self@.status_list_timeout,
    {
        self.status_list_timeout
    }

    /// The number of goals listed.
    pub fn len(&self) -> (r: usize)
        ensures
            r == self@.trackers.len(),
    {
        self.status_list.len()
    }

    /// Drops the records that have expired at `now` and reports the states of
    /// the goals that stay, in the order in which they are listed.
    pub fn get_status_array(&mut self, now: Time) -> (r: GoalStatusArray)
        requires
            old(self)@.wf(),
        ensures
            final(self)@ == old(self)@.swept(now),
            final(self)@.wf(),
            r.statuses() == final(self)@.statuses(),
            r.stamp == (Time { sec: 0, nsec: 0 }),
    {
        let now_ns: i64 = now.nanos();
        let timeout: i64 = self.status_list_timeout;
        let ghost before = self@.trackers;
        let ghost keep = kept::<B>(timeout as int, now);
        let ghost mut done: int = 0;
        let mut i: usize = 0;
        assert(before.take(0) =~= Seq::empty());
        assert(before.skip(0) =~= before);
        proof {
            reveal(Seq::filter);
        }
        while i < self.status_list.len()
            invariant
                0 <= done <= before.len(),
                i == before.take(done).filter(keep).len(),
                self@.trackers =~= before.take(done).filter(keep) + before.skip(done),
                self@.wf(),
                self.status_list_timeout == timeout,
                self.last_cancel_ns == old(self).last_cancel_ns,
                now_ns == now@,
                keep == kept::<B>(timeout as int, now),
            decreases before.len() - done,
        {
            let ghost cur = self@.trackers;
            assert(cur[i as int] == before.skip(done)[0]);
            assert(before.take(done + 1) =~= before.take(done).push(before[done]));
            proof {
                before.take(done).lemma_filter_push(before[done], keep);
            }
            let destruction: i64 = self.status_list[i].handle_destruction_time.nanos();
            if destruction != 0 && (destruction as i128) + (timeout as i128) < (now_ns as i128) {
                let gone = self.status_list.remove(i);
                assert(self@.trackers =~= cur.remove(i as int));
                assert(self@.trackers =~= before.take(done + 1).filter(keep) + before.skip(done + 1));
                assert(self@.wf()) by {
                    assert forall|a: int, b: int| 0 <= a < b < self@.trackers.len() implies self@.trackers[a].id()
                        != self@.trackers[b].id() by {
                        let a0 = if a < i { a } else { a + 1 };
                        let b0 = if b < i { b } else { b + 1 };
                        assert(self@.trackers[a] == cur[a0]);
                        assert(self@.trackers[b] == cur[b0]);
                    }
                }
            } else {
                i = i + 1;
                assert(self@.trackers =~= before.take(done + 1).filter(keep) + before.skip(done + 1));
            }
            proof {
                done = done + 1;
            }
        }
        assert(before.take(done) =~= before);
        assert(self@.trackers =~= before.filter(keep));

        let mut statuses: Vec<GoalStatus> = Vec::new();
        let mut k: usize = 0;
        while k < self.status_list.len()
            invariant
                0 <= k <= self.status_list.len(),
                statuses.len() == k,
                forall|m: int| 0 <= m < k ==> statuses[m] == self.status_list[m].status,
            decreases self.status_list.len() - k,
        {
            statuses.push(self.status_list[k].status.clone());
            k = k + 1;
        }
        let r = GoalStatusArray { stamp: Time::new(), status_list: statuses };
        assert(r.statuses() =~= self@.statuses());
        r
    }
}

impl ServerGoalHandle {
    /// The handle of the goal of this name.
    pub fn new(goal_id: String) -> (r: Self)
        ensures
            r@ == goal_id@,
    {
        ServerGoalHandle { goal_id }
    }

    /// The name of the goal.
    pub fn goal_id(&self) -> (r: &String)
        ensures
            r@ == self@,
    {
        &self.goal_id
    }

    /// Completes the cancellation of the goal at `now`, with `text` as the
    /// reason. Returns what is to be published as the goal's result. Fails, and
    /// leaves the server as it is, where the goal is not listed or is in no
    /// state from which it can be canceled.
    pub fn set_canceled<B>(&self, state: &mut ActionServerState<B>, text: &str, now: Time) -> (r: Result<
        GoalStatus,
        ActionError,
    >)
        requires
            old(state)@.wf(),
        ensures
            final(state)@ == old(state)@.canceled(self@, text@, now),
            final(state)@.wf(),
            old(state)@.can_cancel(self@) ==> r is Ok && r->Ok_0@ == old(state)@.trackers[old(
                state,
            )@.index_of(self@)].canceled(text@, now).status,
            !old(state)@.can_cancel(self@) ==> r == Err::<GoalStatus, ActionError>(
                ActionError::ProtocolMisuse,
            ),
    {
        state.set_canceled(&self.goal_id, text, now)
    }

    /// Asks the goal to cancel. Returns whether that changed the goal's state.
    pub fn set_cancel_requested<B>(&self, state: &mut ActionServerState<B>) -> (r: bool)
        requires
            old(state)@.wf(),
        ensures
            final(state)@ == old(state)@.cancel_requested(self@),
            final(state)@.wf(),
            r == (old(state)@.has(self@) && old(state)@.trackers[old(state)@.index_of(
                self@,
            )].accepts_cancel()),
    {
        state.set_cancel_requested(&self.goal_id)
    }
}

/// In a list without repetition the place of a name is the one where it stands.
pub proof fn lemma_index_of<B>(v: ServerView<B>, i: int)
    requires
        v.wf(),
        0 <= i < v.trackers.len(),
    ensures
        v.has(v.trackers[i].id()),
        v.index_of(v.trackers[i].id()) == i,
{
    let id = v.trackers[i].id();
    assert(v.trackers[i].id() == id);
    let k = v.index_of(id);
    assert(0 <= k < v.trackers.len() && v.trackers[k].id() == id);
    if k < i {
        assert(v.trackers[k].id() != v.trackers[i].id());
    }
    if i < k {
        assert(v.trackers[i].id() != v.trackers[k].id());
    }
}

/// A change to the one record of a name changes the list where that record stands.
pub proof fn lemma_with_named<B>(
    v: ServerView<B>,
    i: int,
    f: spec_fn(StatusTrackerView<B>) -> StatusTrackerView<B>,
)
    requires
        v.wf(),
        0 <= i < v.trackers.len(),
    ensures
        v.with_named(v.trackers[i].id(), f).trackers == v.trackers.update(i, f(v.trackers[i])),
{
    let id = v.trackers[i].id();
    let a = v.with_named(id, f).trackers;
    let b = v.trackers.update(i, f(v.trackers[i]));
    assert forall|j: int| 0 <= j < a.len() implies a[j] == b[j] by {
        if j < i {
            assert(v.trackers[j].id() != v.trackers[i].id());
        }
        if i < j {
            assert(v.trackers[i].id() != v.trackers[j].id());
        }
    }
    assert(a =~= b);
}

impl<B> ActionServerState<B> {
    /// The place of the goal of this name in the list.
    fn find(&self, id: &String) -> (r: Option<usize>)
        ensures
            match r {
                Some(i) => i < self@.trackers.len() && self@.trackers[i as int].id() == id@,
                None => !self@.has(id@),
            },
    {
        let mut i: usize = 0;
        while i < self.status_list.len()
            invariant
                i <= self.status_list.len(),
                forall|j: int| 0 <= j < i ==> self@.trackers[j].id() != id@,
            decreases self.status_list.len() - i,
        {
            if self.status_list[i].status.goal_id.id == *id {
                return Some(i);
            }
            i = i + 1;
        }
        None
    }

    /// The record of the goal of this name, if it is listed.
    pub fn get(&self, goal_id: &String) -> (r: Option<&StatusTracker<B>>)
        requires
            self@.wf(),
        ensures
            r is Some <==> self@.has(goal_id@),
            r matches Some(t) ==> t@ == self@.trackers[self@.index_of(goal_id@)],
    {
        match self.find(goal_id) {
            Some(i) => {
                proof {
                    lemma_index_of(self@, i as int);
                }
                Some(&self.status_list[i])
            },
            None => None,
        }
    }

    /// Puts a record into the list: in the place of the record of the same
    /// goal, or at the end where the goal is not listed yet.
    pub fn add_status_tracker(&mut self, tracker: StatusTracker<B>)
        requires
            old(self)@.wf(),
        ensures
            final(self)@ == old(self)@.inserted(tracker@),
            final(self)@.wf(),
    {
        let ghost before = self@;
        match self.find(&tracker.status.goal_id.id) {
            Some(i) => {
                proof {
                    lemma_with_named(before, i as int, |x: StatusTrackerView<B>| tracker@);
                }
                self.status_list.set(i, tracker);
                assert(self@.trackers =~= before.trackers.update(i as int, tracker@));
            },
            None => {
                self.status_list.push(tracker);
                assert(self@.trackers =~= before.trackers.push(tracker@));
            },
        }
    }

    /// Asks the goal of this name to cancel. Returns whether that changed the
    /// goal's state.
    pub fn set_cancel_requested(&mut self, goal_id: &String) -> (r: bool)
        requires
            old(self)@.wf(),
        ensures
            final(self)@ == old(self)@.cancel_requested(goal_id@),
            final(self)@.wf(),
            r == (old(self)@.has(goal_id@) && old(self)@.trackers[old(self)@.index_of(
                goal_id@,
            )].accepts_cancel()),
    {
        let ghost before = self@;
        match self.find(goal_id) {
            Some(i) => {
                proof {
                    lemma_index_of(before, i as int);
                    lemma_with_named(
                        before,
                        i as int,
                        |t: StatusTrackerView<B>| t.cancel_requested(),
                    );
                }
                let code = self.status_list[i].status.status;
                let next = match code {
                    StatusCode::Pending => StatusCode::Recalling,
                    StatusCode::Active => StatusCode::Preempting,
                    other => other,
                };
                self.status_list[i].status.status = next;
                assert(self@.trackers =~= before.trackers.update(
                    i as int,
                    before.trackers[i as int].cancel_requested(),
                ));
                matches!(code, StatusCode::Pending | StatusCode::Active)
            },
            None => {
                assert(self@.trackers =~= before.cancel_requested(goal_id@).trackers);
                false
            },
        }
    }

    /// Completes the cancellation of the goal of this name at `now`, with `text`
    /// as the reason: a goal that was not started yet is recalled, a started
    /// one preempted. Returns what is to be published as the goal's result.
    /// Fails, and leaves the server as it is, where the goal is not listed or
    /// is in no state from which it can be canceled.
    pub fn set_canceled(&mut self, goal_id: &String, text: &str, now: Time) -> (r: Result<
        GoalStatus,
        ActionError,
    >)
        requires
            old(self)@.wf(),
        ensures
            final(self)@ == old(self)@.canceled(goal_id@, text@, now),
            final(self)@.wf(),
            old(self)@.can_cancel(goal_id@) ==> r is Ok && r->Ok_0@ == old(self)@.trackers[old(
                self,
            )@.index_of(goal_id@)].canceled(text@, now).status,
            !old(self)@.can_cancel(goal_id@) ==> r == Err::<GoalStatus, ActionError>(
                ActionError::ProtocolMisuse,
            ),
    {
        let ghost before = self@;
        match self.find(goal_id) {
            Some(i) => {
                proof {
                    lemma_index_of(before, i as int);
                    lemma_with_named(
                        before,
                        i as int,
                        |t: StatusTrackerView<B>| t.canceled(text@, now),
                    );
                }
                let next = match self.status_list[i].status.status {
                    StatusCode::Pending | StatusCode::Recalling => StatusCode::Recalled,
                    StatusCode::Active | StatusCode::Preempting => StatusCode::Preempted,
                    _ => {
                        return Err(ActionError::ProtocolMisuse);
                    },
                };
                self.status_list[i].status.status = next;
                self.status_list[i].status.text = String::from_str(text);
                self.status_list[i].handle_destruction_time = now;
                assert(self@.trackers =~= before.trackers.update(
                    i as int,
                    before.trackers[i as int].canceled(text@, now),
                ));
                Ok(self.status_list[i].status.clone())
            },
            None => Err(ActionError::ProtocolMisuse),
        }
    }

    /// Takes in a goal that arrived at `now`, and says what is to be done.
    ///
    /// A goal that is listed already is not started again: its destruction
    /// time is brought up to date, and where a cancel request had come before
    /// the goal, the goal is now recalled. A new goal is listed. Where it was
    /// issued, at a time other than zero, no later than the latest cancel
    /// request, it is canceled at once; otherwise it is for the user to start.
    pub fn handle_on_goal(&mut self, goal: Goal<B>, now: Time) -> (r: GoalOutcome)
        requires
            old(self)@.wf(),
        ensures
            final(self)@ == old(self)@.goal_received(goal@, now),
            final(self)@.wf(),
            r@ == old(self)@.goal_outcome(goal@, now),
    {
        let ghost before = self@;
        match self.find(&goal.id.id) {
            Some(i) => {
                proof {
                    lemma_index_of(before, i as int);
                    lemma_with_named(before, i as int, |t: StatusTrackerView<B>| t.redelivered(now));
                }
                self.status_list[i].refresh_destruction_time(now);
                let recalled = if matches!(self.status_list[i].status.status, StatusCode::Recalling) {
                    self.status_list[i].status.status = StatusCode::Recalled;
                    Some(self.status_list[i].status.clone())
                } else {
                    None
                };
                assert(self@.trackers =~= before.trackers.update(
                    i as int,
                    before.trackers[i as int].redelivered(now),
                ));
                GoalOutcome::Known { recalled }
            },
            None => {
                let goal_id = goal.id.id.clone();
                let goal_timestamp: i64 = goal.id.stamp.nanos();
                let mut tracker = StatusTracker::from_goal(goal);
                if goal_timestamp != 0 && goal_timestamp <= self.last_cancel_ns {
                    tracker.status.status = StatusCode::Recalled;
                    tracker.status.text = String::from_str(
                        "This goal handle was canceled by the action server because its timestamp is before the timestamp of the last cancel request",
                    );
                    tracker.handle_destruction_time = now;
                    let status = tracker.status.clone();
                    self.status_list.push(tracker);
                    assert(self@.trackers =~= before.trackers.push(tracker@));
                    GoalOutcome::Canceled { status }
                } else {
                    self.status_list.push(tracker);
                    assert(self@.trackers =~= before.trackers.push(tracker@));
                    GoalOutcome::Accepted { handle: ServerGoalHandle::new(goal_id) }
                }
            },
        }
    }

    /// Invites the goal in place `i` to cancel: brings its destruction time up
    /// to date and asks it to cancel. Returns whether that changed its state.
    fn invite(&mut self, i: usize, now: Time) -> (r: bool)
        requires
            i < old(self)@.trackers.len(),
        ensures
            final(self)@ == (ServerView {
                trackers: old(self)@.trackers.update(
                    i as int,
                    old(self)@.trackers[i as int].invited(now),
                ),
                ..old(self)@
            }),
            r == old(self)@.trackers[i as int].accepts_cancel(),
    {
        let ghost before = self@;
        self.status_list[i].refresh_destruction_time(now);
        let code = self.status_list[i].status.status;
        let next = match code {
            StatusCode::Pending => StatusCode::Recalling,
            StatusCode::Active => StatusCode::Preempting,
            other => other,
        };
        self.status_list[i].status.status = next;
        assert(self@.trackers =~= before.trackers.update(
            i as int,
            before.trackers[i as int].invited(now),
        ));
        matches!(code, StatusCode::Pending | StatusCode::Active)
    }

    /// Takes in a cancel request that arrived at `now`, and returns the handles
    /// of the goals for which the user is to be told, in the order of the list.
    ///
    /// The request is for every goal where it has no name and a zero time.
    /// Else it is for the goal that it names, and, where its time is not zero,
    /// for every goal issued no later than that. Each such goal has its
    /// destruction time brought up to date and is asked to cancel; the user is
    /// told of those whose state this changed. Where the request names a goal
    /// that is not listed, a placeholder is listed for it, so that the goal is
    /// recalled when it arrives. The time of the latest cancel request moves
    /// forward to the time of this request, never back.
    pub fn handle_on_cancel(&mut self, filter: GoalID, now: Time) -> (r: Vec<ServerGoalHandle>)
        requires
            old(self)@.wf(),
        ensures
            final(self)@ == old(self)@.cancel_received(filter@, now),
            final(self)@.wf(),
            handle_names(r@) == old(self)@.cancel_callbacks(filter@),
    {
        let ghost before = self@;
        let ghost apply = cancel_applied::<B>(filter@, now);
        let ghost told = invites::<B>(filter@);
        let filter_stamp: i64 = filter.stamp.nanos();
        let cancel_everything = filter.id.as_str().is_empty() && filter_stamp == 0;
        let mut goal_id_found = false;
        let mut handles: Vec<ServerGoalHandle> = Vec::new();
        let mut i: usize = 0;
        assert(before.trackers.take(0) =~= Seq::empty());
        proof {
            reveal(Seq::filter);
        }
        assert(handle_names(handles@) =~= before.trackers.take(0).filter(told).map_values(
            |t: StatusTrackerView<B>| t.id(),
        ));
        while i < self.status_list.len()
            invariant
                i <= self.status_list.len(),
                self@.trackers.len() == before.trackers.len(),
                self@.last_cancel_ns == before.last_cancel_ns,
                self@.status_list_timeout == before.status_list_timeout,
                forall|j: int| 0 <= j < i ==> self@.trackers[j] == apply(before.trackers[j]),
                forall|j: int| i <= j < before.trackers.len() ==> self@.trackers[j] == before.trackers[j],
                goal_id_found <==> exists|j: int| 0 <= j < i && #[trigger] before.trackers[j].id() == filter@.id,
                handle_names(handles@) =~= before.trackers.take(i as int).filter(told).map_values(
                    |t: StatusTrackerView<B>| t.id(),
                ),
                apply == cancel_applied::<B>(filter@, now),
                told == invites::<B>(filter@),
                filter_stamp == filter@.stamp@,
                cancel_everything == (filter@.id.len() == 0 && filter@.stamp@ == 0),
            decreases self.status_list.len() - i,
        {
            let ghost cur = before.trackers[i as int];
            assert(before.trackers.take(i + 1) =~= before.trackers.take(i as int).push(cur));
            proof {
                before.trackers.take(i as int).lemma_filter_push(cur, told);
            }
            let cancel_this = self.status_list[i].status.goal_id.id == filter.id;
            let cancel_before_stamp = filter_stamp != 0 && self.status_list[i].status.goal_id.stamp.nanos()
                <= filter_stamp;
            if cancel_everything || cancel_this || cancel_before_stamp {
                goal_id_found = goal_id_found || cancel_this;
                let changed = self.invite(i, now);
                assert(self.status_list@.len() == self@.trackers.len());
                if changed {
                    let ghost names = handle_names(handles@);
                    assert(self.status_list[i as int]@ == self@.trackers[i as int]);
                    handles.push(ServerGoalHandle::new(self.status_list[i].status.goal_id.id.clone()));
                    assert(handle_names(handles@) =~= names.push(cur.id()));
                }
            }
            assert(handle_names(handles@) =~= before.trackers.take(i + 1).filter(told).map_values(
                |t: StatusTrackerView<B>| t.id(),
            ));
            i = i + 1;
        }
        assert(before.trackers.take(i as int) =~= before.trackers);
        assert(self@.trackers =~= before.trackers.map_values(apply));
        assert(goal_id_found == before.has(filter@.id));
        if !filter.id.as_str().is_empty() && !goal_id_found {
            let mut tracker = StatusTracker::from_status(filter, StatusCode::Recalling);
            tracker.handle_destruction_time = now;
            self.status_list.push(tracker);
            assert(self@.trackers =~= before.trackers.map_values(apply).push(
                placeholder(filter@, now),
            ));
        }
        if filter_stamp > self.last_cancel_ns {
            self.last_cancel_ns = filter_stamp;
        }
        handles
    }
}

/// A cancel request without a name and with a zero time invites every listed
/// goal to cancel and lists no other goal. After it no goal is pending or
/// active: each goal that was is now in a state in which a cancel request is
/// pending, and it is of exactly these goals that the user is told.
pub proof fn theorem_cancel_all_invites_every_goal<B>(v: ServerView<B>, filter: GoalIDView, now: Time)
    requires
        filter.id.len() == 0,
        filter.stamp@ == 0,
    ensures
        v.cancel_received(filter, now).trackers.len() == v.trackers.len(),
        forall|i: int|
            0 <= i < v.trackers.len() ==> #[trigger] v.cancel_received(filter, now).trackers[i]
                == v.trackers[i].invited(now),
        forall|i: int|
            0 <= i < v.trackers.len() ==> !(#[trigger] v.cancel_received(
                filter,
                now,
            ).trackers[i]).accepts_cancel(),
        forall|i: int|
            0 <= i < v.trackers.len() && v.trackers[i].accepts_cancel() ==> (#[trigger] v.cancel_received(
                filter,
                now,
            ).trackers[i]).code().is_cancel_requested(),
        v.cancel_callbacks(filter) == v.trackers.filter(
            |t: StatusTrackerView<B>| t.accepts_cancel(),
        ).map_values(|t: StatusTrackerView<B>| t.id()),
{
    let all = |t: StatusTrackerView<B>| t.accepts_cancel();
    assert forall|t: StatusTrackerView<B>| #[trigger] invites::<B>(filter)(t) == all(t) by {}
    assert(invites::<B>(filter) =~= all);
}

/// A cancel request that names a goal which is not listed adds exactly one
/// record, a placeholder of that name in the state of being recalled, and
/// leaves the names of the others as they are. When the goal arrives
/// afterwards it is not for the user to start: it is recalled, and that state
/// is what is to be published.
pub proof fn theorem_cancel_before_goal<B>(
    v: ServerView<B>,
    filter: GoalIDView,
    now: Time,
    goal: GoalView<B>,
    later: Time,
)
    requires
        v.wf(),
        filter.id.len() > 0,
        !v.has(filter.id),
        goal.id.id == filter.id,
    ensures
        v.cancel_received(filter, now).wf(),
        v.cancel_received(filter, now).trackers.len() == v.trackers.len() + 1,
        v.cancel_received(filter, now).trackers.last() == placeholder::<B>(filter, now),
        placeholder::<B>(filter, now).id() == filter.id,
        placeholder::<B>(filter, now).code() == StatusCode::Recalling,
        forall|i: int|
            0 <= i < v.trackers.len() ==> (#[trigger] v.cancel_received(filter, now).trackers[i]).id()
                == v.trackers[i].id(),
        v.cancel_received(filter, now).goal_outcome(goal, later) == (GoalOutcomeView::Known {
            recalled: Some(
                GoalStatusView { goal_id: filter, status: StatusCode::Recalled, text: Seq::empty() },
            ),
        }),
        v.cancel_received(filter, now).goal_received(goal, later).trackers.len() == v.trackers.len()
            + 1,
{
    let after = v.cancel_received(filter, now);
    let n = v.trackers.len() as int;
    assert(after.trackers[n] == placeholder::<B>(filter, now));
    assert forall|i: int, j: int| 0 <= i < j < after.trackers.len() implies after.trackers[i].id()
        != after.trackers[j].id() by {
        assert(after.trackers[i].id() == v.trackers[i].id());
        if j < n {
            assert(after.trackers[j].id() == v.trackers[j].id());
        } else {
            assert(v.trackers[i].id() != filter.id);
        }
    }
    lemma_index_of(after, n);
}

/// The time of the latest cancel request never moves back, whatever happens to
/// the server: only a cancel request changes it, and only forward.
pub proof fn theorem_last_cancel_never_decreases<B>(
    v: ServerView<B>,
    filter: GoalIDView,
    goal: GoalView<B>,
    t: StatusTrackerView<B>,
    id: Seq<char>,
    text: Seq<char>,
    now: Time,
)
    ensures
        v.cancel_received(filter, now).last_cancel_ns >= v.last_cancel_ns,
        v.cancel_received(filter, now).last_cancel_ns >= filter.stamp@,
        v.goal_received(goal, now).last_cancel_ns == v.last_cancel_ns,
        v.swept(now).last_cancel_ns == v.last_cancel_ns,
        v.inserted(t).last_cancel_ns == v.last_cancel_ns,
        v.cancel_requested(id).last_cancel_ns == v.last_cancel_ns,
        v.canceled(id, text, now).last_cancel_ns == v.last_cancel_ns,
{
}

/// A sweep drops no record whose destruction time is zero, and none that it
/// keeps is changed.
pub proof fn theorem_live_record_survives_sweep<B>(v: ServerView<B>, now: Time, i: int)
    requires
        0 <= i < v.trackers.len(),
        v.trackers[i].handle_destruction_time@ == 0,
    ensures
        v.swept(now).trackers.contains(v.trackers[i]),
{
    v.trackers.lemma_filter_contains(kept::<B>(v.status_list_timeout, now), i);
}

/// A sweep keeps exactly the records that have not expired: each record of the
/// swept list stood in the list before and has not expired, and each record
/// that has not expired still stands in it.
pub proof fn theorem_sweep_keeps_the_unexpired<B>(v: ServerView<B>, now: Time)
    ensures
        forall|t: StatusTrackerView<B>| #[trigger]
            v.swept(now).trackers.contains(t) <==> v.trackers.contains(t) && !expired(
                t,
                v.status_list_timeout,
                now,
            ),
{
    let keep = kept::<B>(v.status_list_timeout, now);
    assert forall|t: StatusTrackerView<B>| #[trigger]
        v.swept(now).trackers.contains(t) <==> v.trackers.contains(t) && !expired(
            t,
            v.status_list_timeout,
            now,
        ) by {
        if v.swept(now).trackers.contains(t) {
            v.trackers.lemma_filter_contains_rev(keep, t);
            let k = choose|k: int|
                0 <= k < v.trackers.filter(keep).len() && v.trackers.filter(keep)[k] == t;
            v.trackers.lemma_filter_pred(keep, k);
        }
        if v.trackers.contains(t) && keep(t) {
            let i = choose|i: int| 0 <= i < v.trackers.len() && v.trackers[i] == t;
            v.trackers.lemma_filter_contains(keep, i);
        }
    }
}

} // verus!
