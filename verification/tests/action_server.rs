use ros_action::action_server::{ActionError, ActionServerState, GoalOutcome, ServerGoalHandle};
use ros_action::msg::{Goal, GoalID, GoalStatus, StatusCode};
use ros_action::status_tracker::StatusTracker;
use ros_action::time::Time;

const STALE: &str = "This goal handle was canceled by the action server because its timestamp is before the timestamp of the last cancel request";

const SECOND: i64 = 1_000_000_000;

fn id(name: &str, stamp: i64) -> GoalID {
    GoalID { stamp: Time::from_nanos(stamp), id: String::from(name) }
}

fn goal(name: &str, stamp: i64) -> Goal<u32> {
    Goal { id: id(name, stamp), body: 7 }
}

fn at(nanos: i64) -> Time {
    Time::from_nanos(nanos)
}

fn seeded(server: &mut ActionServerState<u32>, name: &str, stamp: i64, status: StatusCode) {
    server.add_status_tracker(StatusTracker::from_status(id(name, stamp), status));
}

fn codes(server: &mut ActionServerState<u32>) -> Vec<(String, StatusCode)> {
    let zero_sweep = Time::new();
    server
        .get_status_array(zero_sweep)
        .status_list
        .into_iter()
        .map(|s| (s.goal_id.id, s.status))
        .collect()
}

fn names(handles: &[ServerGoalHandle]) -> Vec<String> {
    handles.iter().map(|h| h.goal_id().clone()).collect()
}

#[test]
fn a_new_server_is_empty() {
    let mut server = ActionServerState::<u32>::new(5 * SECOND);
    assert_eq!(server.len(), 0);
    assert_eq!(server.last_cancel_ns(), 0);
    assert_eq!(server.status_list_timeout(), 5 * SECOND);
    let array = server.get_status_array(at(1));
    assert!(array.status_list.is_empty());
    assert_eq!(array.stamp, Time::new());
}

#[test]
fn a_new_goal_is_accepted_and_pending() {
    let mut server = ActionServerState::<u32>::new(5 * SECOND);
    match server.handle_on_goal(goal("g", 10), at(20)) {
        GoalOutcome::Accepted { handle } => assert_eq!(handle.goal_id(), "g"),
        other => panic!("{:?}", other),
    }
    let tracker = server.get(&String::from("g")).unwrap();
    assert_eq!(
        tracker.status,
        GoalStatus { goal_id: id("g", 10), status: StatusCode::Pending, text: String::new() }
    );
    assert_eq!(tracker.goal_body, Some(7));
    assert_eq!(tracker.handle_destruction_time, Time::new());
    assert!(server.get(&String::from("h")).is_none());
}

#[test]
fn a_goal_that_is_listed_is_not_started_again() {
    let mut server = ActionServerState::<u32>::new(5 * SECOND);
    server.handle_on_goal(goal("g", 10), at(20));
    match server.handle_on_goal(Goal { id: id("g", 11), body: 8 }, at(30)) {
        GoalOutcome::Known { recalled: None } => {}
        other => panic!("{:?}", other),
    }
    assert_eq!(server.len(), 1);
    let tracker = server.get(&String::from("g")).unwrap();
    assert_eq!(tracker.status.goal_id, id("g", 10));
    assert_eq!(tracker.goal_body, Some(7));
    assert_eq!(tracker.status.status, StatusCode::Pending);
}

#[test]
fn a_finished_goal_that_arrives_again_stays_listed_from_then() {
    let mut server = ActionServerState::<u32>::new(SECOND);
    seeded(&mut server, "g", 1, StatusCode::Succeeded);
    assert!(matches!(
        server.handle_on_goal(goal("g", 1), at(100 * SECOND)),
        GoalOutcome::Known { recalled: None }
    ));
    assert_eq!(
        server.get(&String::from("g")).unwrap().handle_destruction_time,
        at(100 * SECOND)
    );
    assert_eq!(server.get_status_array(at(101 * SECOND)).status_list.len(), 1);
    assert_eq!(server.get_status_array(at(101 * SECOND + 1)).status_list.len(), 0);
}

#[test]
fn cancel_before_goal_scenario() {
    let mut server = ActionServerState::<u32>::new(5 * SECOND);
    let told = server.handle_on_cancel(id("g1", 0), at(0));
    assert!(told.is_empty());
    match server.handle_on_goal(goal("g1", 5), at(1)) {
        GoalOutcome::Known { recalled: Some(status) } => {
            assert_eq!(
                status,
                GoalStatus { goal_id: id("g1", 0), status: StatusCode::Recalled, text: String::new() }
            );
        }
        other => panic!("{:?}", other),
    }
    assert_eq!(codes(&mut server), vec![(String::from("g1"), StatusCode::Recalled)]);
}

#[test]
fn stamp_watermark_scenario() {
    let mut server = ActionServerState::<u32>::new(5 * SECOND);
    let told = server.handle_on_cancel(id("", 100), at(1000));
    assert!(told.is_empty());
    assert_eq!(server.len(), 0);
    assert_eq!(server.last_cancel_ns(), 100);
    match server.handle_on_goal(goal("g2", 50), at(2000)) {
        GoalOutcome::Canceled { status } => {
            assert_eq!(
                status,
                GoalStatus { goal_id: id("g2", 50), status: StatusCode::Recalled, text: String::from(STALE) }
            );
        }
        other => panic!("{:?}", other),
    }
    let tracker = server.get(&String::from("g2")).unwrap();
    assert_eq!(tracker.status.status, StatusCode::Recalled);
    assert_eq!(tracker.status.text, STALE);
    assert_eq!(tracker.handle_destruction_time, at(2000));
    assert_eq!(tracker.goal_body, Some(7));
}

#[test]
fn watermark_edges() {
    let mut server = ActionServerState::<u32>::new(5 * SECOND);
    server.handle_on_cancel(id("", 100), at(1000));
    // A goal issued at the very time of the cancel request is canceled.
    assert!(matches!(server.handle_on_goal(goal("a", 100), at(2000)), GoalOutcome::Canceled { .. }));
    // One issued a nanosecond later is not.
    assert!(matches!(server.handle_on_goal(goal("b", 101), at(2000)), GoalOutcome::Accepted { .. }));
    // A goal without a time is never older than a cancel request.
    assert!(matches!(server.handle_on_goal(goal("c", 0), at(2000)), GoalOutcome::Accepted { .. }));
}

#[test]
fn status_sweep_scenario() {
    let start = 100 * SECOND;
    let mut server = ActionServerState::<u32>::new(SECOND);
    server.handle_on_goal(goal("t", 1), at(start));
    let status = server.set_canceled(&String::from("t"), "done", at(start)).unwrap();
    assert_eq!(status.status, StatusCode::Recalled);
    let array = server.get_status_array(at(start + 900_000_000));
    assert_eq!(array.status_list, vec![status]);
    assert_eq!(server.len(), 1);
    let array = server.get_status_array(at(start + 1_100_000_000));
    assert!(array.status_list.is_empty());
    assert_eq!(server.len(), 0);
}

#[test]
fn sweep_keeps_a_record_up_to_the_end_of_its_time() {
    let start = 100 * SECOND;
    let mut server = ActionServerState::<u32>::new(SECOND);
    server.handle_on_goal(goal("t", 1), at(start));
    server.set_canceled(&String::from("t"), "done", at(start)).unwrap();
    assert_eq!(server.get_status_array(at(start + SECOND)).status_list.len(), 1);
    assert_eq!(server.get_status_array(at(start + SECOND + 1)).status_list.len(), 0);
}

#[test]
fn sweep_never_drops_a_record_with_a_zero_destruction_time() {
    let mut server = ActionServerState::<u32>::new(0);
    seeded(&mut server, "live", 1, StatusCode::Active);
    seeded(&mut server, "done", 1, StatusCode::Succeeded);
    server.handle_on_goal(goal("fresh", 0), at(5));
    let far = Time { sec: i32::MAX, nsec: 999_999_999 };
    assert_eq!(
        codes(&mut server),
        vec![
            (String::from("live"), StatusCode::Active),
            (String::from("done"), StatusCode::Succeeded),
            (String::from("fresh"), StatusCode::Pending),
        ]
    );
    assert_eq!(server.get_status_array(far).status_list.len(), 3);
    // A finished goal that was canceled at the epoch has a zero destruction time too.
    server.set_canceled(&String::from("fresh"), "", Time::new()).unwrap();
    assert_eq!(server.get_status_array(far).status_list.len(), 3);
}

#[test]
fn sweep_takes_the_timeout_as_it_is() {
    // A negative timeout drops a finished record before its destruction time.
    let mut server = ActionServerState::<u32>::new(-10);
    server.handle_on_goal(goal("t", 1), at(100));
    server.set_canceled(&String::from("t"), "", at(100)).unwrap();
    assert_eq!(server.get_status_array(at(90)).status_list.len(), 1);
    assert_eq!(server.get_status_array(at(91)).status_list.len(), 0);
    // The largest timeout keeps it for ever, without overflow.
    let mut server = ActionServerState::<u32>::new(i64::MAX);
    server.handle_on_goal(goal("t", 1), at(100));
    server.set_canceled(&String::from("t"), "", at(100)).unwrap();
    let far = Time { sec: i32::MAX, nsec: 999_999_999 };
    assert_eq!(server.get_status_array(far).status_list.len(), 1);
}

#[test]
fn sweep_keeps_the_order_of_those_that_stay() {
    let mut server = ActionServerState::<u32>::new(10);
    for (name, time) in [("a", 100), ("b", 200), ("c", 100), ("d", 300), ("e", 100)] {
        server.handle_on_goal(goal(name, 1), at(1));
        server.set_canceled(&String::from(name), "", at(time)).unwrap();
    }
    seeded(&mut server, "z", 1, StatusCode::Active);
    let array = server.get_status_array(at(150));
    let left: Vec<&str> = array.status_list.iter().map(|s| s.goal_id.id.as_str()).collect();
    assert_eq!(left, vec!["b", "d", "z"]);
    assert_eq!(server.len(), 3);
}

#[test]
fn cancel_all_invites_every_goal() {
    let mut server = ActionServerState::<u32>::new(5 * SECOND);
    seeded(&mut server, "p", 10, StatusCode::Pending);
    seeded(&mut server, "a", 20, StatusCode::Active);
    seeded(&mut server, "s", 30, StatusCode::Succeeded);
    seeded(&mut server, "r", 40, StatusCode::Recalling);
    seeded(&mut server, "q", 50, StatusCode::Preempting);
    seeded(&mut server, "x", 60, StatusCode::Aborted);
    let told = server.handle_on_cancel(id("", 0), at(77));
    assert_eq!(names(&told), vec!["p", "a"]);
    assert_eq!(server.last_cancel_ns(), 0);
    assert_eq!(server.get(&String::from("s")).unwrap().handle_destruction_time, at(77));
    assert_eq!(server.get(&String::from("x")).unwrap().handle_destruction_time, at(77));
    assert_eq!(server.get(&String::from("p")).unwrap().handle_destruction_time, Time::new());
    assert_eq!(
        codes(&mut server),
        vec![
            (String::from("p"), StatusCode::Recalling),
            (String::from("a"), StatusCode::Preempting),
            (String::from("s"), StatusCode::Succeeded),
            (String::from("r"), StatusCode::Recalling),
            (String::from("q"), StatusCode::Preempting),
            (String::from("x"), StatusCode::Aborted),
        ]
    );
}

#[test]
fn cancel_by_name_invites_that_goal_only() {
    let mut server = ActionServerState::<u32>::new(5 * SECOND);
    seeded(&mut server, "p", 10, StatusCode::Pending);
    seeded(&mut server, "a", 20, StatusCode::Active);
    let told = server.handle_on_cancel(id("a", 0), at(77));
    assert_eq!(names(&told), vec!["a"]);
    assert_eq!(
        codes(&mut server),
        vec![(String::from("p"), StatusCode::Pending), (String::from("a"), StatusCode::Preempting)]
    );
    // A second request changes nothing and tells nobody.
    let told = server.handle_on_cancel(id("a", 0), at(78));
    assert!(told.is_empty());
    assert_eq!(server.len(), 2);
}

#[test]
fn cancel_by_time_invites_the_goals_issued_up_to_it() {
    let mut server = ActionServerState::<u32>::new(5 * SECOND);
    seeded(&mut server, "early", 10, StatusCode::Pending);
    seeded(&mut server, "exact", 20, StatusCode::Active);
    seeded(&mut server, "late", 21, StatusCode::Pending);
    seeded(&mut server, "named", 99, StatusCode::Active);
    let told = server.handle_on_cancel(id("named", 20), at(77));
    assert_eq!(names(&told), vec!["early", "exact", "named"]);
    assert_eq!(server.last_cancel_ns(), 20);
    assert_eq!(
        codes(&mut server),
        vec![
            (String::from("early"), StatusCode::Recalling),
            (String::from("exact"), StatusCode::Preempting),
            (String::from("late"), StatusCode::Pending),
            (String::from("named"), StatusCode::Preempting),
        ]
    );
}

#[test]
fn cancel_of_an_unknown_goal_leaves_one_placeholder() {
    let mut server = ActionServerState::<u32>::new(5 * SECOND);
    seeded(&mut server, "p", 10, StatusCode::Pending);
    let told = server.handle_on_cancel(id("ghost", 3), at(77));
    assert!(told.is_empty());
    assert_eq!(server.len(), 2);
    let tracker = server.get(&String::from("ghost")).unwrap();
    assert_eq!(
        tracker.status,
        GoalStatus { goal_id: id("ghost", 3), status: StatusCode::Recalling, text: String::new() }
    );
    assert_eq!(tracker.goal_body, None);
    assert_eq!(tracker.handle_destruction_time, at(77));
    assert_eq!(server.get(&String::from("p")).unwrap().status.status, StatusCode::Pending);
    // The goal arrives: it is recalled, the user is not told.
    match server.handle_on_goal(goal("ghost", 500), at(90)) {
        GoalOutcome::Known { recalled: Some(status) } => {
            assert_eq!(status.status, StatusCode::Recalled);
            assert_eq!(status.goal_id.id, "ghost");
        }
        other => panic!("{:?}", other),
    }
    assert_eq!(server.len(), 2);
}

#[test]
fn a_placeholder_that_is_never_claimed_is_swept() {
    let mut server = ActionServerState::<u32>::new(SECOND);
    server.handle_on_cancel(id("ghost", 0), at(10 * SECOND));
    assert_eq!(server.get_status_array(at(11 * SECOND)).status_list.len(), 1);
    assert_eq!(server.get_status_array(at(11 * SECOND + 1)).status_list.len(), 0);
}

#[test]
fn last_cancel_never_moves_back() {
    let mut server = ActionServerState::<u32>::new(5 * SECOND);
    let mut seen = Vec::new();
    for stamp in [0, 50, 20, 50, 70, -5, 69, 71] {
        server.handle_on_cancel(id("", stamp), at(1000));
        server.handle_on_goal(goal("g", stamp), at(1000));
        server.get_status_array(at(1000));
        seen.push(server.last_cancel_ns());
    }
    assert_eq!(seen, vec![0, 50, 50, 50, 70, 70, 70, 71]);
}

#[test]
fn set_cancel_requested_says_whether_the_state_changed() {
    let mut server = ActionServerState::<u32>::new(5 * SECOND);
    seeded(&mut server, "p", 10, StatusCode::Pending);
    seeded(&mut server, "a", 20, StatusCode::Active);
    seeded(&mut server, "s", 30, StatusCode::Succeeded);
    assert!(server.set_cancel_requested(&String::from("p")));
    assert!(!server.set_cancel_requested(&String::from("p")));
    assert!(server.set_cancel_requested(&String::from("a")));
    assert!(!server.set_cancel_requested(&String::from("s")));
    assert!(!server.set_cancel_requested(&String::from("nobody")));
    assert_eq!(
        codes(&mut server),
        vec![
            (String::from("p"), StatusCode::Recalling),
            (String::from("a"), StatusCode::Preempting),
            (String::from("s"), StatusCode::Succeeded),
        ]
    );
}

#[test]
fn set_canceled_from_each_state() {
    let cases = [
        (StatusCode::Pending, Some(StatusCode::Recalled)),
        (StatusCode::Recalling, Some(StatusCode::Recalled)),
        (StatusCode::Active, Some(StatusCode::Preempted)),
        (StatusCode::Preempting, Some(StatusCode::Preempted)),
        (StatusCode::Preempted, None),
        (StatusCode::Succeeded, None),
        (StatusCode::Aborted, None),
        (StatusCode::Rejected, None),
        (StatusCode::Recalled, None),
        (StatusCode::Lost, None),
    ];
    for (from, to) in cases {
        let mut server = ActionServerState::<u32>::new(5 * SECOND);
        seeded(&mut server, "g", 10, from);
        let result = server.set_canceled(&String::from("g"), "why", at(33));
        let tracker = server.get(&String::from("g")).unwrap();
        match to {
            Some(code) => {
                assert_eq!(
                    result,
                    Ok(GoalStatus { goal_id: id("g", 10), status: code, text: String::from("why") })
                );
                assert_eq!(tracker.status.status, code);
                assert_eq!(tracker.status.text, "why");
                assert_eq!(tracker.handle_destruction_time, at(33));
            }
            None => {
                assert_eq!(result, Err(ActionError::ProtocolMisuse));
                assert_eq!(tracker.status.status, from);
                assert_eq!(tracker.status.text, "");
                assert_eq!(tracker.handle_destruction_time, Time::new());
            }
        }
    }
}

#[test]
fn set_canceled_of_an_unknown_goal_is_misuse() {
    let mut server = ActionServerState::<u32>::new(5 * SECOND);
    seeded(&mut server, "g", 10, StatusCode::Pending);
    assert_eq!(
        server.set_canceled(&String::from("h"), "why", at(33)),
        Err(ActionError::ProtocolMisuse)
    );
    assert_eq!(server.get(&String::from("g")).unwrap().status.status, StatusCode::Pending);
}

#[test]
fn a_handle_acts_on_its_goal() {
    let mut server = ActionServerState::<u32>::new(5 * SECOND);
    let handle = match server.handle_on_goal(goal("g", 10), at(20)) {
        GoalOutcome::Accepted { handle } => handle,
        other => panic!("{:?}", other),
    };
    server.handle_on_goal(goal("other", 10), at(20));
    assert!(handle.set_cancel_requested(&mut server));
    assert!(!handle.set_cancel_requested(&mut server));
    let status = handle.set_canceled(&mut server, "bye", at(40)).unwrap();
    assert_eq!(
        status,
        GoalStatus { goal_id: id("g", 10), status: StatusCode::Recalled, text: String::from("bye") }
    );
    assert_eq!(handle.set_canceled(&mut server, "bye", at(41)), Err(ActionError::ProtocolMisuse));
    assert_eq!(server.get(&String::from("other")).unwrap().status.status, StatusCode::Pending);
    let made = ServerGoalHandle::new(String::from("other"));
    assert_eq!(made.goal_id(), "other");
    assert!(made.set_cancel_requested(&mut server));
}

#[test]
fn add_status_tracker_replaces_the_record_of_the_same_goal() {
    let mut server = ActionServerState::<u32>::new(5 * SECOND);
    seeded(&mut server, "a", 1, StatusCode::Pending);
    seeded(&mut server, "b", 2, StatusCode::Pending);
    seeded(&mut server, "a", 3, StatusCode::Lost);
    assert_eq!(server.len(), 2);
    assert_eq!(
        codes(&mut server),
        vec![(String::from("a"), StatusCode::Lost), (String::from("b"), StatusCode::Pending)]
    );
    assert_eq!(server.get(&String::from("a")).unwrap().status.goal_id, id("a", 3));
}

#[test]
fn a_goal_without_a_name_is_a_goal_like_any_other() {
    let mut server = ActionServerState::<u32>::new(5 * SECOND);
    assert!(matches!(server.handle_on_goal(goal("", 10), at(20)), GoalOutcome::Accepted { .. }));
    seeded(&mut server, "b", 50, StatusCode::Pending);
    // A cancel request with a time and no name names the goal without a name.
    let told = server.handle_on_cancel(id("", 5), at(30));
    assert_eq!(names(&told), vec![""]);
    assert_eq!(server.len(), 2);
}
