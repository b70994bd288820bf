use switcheroo::focus::{Action, FocusSwitch, Reply, FRONT_OPTIONS};
use switcheroo::record::{key_window_record, Flavor};
use switcheroo::types::{Bounds, Error, Handle, ProcessSerialNumber, Space, Window};

const PID: i32 = 321;

fn psn() -> ProcessSerialNumber {
    ProcessSerialNumber { high_long_of_psn: 1, low_long_of_psn: 0x2002 }
}

fn target(handle: Option<Handle>) -> Window {
    Window {
        title: "notes".to_string(),
        id: 4711,
        bounds: Bounds { x: 1, y: 2, width: 3, height: 4 },
        space: Space { display: 1, display_uuid: "Main".to_string(), index: Some(2), id: 55 },
        handle,
    }
}

fn handle() -> Handle {
    Handle { pid: PID, index: 3 }
}

/// Drives a focus switch with the given replies and collects the steps that
/// were pending when each reply came.
fn drive(focus: &mut FocusSwitch, replies: &[Reply]) -> Vec<Action> {
    let mut performed = Vec::new();
    for reply in replies {
        match focus.pending() {
            Some(action) => performed.push(action),
            None => break,
        }
        focus.advance(*reply);
    }
    performed
}

fn prelude() -> Vec<Action> {
    vec![
        Action::ResolveProcess { pid: PID },
        Action::SetFrontProcess { psn: psn(), window: 4711, options: 0x200 },
        Action::PostEventRecord { psn: psn(), record: key_window_record(4711, Flavor::Down) },
        Action::PostEventRecord { psn: psn(), record: key_window_record(4711, Flavor::Up) },
        Action::QueryActiveSpace,
    ]
}

#[test]
fn a_window_without_handle_is_not_focusable_yet() {
    assert!(matches!(target(None).focus(PID), Err(Error::Unresolved)));
}

#[test]
fn on_the_active_space_the_application_is_activated() {
    let mut focus = target(Some(handle())).focus(PID).unwrap();
    assert_eq!(focus.outcome(), None);
    let performed = drive(
        &mut focus,
        &[
            Reply::Process { status: 0, psn: psn() },
            Reply::Status(0),
            Reply::Status(0),
            Reply::Status(0),
            Reply::ActiveSpace(55),
            Reply::Done,
            Reply::Done,
        ],
    );
    let mut expected = prelude();
    expected.push(Action::Activate { pid: PID });
    expected.push(Action::WarpPointer { bounds: Bounds { x: 1, y: 2, width: 3, height: 4 } });
    assert_eq!(performed, expected);
    assert!(!performed.iter().any(|a| matches!(a, Action::Raise { .. })));
    assert_eq!(focus.pending(), None);
    assert_eq!(focus.outcome(), Some(Ok(())));
    assert_eq!(FRONT_OPTIONS, 0x200);
}

#[test]
fn on_another_space_the_window_is_raised() {
    let mut focus = target(Some(handle())).focus(PID).unwrap();
    let performed = drive(
        &mut focus,
        &[
            Reply::Process { status: 0, psn: psn() },
            Reply::Status(0),
            Reply::Status(0),
            Reply::Status(0),
            Reply::ActiveSpace(56),
            Reply::Done,
            Reply::Done,
        ],
    );
    let mut expected = prelude();
    expected.push(Action::Raise { handle: handle() });
    expected.push(Action::WarpPointer { bounds: Bounds { x: 1, y: 2, width: 3, height: 4 } });
    assert_eq!(performed, expected);
    assert!(!performed.iter().any(|a| matches!(a, Action::Activate { .. })));
    assert_eq!(focus.outcome(), Some(Ok(())));
}

#[test]
fn an_unknown_process_ends_the_switch() {
    let mut focus = target(Some(handle())).focus(PID).unwrap();
    let performed = drive(
        &mut focus,
        &[Reply::Process { status: -600, psn: psn() }, Reply::Status(0), Reply::Done],
    );
    assert_eq!(performed, vec![Action::ResolveProcess { pid: PID }]);
    assert_eq!(focus.outcome(), Some(Err(Error::ProcessResolutionFailed)));
}

#[test]
fn a_refused_front_request_short_circuits() {
    let mut focus = target(Some(handle())).focus(PID).unwrap();
    let performed = drive(
        &mut focus,
        &[
            Reply::Process { status: 0, psn: psn() },
            Reply::Status(1000),
            Reply::Status(0),
            Reply::Status(0),
            Reply::ActiveSpace(56),
            Reply::Done,
            Reply::Done,
        ],
    );
    assert_eq!(performed, prelude()[..2].to_vec());
    assert_eq!(focus.pending(), None);
    assert_eq!(focus.outcome(), Some(Err(Error::FrontProcessFailed)));
    for reply in [Reply::Status(0), Reply::ActiveSpace(55), Reply::Done] {
        focus.advance(reply);
        assert_eq!(focus.pending(), None);
        assert_eq!(focus.outcome(), Some(Err(Error::FrontProcessFailed)));
    }
}

#[test]
fn a_refused_down_record_ends_the_switch() {
    let mut focus = target(Some(handle())).focus(PID).unwrap();
    let performed = drive(
        &mut focus,
        &[
            Reply::Process { status: 0, psn: psn() },
            Reply::Status(0),
            Reply::Status(1001),
            Reply::Status(0),
        ],
    );
    assert_eq!(performed, prelude()[..3].to_vec());
    assert_eq!(focus.outcome(), Some(Err(Error::KeyWindowFailed)));
}

#[test]
fn a_refused_up_record_ends_the_switch() {
    let mut focus = target(Some(handle())).focus(PID).unwrap();
    let performed = drive(
        &mut focus,
        &[
            Reply::Process { status: 0, psn: psn() },
            Reply::Status(0),
            Reply::Status(0),
            Reply::Status(-1),
            Reply::ActiveSpace(55),
        ],
    );
    assert_eq!(performed, prelude()[..4].to_vec());
    assert_eq!(focus.outcome(), Some(Err(Error::KeyWindowFailed)));
}

#[test]
fn a_reply_of_another_kind_changes_nothing() {
    let mut focus = target(Some(handle())).focus(PID).unwrap();
    for reply in [Reply::Status(0), Reply::ActiveSpace(55), Reply::Done] {
        focus.advance(reply);
        assert_eq!(focus.pending(), Some(Action::ResolveProcess { pid: PID }));
    }
    focus.advance(Reply::Process { status: 0, psn: psn() });
    focus.advance(Reply::Done);
    assert_eq!(
        focus.pending(),
        Some(Action::SetFrontProcess { psn: psn(), window: 4711, options: 0x200 })
    );
}

#[test]
fn the_warp_never_fails_the_switch() {
    let mut focus = target(Some(handle())).focus(PID).unwrap();
    drive(
        &mut focus,
        &[
            Reply::Process { status: 0, psn: psn() },
            Reply::Status(0),
            Reply::Status(0),
            Reply::Status(0),
            Reply::ActiveSpace(1),
            Reply::Done,
        ],
    );
    assert!(matches!(focus.pending(), Some(Action::WarpPointer { .. })));
    assert_eq!(focus.outcome(), None);
    focus.advance(Reply::Done);
    assert_eq!(focus.outcome(), Some(Ok(())));
}
