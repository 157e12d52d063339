use webgateway::input::{PointerButton, WireInputEvent};
use webgateway::rect::{ImagePatch, PatchKind, Rect};
use webgateway::session::{
    Action, PollOutcome, ServerEvent, Session, SessionState, IDLE_INTERVAL_MS, INPUT_QUEUE_CAPACITY,
};

fn running() -> Session {
    let mut session = Session::new();
    session.connected();
    session
}

fn patch(byte: u8) -> ImagePatch {
    ImagePatch {
        data: vec![byte; 4],
        rect: Rect { x: 0, y: 0, width: 1, height: 1 },
        kind: PatchKind::Raw,
    }
}

fn key(code: u16) -> WireInputEvent {
    WireInputEvent::Key { code, down: true }
}

#[test]
fn a_session_starts_connecting_and_runs_once_connected() {
    let mut session = Session::new();
    assert_eq!(session.state(), SessionState::Connecting);
    session.connected();
    assert_eq!(session.state(), SessionState::Running);
    session.connected();
    assert_eq!(session.state(), SessionState::Running);
}

#[test]
fn a_connecting_session_does_nothing() {
    let mut session = Session::new();
    assert_eq!(session.on_poll(PollOutcome::Idle), vec![]);
    assert_eq!(session.on_drain(vec![key(1)]), vec![]);
    assert_eq!(session.state(), SessionState::Connecting);
}

#[test]
fn resize_initialises_the_surface() {
    let mut session = running();
    assert_eq!(
        session.on_poll(PollOutcome::Event(ServerEvent::Resize(800, 600))),
        vec![Action::InitSurface(800, 600)]
    );
    assert_eq!(session.state(), SessionState::Running);
}

#[test]
fn a_patch_goes_to_the_sink() {
    let mut session = running();
    assert_eq!(
        session.on_poll(PollOutcome::Event(ServerEvent::Patch(patch(7)))),
        vec![Action::ApplyPatch(patch(7))]
    );
}

#[test]
fn a_copy_names_both_regions() {
    let mut session = running();
    let source = Rect { x: 9, y: 9, width: 2, height: 3 };
    let target = Rect { x: 1, y: 1, width: 2, height: 3 };
    let copy = ImagePatch { data: vec![], rect: target, kind: PatchKind::CopyRegion(source) };
    assert_eq!(
        session.on_poll(PollOutcome::Event(ServerEvent::Patch(copy))),
        vec![Action::CopyRegion(target, source)]
    );
}

#[test]
fn the_bell_is_ignored() {
    let mut session = running();
    assert_eq!(session.on_poll(PollOutcome::Event(ServerEvent::Bell)), vec![]);
    assert_eq!(session.state(), SessionState::Running);
}

#[test]
fn clipboard_text_goes_to_the_clipboard() {
    let mut session = running();
    assert_eq!(
        session.on_poll(PollOutcome::Event(ServerEvent::ClipboardText("hi".to_string()))),
        vec![Action::SetClipboard("hi".to_string())]
    );
}

#[test]
fn an_idle_poll_waits_and_asks_for_an_update() {
    let mut session = running();
    assert_eq!(
        session.on_poll(PollOutcome::Idle),
        vec![Action::Wait, Action::Send(WireInputEvent::Refresh)]
    );
    assert_eq!(session.state(), SessionState::Running);
}

#[test]
fn a_server_error_ends_the_session() {
    let mut session = running();
    assert_eq!(
        session.on_poll(PollOutcome::Event(ServerEvent::Error("gone".to_string()))),
        vec![Action::Report("gone".to_string()), Action::CloseSurface, Action::CloseTransport]
    );
    assert_eq!(session.state(), SessionState::Closing);
    assert_eq!(session.on_poll(PollOutcome::Idle), vec![]);
    assert_eq!(session.on_drain(vec![key(1)]), vec![]);
    session.finished();
    assert_eq!(session.state(), SessionState::Closed);
}

#[test]
fn a_transport_failure_ends_the_session() {
    let mut session = running();
    assert_eq!(
        session.on_poll(PollOutcome::Failed("reset".to_string())),
        vec![Action::Report("reset".to_string()), Action::CloseSurface, Action::CloseTransport]
    );
    assert_eq!(session.state(), SessionState::Closing);
}

#[test]
fn a_close_request_closes_surface_and_transport() {
    let mut session = running();
    assert_eq!(session.close(), vec![Action::CloseSurface, Action::CloseTransport]);
    assert_eq!(session.state(), SessionState::Closing);
    assert_eq!(session.close(), vec![]);
    session.finished();
    assert_eq!(session.state(), SessionState::Closed);
    assert_eq!(session.close(), vec![]);
    session.finished();
    assert_eq!(session.state(), SessionState::Closed);
}

#[test]
fn finished_changes_nothing_while_running() {
    let mut session = running();
    session.finished();
    assert_eq!(session.state(), SessionState::Running);
}

#[test]
fn drained_inputs_are_sent_in_order() {
    let session = running();
    assert_eq!(
        session.on_drain(vec![key(1), key(2), key(3)]),
        vec![Action::Send(key(1)), Action::Send(key(2)), Action::Send(key(3))]
    );
    assert_eq!(session.on_drain(vec![]), vec![]);
}

#[test]
fn server_events_and_inputs_keep_their_order() {
    let mut session = running();
    let mut queue: Vec<WireInputEvent> = Vec::new();
    let events = vec![
        ServerEvent::Resize(640, 480),
        ServerEvent::Patch(patch(1)),
        ServerEvent::ClipboardText("x".to_string()),
    ];
    let pointer = WireInputEvent::Pointer { x: 1, y: 2, button: PointerButton::Left, down: true };
    // inputs arrive between the polls: one before the first, two before the second
    let arrivals = vec![vec![key(10)], vec![pointer, key(11)], vec![]];
    let mut trace: Vec<Action> = Vec::new();
    for (event, arrived) in events.into_iter().zip(arrivals) {
        queue.extend(arrived);
        trace.extend(session.on_poll(PollOutcome::Event(event)));
        trace.extend(session.on_drain(std::mem::take(&mut queue)));
    }
    assert_eq!(
        trace,
        vec![
            Action::InitSurface(640, 480),
            Action::Send(key(10)),
            Action::ApplyPatch(patch(1)),
            Action::Send(pointer),
            Action::Send(key(11)),
            Action::SetClipboard("x".to_string()),
        ]
    );
    let seen: Vec<&Action> = trace.iter().filter(|a| !matches!(a, Action::Send(_))).collect();
    assert_eq!(
        seen,
        vec![
            &Action::InitSurface(640, 480),
            &Action::ApplyPatch(patch(1)),
            &Action::SetClipboard("x".to_string())
        ]
    );
    let sent: Vec<&Action> = trace.iter().filter(|a| matches!(a, Action::Send(_))).collect();
    assert_eq!(sent, vec![&Action::Send(key(10)), &Action::Send(pointer), &Action::Send(key(11))]);
}

#[test]
fn the_loop_has_its_constants() {
    assert_eq!(INPUT_QUEUE_CAPACITY, 4096);
    assert_eq!(IDLE_INTERVAL_MS, 1);
}
