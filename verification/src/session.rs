//! The session's event loop, as a state machine.
//!
//! The loop itself runs with the caller, who owns the transport, the timer
//! and the output sink. Each time round it polls the server once and tells
//! the session what came of it, then empties the queue of input events and
//! hands the session what it held. The session answers with the actions to
//! perform, in the order in which they are to be performed.

use crate::input::WireInputEvent;
use crate::rect::{ImagePatch, PatchKind, Rect};
use vstd::prelude::*;

verus! {

/// Where a session stands.
#[derive(Clone, Copy, Debug, PartialEq, Eq, Structural)]
pub enum SessionState {
    /// The handshake is under way.
    Connecting,
    /// The loop runs.
    Running,
    /// The loop has ended; the surface and the transport are being closed.
    Closing,
    /// Nothing is left to do.
    Closed,
}

/// What the server sent.
#[derive(Clone, Debug, PartialEq, Eq)]
pub enum ServerEvent {
    /// The framebuffer has a new size.
    Resize(u16, u16),
    /// A region of the framebuffer has new content.
    Patch(ImagePatch),
    /// The server rang its bell.
    Bell,
    /// The server's clipboard has new text.
    ClipboardText(String),
    /// The server, or the protocol layer, gave up.
    Error(String),
}

/// What one poll of the server came to.
#[derive(Clone, Debug, PartialEq, Eq)]
pub enum PollOutcome {
    /// An event was ready.
    Event(ServerEvent),
    /// Nothing was ready.
    Idle,
    /// The transport failed.
    Failed(String),
}

/// What the caller is to do.
#[derive(Clone, Debug, PartialEq, Eq)]
pub enum Action {
    /// Give the surface of the output sink a new size.
    InitSurface(u16, u16),
    /// Hand a patch to the output sink.
    ApplyPatch(ImagePatch),
    /// Have the output sink copy the second region of its surface to the first.
    CopyRegion(Rect, Rect),
    /// Hand text to the clipboard.
    SetClipboard(String),
    /// Wait for the idle interval to pass.
    Wait,
    /// Send an input event to the server.
    Send(WireInputEvent),
    /// Tell the owner of the session why it ended.
    Report(String),
    /// Close the surface of the output sink.
    CloseSurface,
    /// Close the transport.
    CloseTransport,
}

/// The number of input events that the session's queue holds at most.
pub const INPUT_QUEUE_CAPACITY: usize = 4096;

/// The idle interval in milliseconds: how long the loop waits, when the
/// server has nothing to say, before it asks for an update.
pub const IDLE_INTERVAL_MS: u64 = 1;

/// What the caller is to do with a patch: copy a region of the surface
/// where the patch names a source, and draw the patch otherwise.
pub open spec fn patch_action(patch: ImagePatch) -> Action {
    match patch.kind {
        PatchKind::CopyRegion(source) => Action::CopyRegion(patch.rect, source),
        _ => Action::ApplyPatch(patch),
    }
}

/// The actions that end a session, with the message for its owner.
pub open spec fn closing_actions(message: String) -> Seq<Action> {
    seq![Action::Report(message), Action::CloseSurface, Action::CloseTransport]
}

/// Whether a poll with this outcome ends a running session.
pub open spec fn is_fatal(outcome: PollOutcome) -> bool {
    outcome is Failed || outcome matches PollOutcome::Event(ServerEvent::Error(_))
}

/// What a running session does about the outcome of a poll.
pub open spec fn reaction(outcome: PollOutcome) -> Seq<Action> {
    match outcome {
        PollOutcome::Event(ServerEvent::Resize(width, height)) => seq![
            Action::InitSurface(width, height),
        ],
        PollOutcome::Event(ServerEvent::Patch(patch)) => seq![patch_action(patch)],
        PollOutcome::Event(ServerEvent::Bell) => Seq::empty(),
        PollOutcome::Event(ServerEvent::ClipboardText(text)) => seq![Action::SetClipboard(text)],
        PollOutcome::Event(ServerEvent::Error(message)) => closing_actions(message),
        PollOutcome::Idle => seq![Action::Wait, Action::Send(WireInputEvent::Refresh)],
        PollOutcome::Failed(message) => closing_actions(message),
    }
}

/// One `Send` for each input event, in the order of the events.
pub open spec fn sends(queued: Seq<WireInputEvent>) -> Seq<Action> {
    Seq::new(queued.len(), |i: int| Action::Send(queued[i]))
}

/// The state after a poll.
pub open spec fn state_after_poll(state: SessionState, outcome: PollOutcome) -> SessionState {
    if state == SessionState::Running && is_fatal(outcome) {
        SessionState::Closing
    } else {
        state
    }
}

/// The actions after a poll: a session that does not run does nothing.
pub open spec fn actions_after_poll(state: SessionState, outcome: PollOutcome) -> Seq<Action> {
    if state == SessionState::Running {
        reaction(outcome)
    } else {
        Seq::empty()
    }
}

/// The actions for what the input queue held: a session that does not run
/// sends nothing.
pub open spec fn actions_after_drain(state: SessionState, queued: Seq<WireInputEvent>) -> Seq<
    Action,
> {
    if state == SessionState::Running {
        sends(queued)
    } else {
        Seq::empty()
    }
}

/// The state machine of a session.
pub struct Session {
    state: SessionState,
}

impl Session {
    /// Where the session stands.
    pub closed spec fn spec_state(self) -> SessionState {
        self.state
    }

    /// A session whose handshake is under way.
    pub fn new() -> (session: Session)
        ensures
            session.spec_state() == SessionState::Connecting,
    {
        Session { state: SessionState::Connecting }
    }

    /// Where the session stands.
    pub fn state(&self) -> (state: SessionState)
        ensures
            state == self.spec_state(),
    {
        self.state
    }

    /// The handshake is done: a connecting session runs from now on.
    pub fn connected(&mut self)
        ensures
            final(self).spec_state() == (if old(self).spec_state() == SessionState::Connecting {
                SessionState::Running
            } else {
                old(self).spec_state()
            }),
    {
        match self.state {
            SessionState::Connecting => {
                self.state = SessionState::Running;
            },
            _ => {},
        }
    }

    /// The top of an iteration: the server was polled, and this came of it.
    /// A running session forwards what the server sent, asks for an update
    /// after the idle wait where the server sent nothing, and ends on an
    /// error of the server or of the transport.
    pub fn on_poll(&mut self, outcome: PollOutcome) -> (actions: Vec<Action>)
        ensures
            actions@ == actions_after_poll(old(self).spec_state(), outcome),
            final(self).spec_state() == state_after_poll(old(self).spec_state(), outcome),
    {
        let mut actions: Vec<Action> = Vec::new();
        match self.state {
            SessionState::Running => {},
            _ => {
                assert(actions@ =~= Seq::<Action>::empty());
                return actions;
            },
        }
        match outcome {
            PollOutcome::Event(ServerEvent::Resize(width, height)) => {
                actions.push(Action::InitSurface(width, height));
            },
            PollOutcome::Event(ServerEvent::Patch(patch)) => {
                match patch.kind {
                    PatchKind::CopyRegion(source) => {
                        actions.push(Action::CopyRegion(patch.rect, source));
                    },
                    _ => {
                        actions.push(Action::ApplyPatch(patch));
                    },
                }
            },
            PollOutcome::Event(ServerEvent::Bell) => {},
            PollOutcome::Event(ServerEvent::ClipboardText(text)) => {
                actions.push(Action::SetClipboard(text));
            },
            PollOutcome::Event(ServerEvent::Error(message)) => {
                actions.push(Action::Report(message));
                actions.push(Action::CloseSurface);
                actions.push(Action::CloseTransport);
                self.state = SessionState::Closing;
            },
            PollOutcome::Idle => {
                actions.push(Action::Wait);
                actions.push(Action::Send(WireInputEvent::Refresh));
            },
            PollOutcome::Failed(message) => {
                actions.push(Action::Report(message));
                actions.push(Action::CloseSurface);
                actions.push(Action::CloseTransport);
                self.state = SessionState::Closing;
            },
        }
        assert(actions@ =~= reaction(outcome));
        actions
    }

    /// The rest of an iteration: the input queue was emptied, and held
    /// these events. A running session sends each of them, in their order.
    pub fn on_drain(&self, queued: Vec<WireInputEvent>) -> (actions: Vec<Action>)
        ensures
            actions@ == actions_after_drain(self.spec_state(), queued@),
    {
        let mut actions: Vec<Action> = Vec::new();
        match self.state {
            SessionState::Running => {},
            _ => {
                assert(actions@ =~= Seq::<Action>::empty());
                return actions;
            },
        }
        let mut i: usize = 0;
        while i < queued.len()
            invariant
                i <= queued.len(),
                actions@ == sends(queued@.take(i as int)),
            decreases queued.len() - i,
        {
            actions.push(Action::Send(queued[i]));
            assert(actions@ =~= sends(queued@.take(i + 1)));
            i = i + 1;
        }
        assert(queued@.take(queued.len() as int) =~= queued@);
        actions
    }

    /// The owner asks for the session to end. A session that connects or
    /// runs closes its surface and its transport.
    pub fn close(&mut self) -> (actions: Vec<Action>)
        ensures
            old(self).spec_state() == SessionState::Connecting || old(self).spec_state()
                == SessionState::Running ==> final(self).spec_state() == SessionState::Closing
                && actions@ == seq![Action::CloseSurface, Action::CloseTransport],
            old(self).spec_state() == SessionState::Closing || old(self).spec_state()
                == SessionState::Closed ==> final(self).spec_state() == old(self).spec_state()
                && actions@ == Seq::<Action>::empty(),
    {
        let mut actions: Vec<Action> = Vec::new();
        match self.state {
            SessionState::Connecting | SessionState::Running => {
                actions.push(Action::CloseSurface);
                actions.push(Action::CloseTransport);
                self.state = SessionState::Closing;
                assert(actions@ =~= seq![Action::CloseSurface, Action::CloseTransport]);
            },
            _ => {
                assert(actions@ =~= Seq::<Action>::empty());
            },
        }
        actions
    }

    /// The surface and the transport are closed: a closing session is closed.
    pub fn finished(&mut self)
        ensures
            final(self).spec_state() == (if old(self).spec_state() == SessionState::Closing {
                SessionState::Closed
            } else {
                old(self).spec_state()
            }),
    {
        match self.state {
            SessionState::Closing => {
                self.state = SessionState::Closed;
            },
            _ => {},
        }
    }
}

/// One time round the loop: what the poll came to, and what the input
/// queue held when it was emptied afterwards.
pub struct Round {
    pub polled: PollOutcome,
    pub queued: Vec<WireInputEvent>,
}

/// Where a session that started in `state` stands after the rounds of `script`.
pub open spec fn state_after(state: SessionState, script: Seq<Round>) -> SessionState
    decreases script.len(),
{
    if script.len() == 0 {
        state
    } else {
        state_after_poll(state_after(state, script.drop_last()), script.last().polled)
    }
}

/// All that a session that started in `state` asks for over the rounds of
/// `script`, in order. Within a round, what the poll asks for comes before
/// what the queue asks for: no input is sent before the server has been heard.
pub open spec fn trace(state: SessionState, script: Seq<Round>) -> Seq<Action>
    decreases script.len(),
{
    if script.len() == 0 {
        Seq::empty()
    } else {
        trace(state, script.drop_last()) + actions_after_poll(
            state_after(state, script.drop_last()),
            script.last().polled,
        ) + actions_after_drain(state_after(state, script), script.last().queued@)
    }
}

/// The input events among the actions, in order. The requests for an
/// update that the loop makes of its own are not among them.
pub open spec fn sent_inputs(actions: Seq<Action>) -> Seq<WireInputEvent>
    decreases actions.len(),
{
    if actions.len() == 0 {
        Seq::empty()
    } else {
        match actions.last() {
            Action::Send(event) => if event == WireInputEvent::Refresh {
                sent_inputs(actions.drop_last())
            } else {
                sent_inputs(actions.drop_last()).push(event)
            },
            _ => sent_inputs(actions.drop_last()),
        }
    }
}

/// The actions that are not for the transport, in order: what the output
/// sink, the clipboard and the owner see.
pub open spec fn seen_actions(actions: Seq<Action>) -> Seq<Action>
    decreases actions.len(),
{
    if actions.len() == 0 {
        Seq::empty()
    } else {
        match actions.last() {
            Action::Send(_) => seen_actions(actions.drop_last()),
            Action::Wait => seen_actions(actions.drop_last()),
            other => seen_actions(actions.drop_last()).push(other),
        }
    }
}

/// The input events that the queue held over the rounds of `script`, in
/// the order in which they were queued.
pub open spec fn queued_inputs(script: Seq<Round>) -> Seq<WireInputEvent>
    decreases script.len(),
{
    if script.len() == 0 {
        Seq::empty()
    } else {
        queued_inputs(script.drop_last()) + script.last().queued@
    }
}

/// What the server's events over the rounds of `script` ask of the output
/// sink, the clipboard and the owner, in the order in which they arrived.
pub open spec fn server_actions(script: Seq<Round>) -> Seq<Action>
    decreases script.len(),
{
    if script.len() == 0 {
        Seq::empty()
    } else {
        server_actions(script.drop_last()) + seen_actions(reaction(script.last().polled))
    }
}

/// No round of the script ends the session, and the queue never holds a
/// request for an update.
pub open spec fn keeps_running(script: Seq<Round>) -> bool {
    &&& forall|i: int| 0 <= i < script.len() ==> !is_fatal(#[trigger] script[i].polled)
    &&& forall|i: int, j: int|
        0 <= i < script.len() && 0 <= j < script[i].queued@.len() ==> #[trigger] script[i].queued@[j]
            != WireInputEvent::Refresh
}

proof fn lemma_sent_inputs_add(first: Seq<Action>, second: Seq<Action>)
    ensures
        sent_inputs(first + second) == sent_inputs(first) + sent_inputs(second),
    decreases second.len(),
{
    if second.len() == 0 {
        assert(first + second =~= first);
        assert(sent_inputs(first) + sent_inputs(second) =~= sent_inputs(first));
    } else {
        assert((first + second).drop_last() =~= first + second.drop_last());
        assert((first + second).last() == second.last());
        lemma_sent_inputs_add(first, second.drop_last());
        assert(sent_inputs(first + second) =~= sent_inputs(first) + sent_inputs(second));
    }
}

proof fn lemma_seen_actions_add(first: Seq<Action>, second: Seq<Action>)
    ensures
        seen_actions(first + second) == seen_actions(first) + seen_actions(second),
    decreases second.len(),
{
    if second.len() == 0 {
        assert(first + second =~= first);
        assert(seen_actions(first) + seen_actions(second) =~= seen_actions(first));
    } else {
        assert((first + second).drop_last() =~= first + second.drop_last());
        assert((first + second).last() == second.last());
        lemma_seen_actions_add(first, second.drop_last());
        assert(seen_actions(first + second) =~= seen_actions(first) + seen_actions(second));
    }
}

proof fn lemma_sends_projections(queued: Seq<WireInputEvent>)
    requires
        forall|j: int| 0 <= j < queued.len() ==> #[trigger] queued[j] != WireInputEvent::Refresh,
    ensures
        sent_inputs(sends(queued)) == queued,
        seen_actions(sends(queued)) == Seq::<Action>::empty(),
    decreases queued.len(),
{
    if queued.len() == 0 {
        assert(sent_inputs(sends(queued)) =~= queued);
    } else {
        assert(sends(queued).drop_last() =~= sends(queued.drop_last()));
        assert(sends(queued).last() == Action::Send(queued.last()));
        lemma_sends_projections(queued.drop_last());
        assert(sent_inputs(sends(queued)) =~= queued);
    }
}

proof fn lemma_reaction_sends_no_input(outcome: PollOutcome)
    ensures
        sent_inputs(reaction(outcome)) == Seq::<WireInputEvent>::empty(),
{
    reveal_with_fuel(sent_inputs, 4);
    let actions: Seq<Action> = reaction(outcome);
    if actions.len() == 2 {
        assert(actions.drop_last().drop_last() =~= Seq::<Action>::empty());
    } else if actions.len() == 3 {
        assert(actions.drop_last().drop_last().drop_last() =~= Seq::<Action>::empty());
    } else if actions.len() == 1 {
        assert(actions.drop_last() =~= Seq::<Action>::empty());
    }
}

proof fn lemma_prefix_keeps_running(script: Seq<Round>)
    requires
        script.len() > 0,
        keeps_running(script),
    ensures
        keeps_running(script.drop_last()),
        !is_fatal(script.last().polled),
        forall|j: int|
            0 <= j < script.last().queued@.len() ==> #[trigger] script.last().queued@[j]
                != WireInputEvent::Refresh,
{
    let before: Seq<Round> = script.drop_last();
    assert forall|i: int| 0 <= i < before.len() implies !is_fatal(#[trigger] before[i].polled) by {
        assert(before[i] == script[i]);
    }
    assert forall|i: int, j: int|
        0 <= i < before.len() && 0 <= j < before[i].queued@.len() implies #[trigger] before[i].queued@[j]
        != WireInputEvent::Refresh by {
        assert(before[i] == script[i]);
    }
    assert(!is_fatal(script[script.len() - 1].polled));
    assert forall|j: int| 0 <= j < script.last().queued@.len() implies #[trigger] script.last().queued@[j]
        != WireInputEvent::Refresh by {
        assert(script[script.len() - 1].queued@[j] != WireInputEvent::Refresh);
    }
}

proof fn lemma_running_stays(script: Seq<Round>)
    requires
        keeps_running(script),
    ensures
        state_after(SessionState::Running, script) == SessionState::Running,
    decreases script.len(),
{
    if script.len() > 0 {
        lemma_prefix_keeps_running(script);
        lemma_running_stays(script.drop_last());
    }
}

/// Input events leave in the order in which they were queued: of a session
/// that runs through all the rounds of a script, the transport sees the
/// queued input events, all of them and no others, in their order.
pub proof fn lemma_inputs_in_order(script: Seq<Round>)
    requires
        keeps_running(script),
    ensures
        sent_inputs(trace(SessionState::Running, script)) == queued_inputs(script),
    decreases script.len(),
{
    if script.len() > 0 {
        let before: Seq<Round> = script.drop_last();
        let last: Round = script.last();
        lemma_prefix_keeps_running(script);
        lemma_inputs_in_order(before);
        lemma_running_stays(before);
        lemma_running_stays(script);
        let polled: Seq<Action> = reaction(last.polled);
        let drained: Seq<Action> = sends(last.queued@);
        assert(trace(SessionState::Running, script) == trace(SessionState::Running, before)
            + polled + drained);
        lemma_sent_inputs_add(trace(SessionState::Running, before) + polled, drained);
        lemma_sent_inputs_add(trace(SessionState::Running, before), polled);
        lemma_reaction_sends_no_input(last.polled);
        lemma_sends_projections(last.queued@);
        assert(sent_inputs(trace(SessionState::Running, script)) =~= queued_inputs(script));
    }
}

/// Server events are handled in the order in which they arrived: of a
/// session that runs through all the rounds of a script, the output sink,
/// the clipboard and the owner see what the events ask for, event by event,
/// with nothing of the input in between.
pub proof fn lemma_server_events_in_order(script: Seq<Round>)
    requires
        keeps_running(script),
    ensures
        seen_actions(trace(SessionState::Running, script)) == server_actions(script),
    decreases script.len(),
{
    if script.len() > 0 {
        let before: Seq<Round> = script.drop_last();
        let last: Round = script.last();
        lemma_prefix_keeps_running(script);
        lemma_server_events_in_order(before);
        lemma_running_stays(before);
        lemma_running_stays(script);
        let polled: Seq<Action> = reaction(last.polled);
        let drained: Seq<Action> = sends(last.queued@);
        assert(trace(SessionState::Running, script) == trace(SessionState::Running, before)
            + polled + drained);
        lemma_seen_actions_add(trace(SessionState::Running, before) + polled, drained);
        lemma_seen_actions_add(trace(SessionState::Running, before), polled);
        lemma_sends_projections(last.queued@);
        assert(seen_actions(trace(SessionState::Running, script)) =~= server_actions(script));
    }
}

} // verus!
