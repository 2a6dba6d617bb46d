//! The command relay's protocol logic.
//!
//! The relay owns the open device handle and works one command at a time:
//! it frames the command with a carriage-return terminator, writes and
//! flushes it, then reads response lines until the first non-blank one,
//! which it takes as the acknowledgment. Only then does it return to idle
//! and pick up the next command.
//!
//! The decisions stand here as a step function from state and event to next
//! state and device action; the process wiring drains the queue, performs
//! each action on the serial line, and hands the outcome back as the next
//! event.

use vstd::prelude::*;
use vstd::string::StringExecFns;

verus! {

/// Where the relay stands with the command in flight, if any.
#[derive(Clone, Copy, Debug, PartialEq, Eq, Structural)]
pub enum RelayState {
    /// No command in flight: waiting for the queue.
    Idle,
    /// A command has been handed over for transmission.
    Writing,
    /// The command is on the wire: waiting for a non-blank response line.
    AwaitingResponse,
}

/// What the outside world reports to the relay.
#[derive(Clone, Debug)]
pub enum RelayEvent {
    /// The queue yielded the next command.
    CommandReady(String),
    /// The framed bytes were written and the write buffer flushed.
    WriteCompleted,
    /// One line was read from the device (possibly blank).
    LineRead(String),
}

/// What the relay asks the outside world to do next.
#[derive(Clone, Debug)]
pub enum RelayAction {
    /// Write these bytes to the device and flush them.
    Transmit(String),
    /// Read the next response line from the device.
    AwaitLine,
    /// The exchange is complete; this is the acknowledgment line.
    Acknowledge(String),
    /// The event did not fit the state: do nothing.
    Hold,
}

/// The state after one step.
pub open spec fn step_state(state: RelayState, event: RelayEvent) -> RelayState {
    match (state, event) {
        (RelayState::Idle, RelayEvent::CommandReady(_)) => RelayState::Writing,
        (RelayState::Writing, RelayEvent::WriteCompleted) => RelayState::AwaitingResponse,
        (RelayState::AwaitingResponse, RelayEvent::LineRead(line)) => if line@.len() > 0 {
            RelayState::Idle
        } else {
            RelayState::AwaitingResponse
        },
        (_, _) => state,
    }
}

/// Whether the step hands bytes to the device.
pub open spec fn step_transmits(state: RelayState, event: RelayEvent) -> bool {
    state is Idle && event is CommandReady
}

/// Frame a command for the wire: the text followed by a carriage-return
/// terminator.
pub fn frame_command(command: &str) -> (framed: String)
    ensures
        framed@ == command@.push('\r'),
{
    let mut framed = String::from_str(command);
    framed.append("\r");
    proof {
        reveal_strlit("\r");
        assert(command@ + "\r"@ =~= command@.push('\r'));
    }
    framed
}

/// Advance the relay by one step.
///
/// A command is transmitted only from `Idle`; the relay returns to `Idle`
/// only once a non-blank line has been read; blank lines are skipped by
/// asking for another read; an event that does not fit the state changes
/// nothing.
pub fn relay_step(state: RelayState, event: RelayEvent) -> (r: (RelayState, RelayAction))
    ensures
        r.0 == step_state(state, event),
        state is Idle ==> (event matches RelayEvent::CommandReady(c)
            ==> (r.1 matches RelayAction::Transmit(f) && f@ == c@.push('\r'))),
        state is Writing && event is WriteCompleted ==> r.1 is AwaitLine,
        state is AwaitingResponse ==> (event matches RelayEvent::LineRead(l) ==> (if l@.len() == 0 {
            r.1 is AwaitLine
        } else {
            r.1 matches RelayAction::Acknowledge(a) && a == l
        })),
        !step_transmits(state, event) ==> !(r.1 is Transmit),
        !(step_transmits(state, event) || (state is Writing && event is WriteCompleted)
            || (state is AwaitingResponse && event is LineRead)) ==> r.1 is Hold,
{
    match (state, event) {
        (RelayState::Idle, RelayEvent::CommandReady(command)) => (
            RelayState::Writing,
            RelayAction::Transmit(frame_command(command.as_str())),
        ),
        (RelayState::Writing, RelayEvent::WriteCompleted) => (
            RelayState::AwaitingResponse,
            RelayAction::AwaitLine,
        ),
        (RelayState::AwaitingResponse, RelayEvent::LineRead(line)) => {
            if line.as_str().unicode_len() > 0 {
                (RelayState::Idle, RelayAction::Acknowledge(line))
            } else {
                (RelayState::AwaitingResponse, RelayAction::AwaitLine)
            }
        },
        (s, _) => (s, RelayAction::Hold),
    }
}

/// The state the relay is in just before the `i`-th event of a run that
/// starts idle.
pub open spec fn state_at(events: Seq<RelayEvent>, i: int) -> RelayState
    decreases i,
{
    if i <= 0 {
        RelayState::Idle
    } else {
        step_state(state_at(events, i - 1), events[i - 1])
    }
}

/// Whether the `i`-th step of the run transmits a command.
pub open spec fn transmits_at(events: Seq<RelayEvent>, i: int) -> bool {
    step_transmits(state_at(events, i), events[i])
}

/// Whether the `i`-th step of the run reads a non-blank response line,
/// completing an exchange.
pub open spec fn acknowledges_at(events: Seq<RelayEvent>, i: int) -> bool {
    &&& state_at(events, i) is AwaitingResponse
    &&& events[i] matches RelayEvent::LineRead(l) && l@.len() > 0
}

proof fn lemma_idle_reached_by_ack(events: Seq<RelayEvent>, i: int, j: int)
    requires
        0 <= i < j <= events.len(),
        !(state_at(events, i) is Idle),
        state_at(events, j) is Idle,
    ensures
        exists|k: int| i <= k < j && acknowledges_at(events, k),
    decreases j - i,
{
    if state_at(events, j - 1) is Idle {
        lemma_idle_reached_by_ack(events, i, j - 1);
        let k = choose|k: int| i <= k < j - 1 && acknowledges_at(events, k);
        assert(i <= k < j && acknowledges_at(events, k));
    } else {
        assert(acknowledges_at(events, j - 1));
    }
}

/// Law: the relay never issues a second write to the device before a
/// non-blank response line has been read for the prior write. In any run of
/// the state machine that starts idle, between two transmitting steps there
/// is a step that reads a non-blank line.
pub proof fn lemma_single_command_in_flight(events: Seq<RelayEvent>, i: int, j: int)
    requires
        0 <= i < j < events.len(),
        transmits_at(events, i),
        transmits_at(events, j),
    ensures
        exists|k: int| i < k < j && acknowledges_at(events, k),
{
    assert(state_at(events, i + 1) is Writing);
    lemma_idle_reached_by_ack(events, i + 1, j);
    let k = choose|k: int| i + 1 <= k < j && acknowledges_at(events, k);
    assert(i < k < j && acknowledges_at(events, k));
}

} // verus!
