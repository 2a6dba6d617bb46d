use plotter_bridge::relay::{relay_step, frame_command, RelayAction, RelayEvent, RelayState};

/// A fake device transcript: every action the relay asks for, in order.
/// Writes and blank-then-nonblank reads must alternate strictly.
#[derive(Debug, PartialEq)]
enum Wire {
    Write(String),
    Read,
    Ack(String),
}

fn run(events: Vec<RelayEvent>) -> (RelayState, Vec<Wire>) {
    let mut state = RelayState::Idle;
    let mut transcript = Vec::new();
    for event in events {
        let (next, action) = relay_step(state, event);
        state = next;
        match action {
            RelayAction::Transmit(f) => transcript.push(Wire::Write(f)),
            RelayAction::AwaitLine => transcript.push(Wire::Read),
            RelayAction::Acknowledge(a) => transcript.push(Wire::Ack(a)),
            RelayAction::Hold => {}
        }
    }
    (state, transcript)
}

#[test]
fn frame_appends_carriage_return() {
    assert_eq!(frame_command("SP,1"), "SP,1\r".to_string());
    assert_eq!(frame_command("x"), "x\r".to_string());
}

#[test]
fn one_command_full_exchange() {
    let (state, transcript) = run(vec![
        RelayEvent::CommandReady("SP,1".to_string()),
        RelayEvent::WriteCompleted,
        RelayEvent::LineRead("OK".to_string()),
    ]);
    assert_eq!(state, RelayState::Idle);
    assert_eq!(
        transcript,
        vec![
            Wire::Write("SP,1\r".to_string()),
            Wire::Read,
            Wire::Ack("OK".to_string()),
        ]
    );
}

#[test]
fn blank_lines_are_skipped_before_the_acknowledgment() {
    let (state, transcript) = run(vec![
        RelayEvent::CommandReady("SM,1000,0,0".to_string()),
        RelayEvent::WriteCompleted,
        RelayEvent::LineRead("".to_string()),
        RelayEvent::LineRead("".to_string()),
        RelayEvent::LineRead("OK".to_string()),
    ]);
    assert_eq!(state, RelayState::Idle);
    assert_eq!(
        transcript,
        vec![
            Wire::Write("SM,1000,0,0\r".to_string()),
            Wire::Read,
            Wire::Read,
            Wire::Read,
            Wire::Ack("OK".to_string()),
        ]
    );
}

#[test]
fn no_second_write_before_a_nonblank_response() {
    // Two commands in sequence: the second write must come only after the
    // first exchange saw its non-blank line.
    let (state, transcript) = run(vec![
        RelayEvent::CommandReady("a".to_string()),
        RelayEvent::WriteCompleted,
        RelayEvent::LineRead("".to_string()),
        RelayEvent::LineRead("OK".to_string()),
        RelayEvent::CommandReady("b".to_string()),
        RelayEvent::WriteCompleted,
        RelayEvent::LineRead("OK".to_string()),
    ]);
    assert_eq!(state, RelayState::Idle);
    let writes: Vec<usize> = transcript
        .iter()
        .enumerate()
        .filter(|(_, w)| matches!(w, Wire::Write(_)))
        .map(|(i, _)| i)
        .collect();
    let acks: Vec<usize> = transcript
        .iter()
        .enumerate()
        .filter(|(_, w)| matches!(w, Wire::Ack(_)))
        .map(|(i, _)| i)
        .collect();
    assert_eq!(writes.len(), 2);
    // between the two writes stands an acknowledgment
    assert!(acks.iter().any(|&a| writes[0] < a && a < writes[1]));
}

#[test]
fn a_command_is_not_transmitted_while_awaiting_the_response() {
    // A command offered before the prior exchange finished must not reach
    // the device.
    let (state, action) = relay_step(
        RelayState::AwaitingResponse,
        RelayEvent::CommandReady("late".to_string()),
    );
    assert_eq!(state, RelayState::AwaitingResponse);
    assert!(matches!(action, RelayAction::Hold));
}
