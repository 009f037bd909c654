use actflow_agent_sdk::invocation::{AgentUpdate, Invocation, Phase, Step};
use actflow_agent_sdk::output::{AgentOutput, WireAgentOutput};
use actflow_agent_sdk::relay::{LogRelay, SendOutcome, LOG_CAPACITY};
use actflow_agent_sdk::status::NodeExecutionStatus;
use actflow_agent_sdk::value::{StructuredValue, WireKind, WireValue};

fn log(s: &str) -> AgentUpdate {
    AgentUpdate::Log(s.to_string())
}

fn done_output() -> WireAgentOutput {
    WireAgentOutput {
        status: NodeExecutionStatus::Succeeded,
        outputs: Some(WireValue { kind: Some(WireKind::StringValue("done".to_string())) }),
        error: String::new(),
        exception: String::new(),
    }
}

fn done() -> AgentOutput {
    AgentOutput::success(StructuredValue::String("done".to_string()))
}

/// Asks for frames until the invocation has none to give.
fn drain(inv: &mut Invocation) -> (Vec<AgentUpdate>, Step) {
    let mut frames = Vec::new();
    loop {
        match inv.next_frame() {
            Step::Frame(frame) => frames.push(frame),
            last => return (frames, last),
        }
    }
}

#[test]
fn log_capacity_is_a_few_dozen_to_low_hundreds() {
    assert_eq!(LOG_CAPACITY, 128);
}

#[test]
fn fresh_invocation_is_running_and_idle() {
    let mut inv = Invocation::new(LOG_CAPACITY);
    assert_eq!(inv.phase(), Phase::Running);
    assert_eq!(inv.pending(), 0);
    assert_eq!(inv.next_frame(), Step::Idle);
    assert_eq!(inv.phase(), Phase::Running);
}

#[test]
fn logs_then_result_come_out_in_order() {
    let mut inv = Invocation::new(LOG_CAPACITY);
    let lines = ["one", "two", "three", "four", "five"];
    for line in lines {
        assert_eq!(inv.send(line.to_string()), SendOutcome::Accepted);
    }
    assert_eq!(inv.pending(), 5);
    inv.finish(done());
    assert_eq!(inv.phase(), Phase::Draining);
    let (frames, last) = drain(&mut inv);
    assert_eq!(
        frames,
        vec![
            log("one"),
            log("two"),
            log("three"),
            log("four"),
            log("five"),
            AgentUpdate::Output(done_output()),
        ]
    );
    assert_eq!(last, Step::Done);
    assert_eq!(inv.phase(), Phase::Closed);
}

#[test]
fn no_frame_follows_the_result() {
    let mut inv = Invocation::new(4);
    inv.send("a".to_string());
    inv.finish(done());
    let (frames, _) = drain(&mut inv);
    assert_eq!(frames.len(), 2);
    for _ in 0..3 {
        assert_eq!(inv.next_frame(), Step::Done);
    }
    assert_eq!(inv.send("late".to_string()), SendOutcome::Closed);
    assert!(!inv.try_send("late".to_string()));
    inv.finish(AgentOutput::failed("again"));
    assert_eq!(inv.next_frame(), Step::Done);
    assert_eq!(inv.phase(), Phase::Closed);
    assert_eq!(inv.pending(), 0);
}

#[test]
fn delivery_may_interleave_with_sends() {
    let mut inv = Invocation::new(2);
    assert_eq!(inv.send("a".to_string()), SendOutcome::Accepted);
    assert_eq!(inv.next_frame(), Step::Frame(log("a")));
    assert_eq!(inv.next_frame(), Step::Idle);
    assert_eq!(inv.send("b".to_string()), SendOutcome::Accepted);
    assert_eq!(inv.send("c".to_string()), SendOutcome::Accepted);
    assert_eq!(inv.next_frame(), Step::Frame(log("b")));
    assert_eq!(inv.send("d".to_string()), SendOutcome::Accepted);
    inv.finish(done());
    let (frames, last) = drain(&mut inv);
    assert_eq!(frames, vec![log("c"), log("d"), AgentUpdate::Output(done_output())]);
    assert_eq!(last, Step::Done);
}

#[test]
fn result_without_logs_is_the_only_frame() {
    let mut inv = Invocation::new(LOG_CAPACITY);
    inv.finish(done());
    assert_eq!(inv.phase(), Phase::Draining);
    assert_eq!(inv.next_frame(), Step::Frame(AgentUpdate::Output(done_output())));
    assert_eq!(inv.phase(), Phase::Closed);
    assert_eq!(inv.next_frame(), Step::Done);
}

#[test]
fn try_send_on_a_full_relay_drops_the_line() {
    let mut inv = Invocation::new(2);
    assert!(inv.try_send("a".to_string()));
    assert!(inv.try_send("b".to_string()));
    assert!(!inv.try_send("dropped".to_string()));
    assert_eq!(inv.pending(), 2);
    assert_eq!(inv.phase(), Phase::Running);
    assert_eq!(inv.next_frame(), Step::Frame(log("a")));
    assert!(inv.try_send("c".to_string()));
    inv.finish(done());
    let (frames, last) = drain(&mut inv);
    assert_eq!(frames, vec![log("b"), log("c"), AgentUpdate::Output(done_output())]);
    assert_eq!(last, Step::Done);
}

#[test]
fn dropped_line_changes_nothing_later() {
    let script = |drop_one: bool| {
        let mut inv = Invocation::new(1);
        assert!(inv.try_send("kept".to_string()));
        if drop_one {
            assert!(!inv.try_send("dropped".to_string()));
        }
        let mut frames = Vec::new();
        if let Step::Frame(f) = inv.next_frame() {
            frames.push(f);
        }
        assert!(inv.try_send("next".to_string()));
        inv.finish(done());
        let (rest, _) = drain(&mut inv);
        frames.extend(rest);
        frames
    };
    assert_eq!(script(true), script(false));
    assert_eq!(script(true), vec![log("kept"), log("next"), AgentUpdate::Output(done_output())]);
}

#[test]
fn send_on_a_full_relay_hands_the_line_back() {
    let mut inv = Invocation::new(1);
    assert_eq!(inv.send("a".to_string()), SendOutcome::Accepted);
    assert_eq!(inv.send("b".to_string()), SendOutcome::Full("b".to_string()));
    assert_eq!(inv.pending(), 1);
    assert_eq!(inv.next_frame(), Step::Frame(log("a")));
    assert_eq!(inv.send("b".to_string()), SendOutcome::Accepted);
    assert_eq!(inv.next_frame(), Step::Frame(log("b")));
}

#[test]
fn relay_without_capacity_takes_nothing() {
    let mut inv = Invocation::new(0);
    assert!(!inv.try_send("a".to_string()));
    assert_eq!(inv.send("a".to_string()), SendOutcome::Full("a".to_string()));
    inv.finish(done());
    let (frames, _) = drain(&mut inv);
    assert_eq!(frames, vec![AgentUpdate::Output(done_output())]);
}

#[test]
fn only_the_first_return_counts() {
    let mut inv = Invocation::new(4);
    inv.finish(done());
    inv.finish(AgentOutput::failed("second"));
    let (frames, _) = drain(&mut inv);
    assert_eq!(frames, vec![AgentUpdate::Output(done_output())]);
}

#[test]
fn lines_sent_after_the_return_are_discarded() {
    let mut inv = Invocation::new(4);
    inv.send("before".to_string());
    inv.finish(done());
    assert_eq!(inv.send("after".to_string()), SendOutcome::Closed);
    assert!(!inv.try_send("after".to_string()));
    let (frames, _) = drain(&mut inv);
    assert_eq!(frames, vec![log("before"), AgentUpdate::Output(done_output())]);
}

#[test]
fn disconnect_discards_what_is_pending() {
    let mut inv = Invocation::new(4);
    inv.send("a".to_string());
    inv.send("b".to_string());
    assert_eq!(inv.next_frame(), Step::Frame(log("a")));
    inv.disconnect();
    assert_eq!(inv.phase(), Phase::Closed);
    assert_eq!(inv.pending(), 0);
    assert_eq!(inv.next_frame(), Step::Done);
    assert_eq!(inv.send("c".to_string()), SendOutcome::Closed);
    inv.finish(done());
    assert_eq!(inv.next_frame(), Step::Done);
    assert_eq!(inv.phase(), Phase::Closed);
}

#[test]
fn disconnect_while_draining_discards_the_result() {
    let mut inv = Invocation::new(4);
    inv.send("a".to_string());
    inv.finish(done());
    inv.disconnect();
    assert_eq!(inv.next_frame(), Step::Done);
}

#[test]
fn two_invocations_keep_their_frames_apart() {
    let mut first = Invocation::new(4);
    let mut second = Invocation::new(4);
    first.send("f1".to_string());
    second.send("s1".to_string());
    second.send("s2".to_string());
    first.send("f2".to_string());
    let mut first_frames = Vec::new();
    let mut second_frames = Vec::new();
    if let Step::Frame(f) = second.next_frame() {
        second_frames.push(f);
    }
    first.finish(AgentOutput::failed("first failed"));
    if let Step::Frame(f) = first.next_frame() {
        first_frames.push(f);
    }
    second.finish(done());
    first_frames.extend(drain(&mut first).0);
    second_frames.extend(drain(&mut second).0);
    assert_eq!(
        first_frames,
        vec![
            log("f1"),
            log("f2"),
            AgentUpdate::Output(WireAgentOutput {
                status: NodeExecutionStatus::Failed,
                outputs: Some(WireValue { kind: Some(WireKind::NullValue(0)) }),
                error: "first failed".to_string(),
                exception: String::new(),
            }),
        ]
    );
    assert_eq!(second_frames, vec![log("s1"), log("s2"), AgentUpdate::Output(done_output())]);
}

#[test]
fn relay_is_first_in_first_out() {
    let mut relay = LogRelay::new(3);
    assert_eq!(relay.capacity(), 3);
    assert_eq!(relay.len(), 0);
    assert!(!relay.is_closed());
    assert_eq!(relay.recv(), None);
    assert!(relay.try_send("a".to_string()));
    assert_eq!(relay.send("b".to_string()), SendOutcome::Accepted);
    assert!(relay.try_send("c".to_string()));
    assert_eq!(relay.len(), 3);
    assert!(!relay.try_send("d".to_string()));
    assert_eq!(relay.send("d".to_string()), SendOutcome::Full("d".to_string()));
    assert_eq!(relay.len(), 3);
    assert_eq!(relay.recv(), Some("a".to_string()));
    assert_eq!(relay.recv(), Some("b".to_string()));
    assert_eq!(relay.recv(), Some("c".to_string()));
    assert_eq!(relay.recv(), None);
}

#[test]
fn closed_relay_gives_out_what_it_holds() {
    let mut relay = LogRelay::new(3);
    relay.try_send("a".to_string());
    relay.close();
    assert!(relay.is_closed());
    assert!(!relay.try_send("b".to_string()));
    assert_eq!(relay.send("b".to_string()), SendOutcome::Closed);
    assert_eq!(relay.len(), 1);
    assert_eq!(relay.recv(), Some("a".to_string()));
    assert_eq!(relay.recv(), None);
}

#[test]
fn abandoned_relay_is_empty_and_closed() {
    let mut relay = LogRelay::new(3);
    relay.try_send("a".to_string());
    relay.try_send("b".to_string());
    relay.abandon();
    assert!(relay.is_closed());
    assert_eq!(relay.len(), 0);
    assert_eq!(relay.capacity(), 3);
    assert_eq!(relay.recv(), None);
}
