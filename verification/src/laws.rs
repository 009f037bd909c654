//! What holds of every stream: the order of its frames, the place of its
//! result, what a dropped line leaves behind, and the independence of
//! invocations from one another.
//!
//! A history is the sequence of things that happened to an invocation,
//! oldest first. The functions below replay a history from a state.

use crate::invocation::{
    accepts, emitted, initial, next_state, phase_of, FrameModel, InvocationModel, Op, Phase,
};
use crate::output::{encode_output, OutputModel};
use crate::relay::{has_room, RelayModel};
use vstd::prelude::*;

verus! {

/// The state that `ops` lead to from `s`.
pub open spec fn state_after(s: InvocationModel, ops: Seq<Op>) -> InvocationModel
    decreases ops.len(),
{
    if ops.len() == 0 {
        s
    } else {
        next_state(state_after(s, ops.drop_last()), ops.last())
    }
}

/// The frames that `ops` put on the stream from `s`, in the order in which
/// they were put there.
pub open spec fn frames_of(s: InvocationModel, ops: Seq<Op>) -> Seq<FrameModel>
    decreases ops.len(),
{
    if ops.len() == 0 {
        Seq::empty()
    } else {
        let earlier = frames_of(s, ops.drop_last());
        match emitted(state_after(s, ops.drop_last()), ops.last()) {
            Some(frame) => earlier.push(frame),
            None => earlier,
        }
    }
}

/// The lines that joined the queue during `ops` from `s`, in the order of
/// their sends. A line that was dropped or handed back is not among them.
pub open spec fn accepted_lines(s: InvocationModel, ops: Seq<Op>) -> Seq<Seq<char>>
    decreases ops.len(),
{
    if ops.len() == 0 {
        Seq::empty()
    } else {
        let earlier = accepted_lines(s, ops.drop_last());
        let before = state_after(s, ops.drop_last());
        match ops.last() {
            Op::Send(line) => if accepts(before, ops.last()) {
                earlier.push(line)
            } else {
                earlier
            },
            Op::TrySend(line) => if accepts(before, ops.last()) {
                earlier.push(line)
            } else {
                earlier
            },
            _ => earlier,
        }
    }
}

/// The result of the first return of the run in `ops`.
pub open spec fn returned(ops: Seq<Op>) -> Option<OutputModel>
    decreases ops.len(),
{
    if ops.len() == 0 {
        None
    } else {
        match returned(ops.drop_last()) {
            Some(result) => Some(result),
            None => match ops.last() {
                Op::Finish(result) => Some(result),
                _ => None,
            },
        }
    }
}

/// The consumer stays for all of `ops`.
pub open spec fn stays_connected(ops: Seq<Op>) -> bool {
    forall|i: int| 0 <= i < ops.len() ==> !(#[trigger] ops[i] is Disconnect)
}

/// One log frame for each line, in order.
pub open spec fn log_frames(lines: Seq<Seq<char>>) -> Seq<FrameModel> {
    Seq::new(lines.len(), |i: int| FrameModel::Log(lines[i]))
}

/// One waiting send for each line, in order.
pub open spec fn sends(lines: Seq<Seq<char>>) -> Seq<Op> {
    Seq::new(lines.len(), |i: int| Op::Send(lines[i]))
}

/// `n` requests for the next frame.
pub open spec fn polls(n: nat) -> Seq<Op> {
    Seq::new(n, |i: int| Op::NextFrame)
}

proof fn lemma_connected_step(ops: Seq<Op>)
    requires
        ops.len() > 0,
    ensures
        stays_connected(ops) <==> stays_connected(ops.drop_last()) && !(ops.last() is Disconnect),
{
    let front = ops.drop_last();
    if stays_connected(ops) {
        assert forall|i: int| 0 <= i < front.len() implies !(#[trigger] front[i] is Disconnect) by {
            assert(front[i] == ops[i]);
        }
        assert(ops.last() == ops[ops.len() - 1]);
    }
    if stays_connected(front) && !(ops.last() is Disconnect) {
        assert forall|i: int| 0 <= i < ops.len() implies !(#[trigger] ops[i] is Disconnect) by {
            if i < front.len() {
                assert(front[i] == ops[i]);
            }
        }
    }
}

proof fn lemma_log_frames_push(lines: Seq<Seq<char>>, line: Seq<char>)
    ensures
        log_frames(lines.push(line)) == log_frames(lines).push(FrameModel::Log(line)),
{
    assert(log_frames(lines.push(line)) =~= log_frames(lines).push(FrameModel::Log(line)));
}

proof fn lemma_log_frames_take(frames: Seq<FrameModel>, queue: Seq<Seq<char>>)
    requires
        queue.len() > 0,
    ensures
        frames.push(FrameModel::Log(queue[0])) + log_frames(queue.subrange(1, queue.len() as int))
            == frames + log_frames(queue),
{
    assert(frames.push(FrameModel::Log(queue[0])) + log_frames(
        queue.subrange(1, queue.len() as int),
    ) =~= frames + log_frames(queue));
}

/// What holds of every state that an invocation can be in: no more lines
/// are pending than the relay has room for; a result is held only after the
/// run has returned; and once neither a result nor a line is left to be
/// delivered after the return, nothing is.
pub open spec fn consistent(s: InvocationModel) -> bool {
    &&& s.relay.queue.len() <= s.relay.capacity
    &&& (s.result is Some ==> s.relay.closed)
    &&& (s.relay.closed && s.result is None ==> s.relay.queue.len() == 0)
}

/// A fresh invocation is consistent, and nothing that happens to a
/// consistent invocation makes it inconsistent or changes its capacity.
pub proof fn law_steps_keep_consistency(capacity: nat, s: InvocationModel, op: Op)
    requires
        consistent(s),
    ensures
        consistent(initial(capacity)),
        consistent(next_state(s, op)),
        next_state(s, op).relay.capacity == s.relay.capacity,
{
}

/// What replaying a history from a fresh invocation always leaves true.
proof fn lemma_stream_invariant(capacity: nat, ops: Seq<Op>)
    ensures
        ({
            let s = state_after(initial(capacity), ops);
            let frames = frames_of(initial(capacity), ops);
            let lines = accepted_lines(initial(capacity), ops);
            let result = returned(ops);
            &&& s.relay.capacity == capacity
            &&& s.relay.queue.len() <= capacity
            &&& (!s.relay.closed ==> s.result is None && result is None && stays_connected(ops))
            &&& (s.result is Some ==> s.relay.closed && s.result == result && stays_connected(ops))
            &&& (s.relay.closed && s.result is None ==> s.relay.queue.len() == 0)
            &&& (s.relay.closed && stays_connected(ops) ==> result is Some)
            &&& (phase_of(s) != Phase::Closed ==> frames + log_frames(s.relay.queue) == log_frames(
                lines,
            ))
            &&& (phase_of(s) == Phase::Closed ==> {
                ||| (result is Some && frames == log_frames(lines).push(
                    FrameModel::Output(encode_output(result->Some_0)),
                ))
                ||| (!stays_connected(ops) && frames.is_prefix_of(log_frames(lines)))
            })
        }),
    decreases ops.len(),
{
    let s0 = initial(capacity);
    if ops.len() == 0 {
        assert(frames_of(s0, ops) + log_frames(s0.relay.queue) =~= log_frames(
            accepted_lines(s0, ops),
        ));
    } else {
        let front = ops.drop_last();
        let op = ops.last();
        lemma_stream_invariant(capacity, front);
        lemma_connected_step(ops);
        let before = state_after(s0, front);
        let frames_before = frames_of(s0, front);
        let lines_before = accepted_lines(s0, front);
        let s = state_after(s0, ops);
        let frames = frames_of(s0, ops);
        let lines = accepted_lines(s0, ops);
        match op {
            Op::Send(line) => {
                if has_room(before.relay) {
                    lemma_log_frames_push(before.relay.queue, line);
                    lemma_log_frames_push(lines_before, line);
                    assert(frames + log_frames(s.relay.queue) =~= log_frames(lines));
                }
            },
            Op::TrySend(line) => {
                if has_room(before.relay) {
                    lemma_log_frames_push(before.relay.queue, line);
                    lemma_log_frames_push(lines_before, line);
                    assert(frames + log_frames(s.relay.queue) =~= log_frames(lines));
                }
            },
            Op::Finish(result) => {},
            Op::NextFrame => {
                if before.relay.queue.len() > 0 {
                    lemma_log_frames_take(frames_before, before.relay.queue);
                    if phase_of(s) == Phase::Closed {
                        assert(false);
                    }
                } else if before.relay.closed && before.result is Some {
                    assert(log_frames(before.relay.queue) =~= Seq::empty());
                    assert(frames_before + log_frames(before.relay.queue) =~= frames_before);
                }
            },
            Op::Disconnect => {
                if phase_of(before) != Phase::Closed {
                    assert(frames.is_prefix_of(log_frames(lines))) by {
                        let whole = frames_before + log_frames(before.relay.queue);
                        assert(whole.subrange(0, frames_before.len() as int) =~= frames_before);
                    }
                }
            },
        }
    }
}

/// Order of a stream whose consumer stays, at any moment.
///
/// While the stream is open, the frames delivered so far are log frames,
/// and with the lines still pending behind them they are exactly the lines
/// that were accepted, in the order of their sends: none lost, none twice,
/// none out of place. Once the stream is closed, it holds one log frame for
/// each accepted line, in that order, then the one result frame of the
/// run's return, and that frame is the last.
pub proof fn law_result_comes_last(capacity: nat, ops: Seq<Op>)
    requires
        stays_connected(ops),
    ensures
        ({
            let s = state_after(initial(capacity), ops);
            let frames = frames_of(initial(capacity), ops);
            let lines = accepted_lines(initial(capacity), ops);
            &&& s.relay.queue.len() <= capacity
            &&& (phase_of(s) != Phase::Closed ==> frames + log_frames(s.relay.queue) == log_frames(
                lines,
            ))
            &&& (phase_of(s) == Phase::Closed ==> returned(ops) is Some && frames == log_frames(
                lines,
            ).push(FrameModel::Output(encode_output(returned(ops)->Some_0))))
        }),
{
    lemma_stream_invariant(capacity, ops);
}

/// Order of any stream, whether its consumer stays or leaves: the frames
/// are log frames of accepted lines in the order of their sends, with no
/// gap; a result frame comes only after all of them, and only once.
pub proof fn law_frames_follow_sends(capacity: nat, ops: Seq<Op>)
    ensures
        ({
            let frames = frames_of(initial(capacity), ops);
            let lines = accepted_lines(initial(capacity), ops);
            ||| frames.is_prefix_of(log_frames(lines))
            ||| (returned(ops) is Some && frames == log_frames(lines).push(
                FrameModel::Output(encode_output(returned(ops)->Some_0)),
            ))
        }),
{
    lemma_stream_invariant(capacity, ops);
    let s = state_after(initial(capacity), ops);
    let frames = frames_of(initial(capacity), ops);
    let lines = accepted_lines(initial(capacity), ops);
    if phase_of(s) != Phase::Closed {
        let whole = frames + log_frames(s.relay.queue);
        assert(whole.subrange(0, frames.len() as int) =~= frames);
    }
}

/// A closed invocation takes nothing and delivers nothing, whatever
/// happens to it.
pub proof fn law_closed_stays_closed(s: InvocationModel, ops: Seq<Op>)
    requires
        phase_of(s) == Phase::Closed,
    ensures
        state_after(s, ops) == s,
        frames_of(s, ops) == Seq::<FrameModel>::empty(),
        accepted_lines(s, ops) == Seq::<Seq<char>>::empty(),
    decreases ops.len(),
{
    if ops.len() > 0 {
        law_closed_stays_closed(s, ops.drop_last());
        assert(s.relay.queue =~= Seq::empty());
    }
}

/// Replaying `first + second` is replaying `first`, then `second` from
/// where `first` led.
pub proof fn lemma_replay_in_two(s: InvocationModel, first: Seq<Op>, second: Seq<Op>)
    ensures
        state_after(s, first + second) == state_after(state_after(s, first), second),
        frames_of(s, first + second) == frames_of(s, first) + frames_of(
            state_after(s, first),
            second,
        ),
        accepted_lines(s, first + second) == accepted_lines(s, first) + accepted_lines(
            state_after(s, first),
            second,
        ),
    decreases second.len(),
{
    let mid = state_after(s, first);
    if second.len() == 0 {
        assert(first + second =~= first);
        assert(frames_of(s, first) + frames_of(mid, second) =~= frames_of(s, first));
        assert(accepted_lines(s, first) + accepted_lines(mid, second) =~= accepted_lines(
            s,
            first,
        ));
    } else {
        let whole = first + second;
        assert(whole.drop_last() =~= first + second.drop_last());
        assert(whole.last() == second.last());
        lemma_replay_in_two(s, first, second.drop_last());
        let before = state_after(mid, second.drop_last());
        assert(state_after(s, whole.drop_last()) == before);
        assert(frames_of(s, whole) =~= frames_of(s, first) + frames_of(mid, second));
        assert(accepted_lines(s, whole) =~= accepted_lines(s, first) + accepted_lines(
            mid,
            second,
        ));
    }
}

/// Backpressure. A line that is offered while the relay has no room, or
/// after it has closed, leaves no trace: whatever happens afterwards, the
/// states, the frames and the accepted lines are those of a history in
/// which that send never took place. The line is not delivered later,
/// nothing is delivered twice, and nothing that would have been delivered is
/// held back. This holds of a send that does not wait, whose line is
/// dropped, and of one that waits, whose line is handed back.
pub proof fn law_refused_line_leaves_no_trace(s: InvocationModel, op: Op, rest: Seq<Op>)
    requires
        op is Send || op is TrySend,
        !has_room(s.relay),
    ensures
        next_state(s, op) == s,
        emitted(s, op) is None,
        state_after(s, seq![op] + rest) == state_after(s, rest),
        frames_of(s, seq![op] + rest) == frames_of(s, rest),
        accepted_lines(s, seq![op] + rest) == accepted_lines(s, rest),
{
    let one = seq![op];
    assert(one.drop_last() =~= Seq::<Op>::empty());
    assert(one.last() == op);
    assert(state_after(s, one.drop_last()) == s);
    assert(state_after(s, one) == s);
    assert(frames_of(s, one.drop_last()) =~= Seq::<FrameModel>::empty());
    assert(frames_of(s, one) =~= Seq::<FrameModel>::empty());
    assert(accepted_lines(s, one.drop_last()) =~= Seq::<Seq<char>>::empty());
    assert(accepted_lines(s, one) =~= Seq::<Seq<char>>::empty());
    lemma_replay_in_two(s, one, rest);
    assert(frames_of(s, one) + frames_of(s, rest) =~= frames_of(s, rest));
    assert(accepted_lines(s, one) + accepted_lines(s, rest) =~= accepted_lines(s, rest));
}

proof fn lemma_only_sends(s: InvocationModel, lines: Seq<Seq<char>>)
    requires
        !s.relay.closed,
        s.relay.queue.len() + lines.len() <= s.relay.capacity,
    ensures
        state_after(s, sends(lines)) == (InvocationModel {
            relay: RelayModel { queue: s.relay.queue + lines, ..s.relay },
            ..s
        }),
        frames_of(s, sends(lines)) == Seq::<FrameModel>::empty(),
        accepted_lines(s, sends(lines)) == lines,
    decreases lines.len(),
{
    if lines.len() == 0 {
        assert(s.relay.queue + lines =~= s.relay.queue);
        assert(accepted_lines(s, sends(lines)) =~= lines);
    } else {
        let ops = sends(lines);
        assert(ops.drop_last() =~= sends(lines.drop_last()));
        assert(ops.last() == Op::Send(lines.last()));
        lemma_only_sends(s, lines.drop_last());
        assert((s.relay.queue + lines.drop_last()).push(lines.last()) =~= s.relay.queue + lines);
        assert(lines.drop_last().push(lines.last()) =~= lines);
    }
}

proof fn lemma_only_polls(s: InvocationModel, n: nat)
    requires
        n <= s.relay.queue.len(),
    ensures
        state_after(s, polls(n)) == (InvocationModel {
            relay: RelayModel {
                queue: s.relay.queue.subrange(n as int, s.relay.queue.len() as int),
                ..s.relay
            },
            ..s
        }),
        frames_of(s, polls(n)) == log_frames(s.relay.queue.subrange(0, n as int)),
    decreases n,
{
    let queue = s.relay.queue;
    if n == 0 {
        assert(queue.subrange(0, queue.len() as int) =~= queue);
        assert(frames_of(s, polls(n)) =~= log_frames(queue.subrange(0, 0)));
    } else {
        let ops = polls(n);
        assert(ops.drop_last() =~= polls((n - 1) as nat));
        assert(ops.last() == Op::NextFrame);
        lemma_only_polls(s, (n - 1) as nat);
        let before = state_after(s, polls((n - 1) as nat));
        assert(before.relay.queue[0] == queue[n - 1]);
        assert(before.relay.queue.subrange(1, before.relay.queue.len() as int) =~= queue.subrange(
            n as int,
            queue.len() as int,
        ));
        assert(log_frames(queue.subrange(0, n - 1)).push(FrameModel::Log(queue[n - 1]))
            =~= log_frames(queue.subrange(0, n as int)));
    }
}

/// An agent that sends its lines and then returns. Where the relay has room
/// for all of them, delivery gives one log frame for each line, in the order
/// of the sends, then exactly one result frame, which carries the returned
/// result, and the stream is closed.
pub proof fn law_logs_then_result(capacity: nat, lines: Seq<Seq<char>>, result: OutputModel)
    requires
        lines.len() <= capacity,
    ensures
        ({
            let ops = sends(lines) + seq![Op::Finish(result)] + polls(lines.len() + 1);
            &&& frames_of(initial(capacity), ops) == log_frames(lines).push(
                FrameModel::Output(encode_output(result)),
            )
            &&& accepted_lines(initial(capacity), ops) == lines
            &&& phase_of(state_after(initial(capacity), ops)) == Phase::Closed
        }),
{
    let s0 = initial(capacity);
    let n = lines.len();
    let produce = sends(lines) + seq![Op::Finish(result)];
    let drain = produce + polls(n);
    let ops = produce + polls(n + 1);

    lemma_only_sends(s0, lines);
    let s1 = state_after(s0, sends(lines));
    assert(s1.relay.queue =~= lines);
    assert(produce.drop_last() =~= sends(lines));
    assert(produce.last() == Op::Finish(result));
    let s2 = state_after(s0, produce);
    assert(frames_of(s0, produce) =~= Seq::<FrameModel>::empty());
    assert(accepted_lines(s0, produce) =~= lines);

    lemma_only_polls(s2, n);
    lemma_replay_in_two(s0, produce, polls(n));
    let s3 = state_after(s0, drain);
    assert(s3.relay.queue =~= Seq::<Seq<char>>::empty());
    assert(lines.subrange(0, n as int) =~= lines);
    assert(frames_of(s0, drain) =~= log_frames(lines));
    lemma_no_sends_in_polls(s2, n);
    assert(accepted_lines(s0, drain) =~= lines);

    assert(ops.drop_last() =~= drain);
    assert(ops.last() == Op::NextFrame);
}

proof fn lemma_no_sends_in_polls(s: InvocationModel, n: nat)
    ensures
        accepted_lines(s, polls(n)) == Seq::<Seq<char>>::empty(),
    decreases n,
{
    if n > 0 {
        let ops = polls(n);
        assert(ops.drop_last() =~= polls((n - 1) as nat));
        assert(ops.last() == Op::NextFrame);
        lemma_no_sends_in_polls(s, (n - 1) as nat);
    }
}

/// One thing that happens, and the invocation of two that it happens to.
pub ghost struct Routed {
    /// Whether it happens to the first invocation.
    pub first: bool,
    pub op: Op,
}

/// The part of an interleaved history that one of two invocations sees.
pub open spec fn ops_of(history: Seq<Routed>, first: bool) -> Seq<Op>
    decreases history.len(),
{
    if history.len() == 0 {
        Seq::empty()
    } else {
        let earlier = ops_of(history.drop_last(), first);
        if history.last().first == first {
            earlier.push(history.last().op)
        } else {
            earlier
        }
    }
}

/// The states of two invocations after an interleaved history.
pub open spec fn pair_after(a: InvocationModel, b: InvocationModel, history: Seq<Routed>) -> (
    InvocationModel,
    InvocationModel,
)
    decreases history.len(),
{
    if history.len() == 0 {
        (a, b)
    } else {
        let before = pair_after(a, b, history.drop_last());
        if history.last().first {
            (next_state(before.0, history.last().op), before.1)
        } else {
            (before.0, next_state(before.1, history.last().op))
        }
    }
}

/// The frames on the streams of two invocations after an interleaved
/// history: each frame goes to the stream of the invocation that gave it.
pub open spec fn pair_frames(a: InvocationModel, b: InvocationModel, history: Seq<Routed>) -> (
    Seq<FrameModel>,
    Seq<FrameModel>,
)
    decreases history.len(),
{
    if history.len() == 0 {
        (Seq::empty(), Seq::empty())
    } else {
        let before = pair_after(a, b, history.drop_last());
        let earlier = pair_frames(a, b, history.drop_last());
        if history.last().first {
            match emitted(before.0, history.last().op) {
                Some(frame) => (earlier.0.push(frame), earlier.1),
                None => earlier,
            }
        } else {
            match emitted(before.1, history.last().op) {
                Some(frame) => (earlier.0, earlier.1.push(frame)),
                None => earlier,
            }
        }
    }
}

/// Isolation. However the histories of two invocations interleave, each
/// ends in the state, and each stream holds the frames, that its own
/// history alone leads to: no frame of one reaches the stream of the other,
/// and neither delays, reorders or drops what the other delivers.
pub proof fn law_invocations_are_isolated(
    a: InvocationModel,
    b: InvocationModel,
    history: Seq<Routed>,
)
    ensures
        pair_after(a, b, history) == (
            state_after(a, ops_of(history, true)),
            state_after(b, ops_of(history, false)),
        ),
        pair_frames(a, b, history) == (
            frames_of(a, ops_of(history, true)),
            frames_of(b, ops_of(history, false)),
        ),
    decreases history.len(),
{
    if history.len() > 0 {
        let front = history.drop_last();
        let op = history.last().op;
        law_invocations_are_isolated(a, b, front);
        let own = ops_of(front, history.last().first);
        assert(own.push(op).drop_last() =~= own);
        assert(own.push(op).last() == op);
    }
}

} // verus!
