//! One invocation of an agent: decoding its request, and the protocol that
//! puts its log lines and its one result onto a single outbound stream.
//!
//! The protocol is a state machine without I/O. Whoever drives it reports
//! what happened (a line was sent, the run returned, the consumer is gone)
//! and asks for the next frame to deliver.

use crate::context::{decode_context, empty_context, Context, ContextModel, WireContext};
use crate::output::{encode_output, AgentOutput, OutputModel, WireAgentOutput, WireOutputModel};
use crate::relay::{empty_relay, has_room, offer, take, LogRelay, RelayModel, SendOutcome};
use crate::value::{decode, decode_model, StructuredValue, ValueModel, WireValue};
use vstd::prelude::*;

verus! {

/// Input data of an agent.
pub type Inputs = StructuredValue;

/// A request to run the agent on one node.
#[derive(Debug, PartialEq)]
pub struct RunRequest {
    /// Node id.
    pub nid: String,
    /// Execution context, if the caller sent one.
    pub ctx: Option<WireContext>,
    /// Input payload, if the caller sent one.
    pub inputs: Option<WireValue>,
}

/// What the agent's run operation is called with.
#[derive(Debug, PartialEq)]
pub struct RunArguments {
    pub nid: String,
    pub ctx: Context,
    pub inputs: Inputs,
}

impl RunRequest {
    /// Decodes the request. An absent context becomes the empty context and
    /// an absent payload becomes null; nothing is rejected.
    pub fn decode(&self) -> (args: RunArguments)
        ensures
            args.nid@ == self.nid@,
            args.ctx.model() == match self.ctx {
                Some(ctx) => decode_context(ctx.model()),
                None => empty_context(),
            },
            args.inputs.model() == match self.inputs {
                Some(value) => decode_model(value.model()),
                None => ValueModel::Null,
            },
    {
        let ctx = match &self.ctx {
            Some(ctx) => Context::from_wire(ctx),
            None => Context::default(),
        };
        let inputs = match &self.inputs {
            Some(value) => decode(value),
            None => StructuredValue::Null,
        };
        RunArguments { nid: self.nid.clone(), ctx, inputs }
    }
}

/// One frame of an invocation's outbound stream.
#[derive(Debug, PartialEq)]
pub enum AgentUpdate {
    /// A log line.
    Log(String),
    /// The result: the last frame of the stream.
    Output(WireAgentOutput),
}

/// Mathematical content of an [`AgentUpdate`].
pub ghost enum FrameModel {
    Log(Seq<char>),
    Output(WireOutputModel),
}

impl AgentUpdate {
    pub open spec fn model(self) -> FrameModel {
        match self {
            AgentUpdate::Log(line) => FrameModel::Log(line@),
            AgentUpdate::Output(output) => FrameModel::Output(output.model()),
        }
    }
}

/// Where an invocation stands.
#[derive(Debug, Clone, Copy, PartialEq, Eq, Structural)]
pub enum Phase {
    /// The run has not returned; log lines are taken and delivered.
    Running,
    /// The run has returned; what is pending is delivered, the result last.
    Draining,
    /// Nothing is taken or delivered any more.
    Closed,
}

/// What the driver of an invocation does next.
#[derive(Debug, PartialEq)]
pub enum Step {
    /// Deliver this frame, then ask again.
    Frame(AgentUpdate),
    /// Nothing to deliver now; ask again after the next send or finish.
    Idle,
    /// The stream is over.
    Done,
}

/// Mathematical content of an [`Invocation`].
pub ghost struct InvocationModel {
    /// Log lines waiting to be delivered.
    pub relay: RelayModel,
    /// The result, from the return of the run until its frame is out.
    pub result: Option<OutputModel>,
}

/// What can happen to an invocation.
pub ghost enum Op {
    /// The agent sends a line and is willing to wait.
    Send(Seq<char>),
    /// The agent sends a line without waiting.
    TrySend(Seq<char>),
    /// The run returns this result.
    Finish(OutputModel),
    /// The driver asks for the next frame.
    NextFrame,
    /// The consumer of the stream is gone.
    Disconnect,
}

/// A fresh invocation: running, nothing pending.
pub open spec fn initial(capacity: nat) -> InvocationModel {
    InvocationModel { relay: empty_relay(capacity), result: None }
}

/// The phase that a state is in.
pub open spec fn phase_of(s: InvocationModel) -> Phase {
    if !s.relay.closed {
        Phase::Running
    } else if s.result is Some || s.relay.queue.len() > 0 {
        Phase::Draining
    } else {
        Phase::Closed
    }
}

/// The state after `op`.
///
/// A line is queued where the relay has room. The first return of the run
/// closes the relay and keeps the result; later ones change nothing. Asking
/// for a frame takes out the oldest line; with none pending after the run
/// has returned, it takes out the result. A disconnect discards everything.
pub open spec fn next_state(s: InvocationModel, op: Op) -> InvocationModel {
    match op {
        Op::Send(line) => InvocationModel { relay: offer(s.relay, line), ..s },
        Op::TrySend(line) => InvocationModel { relay: offer(s.relay, line), ..s },
        Op::Finish(result) => if s.relay.closed {
            s
        } else {
            InvocationModel {
                relay: RelayModel { closed: true, ..s.relay },
                result: Some(result),
            }
        },
        Op::NextFrame => if s.relay.queue.len() > 0 {
            InvocationModel { relay: take(s.relay), ..s }
        } else if s.relay.closed {
            InvocationModel { result: None, ..s }
        } else {
            s
        },
        Op::Disconnect => InvocationModel {
            relay: RelayModel { closed: true, queue: Seq::empty(), ..s.relay },
            result: None,
        },
    }
}

/// The frame that `op` puts on the stream, if any. Only asking for a frame
/// gives one: the oldest pending line, or, with none pending, the result of
/// a run that has returned.
pub open spec fn emitted(s: InvocationModel, op: Op) -> Option<FrameModel> {
    match op {
        Op::NextFrame => if s.relay.queue.len() > 0 {
            Some(FrameModel::Log(s.relay.queue[0]))
        } else if s.relay.closed && s.result is Some {
            Some(FrameModel::Output(encode_output(s.result->Some_0)))
        } else {
            None
        },
        _ => None,
    }
}

/// Whether `op` is a send whose line joins the queue.
pub open spec fn accepts(s: InvocationModel, op: Op) -> bool {
    (op is Send || op is TrySend) && has_room(s.relay)
}

/// State of one invocation's stream.
pub struct Invocation {
    relay: LogRelay,
    result: Option<AgentOutput>,
}

impl View for Invocation {
    type V = InvocationModel;

    closed spec fn view(&self) -> InvocationModel {
        InvocationModel {
            relay: self.relay@,
            result: match self.result {
                Some(result) => Some(result.model()),
                None => None,
            },
        }
    }
}

impl Invocation {
    /// A running invocation whose relay holds up to `capacity` pending lines.
    pub fn new(capacity: usize) -> (out: Invocation)
        ensures
            out@ == initial(capacity as nat),
    {
        Invocation { relay: LogRelay::new(capacity), result: None }
    }

    /// The phase the invocation is in.
    pub fn phase(&self) -> (phase: Phase)
        ensures
            phase == phase_of(self@),
    {
        if !self.relay.is_closed() {
            Phase::Running
        } else if self.result.is_some() || self.relay.len() > 0 {
            Phase::Draining
        } else {
            Phase::Closed
        }
    }

    /// Number of log lines waiting to be delivered.
    pub fn pending(&self) -> (n: usize)
        ensures
            n == self@.relay.queue.len(),
    {
        self.relay.len()
    }

    /// A line from a sender that is willing to wait. `Full` hands the line
    /// back: the sender suspends until a frame was taken out and sends again.
    /// Once the run has returned or the consumer is gone the line is
    /// discarded.
    pub fn send(&mut self, line: String) -> (outcome: SendOutcome)
        ensures
            final(self)@ == next_state(old(self)@, Op::Send(line@)),
            accepts(old(self)@, Op::Send(line@)) ==> outcome == SendOutcome::Accepted,
            old(self)@.relay.closed ==> outcome == SendOutcome::Closed,
            !old(self)@.relay.closed && !accepts(old(self)@, Op::Send(line@)) ==> outcome
                == SendOutcome::Full(line),
    {
        self.relay.send(line)
    }

    /// A line from a sender that does not wait. Without room the line is
    /// dropped and the invocation is left exactly as it was.
    pub fn try_send(&mut self, line: String) -> (accepted: bool)
        ensures
            final(self)@ == next_state(old(self)@, Op::TrySend(line@)),
            accepted == accepts(old(self)@, Op::TrySend(line@)),
    {
        self.relay.try_send(line)
    }

    /// The run has returned `result`. From now on no line is taken; what is
    /// pending is still delivered, and the result after it. A second return,
    /// or one after the consumer is gone, changes nothing.
    pub fn finish(&mut self, result: AgentOutput)
        ensures
            final(self)@ == next_state(old(self)@, Op::Finish(result.model())),
    {
        if !self.relay.is_closed() {
            self.relay.close();
            self.result = Some(result);
        }
    }

    /// The next frame of the stream: the oldest pending line, or the result
    /// once the run has returned and no line is pending. `Idle` while the run
    /// goes on with nothing pending, `Done` when the stream is over.
    pub fn next_frame(&mut self) -> (step: Step)
        ensures
            final(self)@ == next_state(old(self)@, Op::NextFrame),
            match step {
                Step::Frame(frame) => emitted(old(self)@, Op::NextFrame) == Some(frame.model()),
                Step::Idle => emitted(old(self)@, Op::NextFrame) is None
                    && !old(self)@.relay.closed,
                Step::Done => emitted(old(self)@, Op::NextFrame) is None
                    && old(self)@.relay.closed,
            },
    {
        match self.relay.recv() {
            Some(line) => Step::Frame(AgentUpdate::Log(line)),
            None => {
                if self.relay.is_closed() {
                    match self.result.take() {
                        Some(result) => Step::Frame(AgentUpdate::Output(result.to_wire())),
                        None => Step::Done,
                    }
                } else {
                    Step::Idle
                }
            },
        }
    }

    /// The consumer of the stream is gone: pending lines and a pending
    /// result are discarded, and nothing is taken or delivered any more.
    pub fn disconnect(&mut self)
        ensures
            final(self)@ == next_state(old(self)@, Op::Disconnect),
    {
        self.relay.abandon();
        self.result = None;
    }
}

} // verus!
