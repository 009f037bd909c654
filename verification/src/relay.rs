//! The log relay: a bounded, ordered, one-directional conduit from the code
//! that emits log lines to the stream that delivers them.
//!
//! The relay never waits. Where a sender would have to wait for room, `send`
//! hands the line back and the caller suspends and tries again; `try_send`
//! drops the line instead.

use std::collections::VecDeque;
use vstd::prelude::*;

verus! {

/// Number of pending log lines that an invocation's relay holds.
pub const LOG_CAPACITY: usize = 128;

/// Mathematical content of a [`LogRelay`].
pub ghost struct RelayModel {
    /// Most lines that may be pending at once.
    pub capacity: nat,
    /// Pending lines, oldest first.
    pub queue: Seq<Seq<char>>,
    /// Whether the relay has stopped taking lines.
    pub closed: bool,
}

/// An open relay with nothing pending.
pub open spec fn empty_relay(capacity: nat) -> RelayModel {
    RelayModel { capacity, queue: Seq::empty(), closed: false }
}

/// Whether the relay takes one more line now.
pub open spec fn has_room(r: RelayModel) -> bool {
    !r.closed && r.queue.len() < r.capacity
}

/// The relay after it was offered `line`: the line joins the end of the
/// queue where there is room, and nothing changes where there is none.
pub open spec fn offer(r: RelayModel, line: Seq<char>) -> RelayModel {
    if has_room(r) {
        RelayModel { queue: r.queue.push(line), ..r }
    } else {
        r
    }
}

/// The relay after its oldest line, if it has one, was taken out.
pub open spec fn take(r: RelayModel) -> RelayModel {
    if r.queue.len() > 0 {
        RelayModel { queue: r.queue.subrange(1, r.queue.len() as int), ..r }
    } else {
        r
    }
}

/// What a suspending send of one line came to.
#[derive(Debug, PartialEq)]
pub enum SendOutcome {
    /// The line is pending.
    Accepted,
    /// No room now. The line comes back unchanged, for the caller to offer
    /// again once a line was taken out.
    Full(String),
    /// The relay has stopped taking lines; the line is discarded.
    Closed,
}

/// The text of each line.
pub open spec fn lines_of(queue: Seq<String>) -> Seq<Seq<char>> {
    Seq::new(queue.len(), |i: int| queue[i]@)
}

/// Bounded first-in first-out queue of log lines.
pub struct LogRelay {
    capacity: usize,
    queue: VecDeque<String>,
    closed: bool,
}

impl View for LogRelay {
    type V = RelayModel;

    closed spec fn view(&self) -> RelayModel {
        RelayModel {
            capacity: self.capacity as nat,
            queue: lines_of(self.queue@),
            closed: self.closed,
        }
    }
}

impl LogRelay {
    /// An open relay with room for `capacity` pending lines.
    pub fn new(capacity: usize) -> (out: LogRelay)
        ensures
            out@ == empty_relay(capacity as nat),
    {
        let out = LogRelay { capacity, queue: VecDeque::new(), closed: false };
        proof {
            assert(out@.queue =~= Seq::empty());
        }
        out
    }

    /// Most lines that may be pending at once.
    pub fn capacity(&self) -> (n: usize)
        ensures
            n == self@.capacity,
    {
        self.capacity
    }

    /// Number of pending lines.
    pub fn len(&self) -> (n: usize)
        ensures
            n == self@.queue.len(),
    {
        self.queue.len()
    }

    /// Whether the relay has stopped taking lines.
    pub fn is_closed(&self) -> (b: bool)
        ensures
            b == self@.closed,
    {
        self.closed
    }

    /// Offers a line without ever asking the caller to wait: the line is
    /// queued where there is room and dropped where there is none, or where
    /// the relay is closed. A dropped line leaves the relay as it was.
    pub fn try_send(&mut self, line: String) -> (accepted: bool)
        ensures
            accepted == has_room(old(self)@),
            final(self)@ == offer(old(self)@, line@),
    {
        if !self.closed && self.queue.len() < self.capacity {
            self.queue.push_back(line);
            proof {
                assert(self@.queue =~= old(self)@.queue.push(line@));
            }
            true
        } else {
            false
        }
    }

    /// Offers a line on behalf of a sender that is willing to wait. Where
    /// there is no room the relay is left as it was and the line comes back.
    pub fn send(&mut self, line: String) -> (outcome: SendOutcome)
        ensures
            final(self)@ == offer(old(self)@, line@),
            has_room(old(self)@) ==> outcome == SendOutcome::Accepted,
            old(self)@.closed ==> outcome == SendOutcome::Closed,
            !old(self)@.closed && !has_room(old(self)@) ==> outcome == SendOutcome::Full(line),
    {
        if self.closed {
            SendOutcome::Closed
        } else if self.queue.len() < self.capacity {
            self.queue.push_back(line);
            proof {
                assert(self@.queue =~= old(self)@.queue.push(line@));
            }
            SendOutcome::Accepted
        } else {
            SendOutcome::Full(line)
        }
    }

    /// Takes the oldest pending line out, if there is one.
    pub fn recv(&mut self) -> (line: Option<String>)
        ensures
            final(self)@ == take(old(self)@),
            old(self)@.queue.len() == 0 ==> line is None,
            old(self)@.queue.len() > 0 ==> line is Some && line->Some_0@ == old(self)@.queue[0],
    {
        let line = self.queue.pop_front();
        proof {
            if old(self)@.queue.len() > 0 {
                assert(self@.queue =~= old(self)@.queue.subrange(
                    1,
                    old(self)@.queue.len() as int,
                ));
            }
        }
        line
    }

    /// Stops the relay from taking lines. What is pending stays and can
    /// still be taken out.
    pub fn close(&mut self)
        ensures
            final(self)@ == (RelayModel { closed: true, ..old(self)@ }),
    {
        self.closed = true;
    }

    /// Stops the relay from taking lines and discards what is pending.
    pub fn abandon(&mut self)
        ensures
            final(self)@ == (RelayModel {
                closed: true,
                queue: Seq::empty(),
                ..old(self)@
            }),
    {
        self.closed = true;
        self.queue.clear();
        proof {
            assert(self@.queue =~= Seq::empty());
        }
    }
}

} // verus!
