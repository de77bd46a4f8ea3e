//! One connection and the steps it takes.
//!
//! A connection reads until the head of a request is complete, handles the
//! request in one go, and writes the response out until nothing is left. It
//! never touches a socket: it is told what a read or a write came to, and
//! answers with the next thing to do.

use vstd::prelude::*;
use vstd::slice::slice_subrange;
use mio::Token;
use crate::poll::token_index;
use crate::poll::Registration;
use crate::response::serial;
use crate::route::answer;
use crate::route::respond;
use crate::sys::timestamp;
use crate::wire::ends_head;
use crate::wire::terminated;

verus! {

/// The phase of a connection.
#[derive(Clone, Copy, Debug, PartialEq, Eq, Structural)]
pub enum State {
    Reading,
    Handling,
    Writing,
}

/// What one attempt to read from the socket came to.
#[derive(Debug)]
pub enum ReadOutcome {
    /// The bytes that were read. None at all means that the peer has closed.
    Data(Vec<u8>),
    /// Nothing can be read for now.
    WouldBlock,
    /// The read failed.
    Failed,
}

/// What one attempt to write to the socket came to.
#[derive(Debug)]
pub enum WriteOutcome {
    /// So many of the pending bytes were written.
    Wrote(usize),
    /// Nothing can be written for now.
    WouldBlock,
    /// The write failed.
    Failed,
}

/// The bytes that a read brought; none where it brought no data.
pub open spec fn brought(outcome: ReadOutcome) -> Seq<u8> {
    match outcome {
        ReadOutcome::Data(bytes) => bytes@,
        _ => Seq::empty(),
    }
}

/// The bytes that a run of reads brought, one after another.
pub open spec fn carried(outcomes: Seq<ReadOutcome>) -> Seq<u8>
    decreases outcomes.len(),
{
    if outcomes.len() == 0 {
        Seq::empty()
    } else {
        brought(outcomes[0]) + carried(outcomes.drop_first())
    }
}

/// What a connection does next, as a plain value.
pub enum Move {
    /// Read from the socket once more, now.
    Read,
    /// Write the pending bytes to the socket, now.
    Write,
    /// Arm the events of the phase and wait for the next one.
    Arm(State),
    /// Shut the socket down in both directions and forget the connection.
    Close,
}

/// What the caller is asked to do next for a connection.
#[derive(Debug)]
pub enum Step {
    /// Attempt one read and report it with `read`.
    Read,
    /// Attempt one write of the pending bytes and report it with `write`.
    Write,
    /// Register the socket again as told, and go back to waiting.
    Register(Registration),
    /// Shut the socket down in both directions; the connection is over.
    Close,
}

impl Step {
    /// True when this step asks of the connection `token` what `mv` says.
    pub open spec fn shows(self, mv: Move, token: usize) -> bool {
        match (self, mv) {
            (Step::Read, Move::Read) => true,
            (Step::Write, Move::Write) => true,
            (Step::Register(reg), Move::Arm(state)) => reg.arms(token, state),
            (Step::Close, Move::Close) => true,
            _ => false,
        }
    }
}

/// A connection as a plain value.
pub struct Conn {
    /// The token under which the poller reports the connection.
    pub token: usize,
    /// The phase.
    pub state: State,
    /// The bytes received so far.
    pub req: Seq<u8>,
    /// The serialized response; empty until the request is handled.
    pub res: Seq<u8>,
    /// How many bytes of the response are written.
    pub sent: nat,
}

impl Conn {
    /// A connection that has just been accepted: it reads, and both buffers
    /// are empty.
    pub open spec fn fresh(token: usize) -> Conn {
        Conn { token, state: State::Reading, req: Seq::empty(), res: Seq::empty(), sent: 0 }
    }

    /// No more is written than there is.
    pub open spec fn wf(self) -> bool {
        self.sent <= self.res.len()
    }

    /// The bytes of the response that are not written yet.
    pub open spec fn pending(self) -> Seq<u8> {
        if self.sent <= self.res.len() {
            self.res.skip(self.sent as int)
        } else {
            Seq::empty()
        }
    }

    /// The connection and its move after an attempt to read.
    ///
    /// In the reading phase, bytes are appended; the head is complete when
    /// what is received ends with the terminator, and until then the next
    /// read follows at once. No bytes or a failure end the connection. An
    /// outcome that arrives in another phase changes nothing.
    pub open spec fn read(self, outcome: ReadOutcome) -> (Conn, Move) {
        if self.state != State::Reading {
            (self, Move::Arm(self.state))
        } else {
            match outcome {
                ReadOutcome::Data(bytes) => {
                    let req = self.req + bytes@;
                    if bytes@.len() == 0 {
                        (self, Move::Close)
                    } else if terminated(req) {
                        (Conn { req, state: State::Handling, ..self }, Move::Arm(State::Handling))
                    } else {
                        (Conn { req, ..self }, Move::Read)
                    }
                },
                ReadOutcome::WouldBlock => (self, Move::Arm(State::Reading)),
                ReadOutcome::Failed => (self, Move::Close),
            }
        }
    }

    /// The connection and its move after the request is handled at time
    /// `now`.
    ///
    /// In the handling phase, the answer is serialized behind what the
    /// response buffer holds, and the connection writes. In another phase
    /// nothing is handled and nothing changes.
    pub open spec fn handle(self, now: Seq<u8>) -> (Conn, Move) {
        if self.state != State::Handling {
            (self, Move::Arm(self.state))
        } else {
            let (code, body) = answer(self.req, now);
            (
                Conn { res: self.res + serial(code, body), state: State::Writing, ..self },
                Move::Arm(State::Writing),
            )
        }
    }

    /// The connection and its move after a run of reads, each made as soon as
    /// the one before it asked for another: the run ends with the first read
    /// that asks for anything else.
    pub open spec fn drain(self, outcomes: Seq<ReadOutcome>) -> (Conn, Move)
        decreases outcomes.len(),
    {
        if outcomes.len() == 0 {
            (self, Move::Read)
        } else {
            let (conn, mv) = self.read(outcomes[0]);
            if mv is Read {
                conn.drain(outcomes.drop_first())
            } else {
                (conn, mv)
            }
        }
    }

    /// The connection and its move after an attempt to write.
    ///
    /// In the writing phase, the written bytes are counted; the connection
    /// ends when none is left, and waits for the socket otherwise. A failure
    /// ends it. An outcome that arrives in another phase changes nothing.
    pub open spec fn write(self, outcome: WriteOutcome) -> (Conn, Move) {
        if self.state != State::Writing {
            (self, Move::Arm(self.state))
        } else {
            match outcome {
                WriteOutcome::Wrote(n) => {
                    if self.sent + n >= self.res.len() {
                        (Conn { sent: self.res.len(), ..self }, Move::Close)
                    } else {
                        (Conn { sent: (self.sent + n) as nat, ..self }, Move::Arm(State::Writing))
                    }
                },
                WriteOutcome::WouldBlock => (self, Move::Arm(State::Writing)),
                WriteOutcome::Failed => (self, Move::Close),
            }
        }
    }

    /// The connection and its move when the poller reports an event for it at
    /// time `now`: a read in the reading phase, a write in the writing phase,
    /// and the handling of the request in between.
    pub open spec fn ready(self, now: Seq<u8>) -> (Conn, Move) {
        match self.state {
            State::Reading => (self, Move::Read),
            State::Handling => self.handle(now),
            State::Writing => (self, Move::Write),
        }
    }

    /// Draining takes in everything that is there. However many reads bring
    /// data before the head is complete, the connection asks for the next
    /// read after each of them, and ends up with all their bytes, in order,
    /// behind what it had. It stops asking when the head is complete.
    pub proof fn lemma_drain(self, outcomes: Seq<ReadOutcome>)
        requires
            self.state == State::Reading,
            forall|i: int|
                0 <= i < outcomes.len() ==> (#[trigger] outcomes[i]) is Data && brought(
                    outcomes[i],
                ).len() > 0,
            forall|n: int|
                0 < n < outcomes.len() ==> !terminated(
                    self.req + #[trigger] carried(outcomes.take(n)),
                ),
        ensures
            self.drain(outcomes).0.req == self.req + carried(outcomes),
            self.drain(outcomes).0.token == self.token,
            self.drain(outcomes).0.res == self.res,
            self.drain(outcomes).0.sent == self.sent,
            outcomes.len() > 0 && terminated(self.req + carried(outcomes)) ==> self.drain(
                outcomes,
            ).1 == Move::Arm(State::Handling) && self.drain(outcomes).0.state == State::Handling,
            !(outcomes.len() > 0 && terminated(self.req + carried(outcomes))) ==> self.drain(
                outcomes,
            ).1 == Move::Read && self.drain(outcomes).0.state == State::Reading,
        decreases outcomes.len(),
    {
        if outcomes.len() == 0 {
            assert(self.req + carried(outcomes) =~= self.req);
        } else {
            let rest = outcomes.drop_first();
            let (next, mv) = self.read(outcomes[0]);
            assert(next.req == self.req + brought(outcomes[0]));
            assert(carried(outcomes) == brought(outcomes[0]) + carried(rest));
            assert(self.req + carried(outcomes) =~= next.req + carried(rest));
            if outcomes.len() == 1 {
                assert(carried(rest) =~= Seq::<u8>::empty());
                assert(next.req + carried(rest) =~= next.req);
                assert(next.drain(rest) == (next, Move::Read));
            } else {
                let one = outcomes.take(1);
                assert(one[0] == outcomes[0]);
                assert(carried(one.drop_first()) =~= Seq::<u8>::empty());
                assert(self.req + carried(one) =~= next.req);
                assert(!terminated(next.req));
                assert(mv is Read);
                assert forall|n: int| 0 < n < rest.len() implies !terminated(
                    next.req + #[trigger] carried(rest.take(n)),
                ) by {
                    let longer = outcomes.take(n + 1);
                    assert(longer.drop_first() =~= rest.take(n));
                    assert(longer[0] == outcomes[0]);
                    assert(self.req + carried(longer) =~= next.req + carried(rest.take(n)));
                }
                assert forall|i: int| 0 <= i < rest.len() implies (#[trigger] rest[i]) is Data
                    && brought(rest[i]).len() > 0 by {
                    assert(rest[i] == outcomes[i + 1]);
                }
                next.lemma_drain(rest);
            }
        }
    }

    /// No step ever makes a connection count more written bytes than its
    /// response has, and none changes its token.
    pub proof fn lemma_steps_keep_wf(
        self,
        now: Seq<u8>,
        incoming: ReadOutcome,
        outgoing: WriteOutcome,
    )
        requires
            self.wf(),
        ensures
            Conn::fresh(self.token).wf(),
            self.ready(now).0.wf() && self.ready(now).0.token == self.token,
            self.read(incoming).0.wf() && self.read(incoming).0.token == self.token,
            self.handle(now).0.wf() && self.handle(now).0.token == self.token,
            self.write(outgoing).0.wf() && self.write(outgoing).0.token == self.token,
    {
    }

    /// A step ends in exactly one of two ways: the connection is closed, or
    /// the caller is told what to do with the socket next. Whenever it is
    /// told to wait, the events armed are those of the phase that the
    /// connection is then in.
    pub proof fn lemma_steps_arm_their_phase(
        self,
        now: Seq<u8>,
        incoming: ReadOutcome,
        outgoing: WriteOutcome,
    )
        ensures
            self.ready(now).1 matches Move::Arm(state) ==> state == self.ready(now).0.state,
            self.read(incoming).1 matches Move::Arm(state) ==> state == self.read(incoming).0.state,
            self.handle(now).1 matches Move::Arm(state) ==> state == self.handle(now).0.state,
            self.write(outgoing).1 matches Move::Arm(state) ==> state == self.write(
                outgoing,
            ).0.state,
            self.ready(now).1 is Read ==> self.ready(now).0.state == State::Reading,
            self.read(incoming).1 is Read ==> self.read(incoming).0.state == State::Reading,
            self.ready(now).1 is Write ==> self.ready(now).0.state == State::Writing,
    {
    }
}

/// One connection: its token, its phase, what it has received and what it has
/// to send.
#[derive(Debug)]
pub struct Request {
    token: Token,
    state: State,
    req: Vec<u8>,
    res: Vec<u8>,
    sent: usize,
}

impl View for Request {
    type V = Conn;

    closed spec fn view(&self) -> Conn {
        Conn {
            token: token_index(self.token),
            state: self.state,
            req: self.req@,
            res: self.res@,
            sent: self.sent as nat,
        }
    }
}

impl Request {
    /// A connection that has just been accepted under `token`.
    pub fn new(token: Token) -> (r: Request)
        ensures
            r@ == Conn::fresh(token_index(token)),
    {
        Request { token, state: State::Reading, req: Vec::new(), res: Vec::new(), sent: 0 }
    }

    /// The token of the connection.
    pub fn token(&self) -> (token: Token)
        ensures
            token_index(token) == self@.token,
    {
        self.token
    }

    /// The phase of the connection.
    pub fn state(&self) -> (state: State)
        ensures
            state == self@.state,
    {
        self.state
    }

    /// The bytes received so far.
    pub fn received(&self) -> (bytes: &[u8])
        ensures
            bytes@ == self@.req,
    {
        self.req.as_slice()
    }

    /// The serialized response.
    pub fn response(&self) -> (bytes: &[u8])
        ensures
            bytes@ == self@.res,
    {
        self.res.as_slice()
    }

    /// The bytes of the response that are still to be written.
    pub fn pending(&self) -> (bytes: &[u8])
        ensures
            bytes@ == self@.pending(),
    {
        let len = self.res.len();
        let from = if self.sent <= len {
            self.sent
        } else {
            len
        };
        let bytes = slice_subrange(self.res.as_slice(), from, len);
        assert(bytes@ =~= self@.pending());
        bytes
    }

    /// What to tell the poller now: the events of the current phase.
    pub fn reregister(&self) -> (reg: Registration)
        ensures
            reg.arms(self@.token, self@.state),
    {
        Registration::new(self.token, self.state)
    }

    /// Takes note of an event that the poller reports for the connection.
    /// Where that means to handle the request, the time of the answer is read
    /// from the clock, so the result is stated for whatever time that was.
    pub fn ready(&mut self) -> (step: Step)
        ensures
            exists|now: Seq<u8>|
                final(self)@ == (#[trigger] old(self)@.ready(now)).0 && step.shows(
                    old(self)@.ready(now).1,
                    old(self)@.token,
                ),
    {
        match self.state {
            State::Handling => {
                let step = self.handle();
                proof {
                    let now = choose|now: Seq<u8>|
                        self@ == (#[trigger] old(self)@.handle(now)).0 && step.shows(
                            old(self)@.handle(now).1,
                            old(self)@.token,
                        );
                    assert(old(self)@.ready(now) == old(self)@.handle(now));
                }
                step
            },
            _ => {
                let idle: Vec<u8> = Vec::new();
                self.ready_at(idle.as_slice())
            },
        }
    }

    /// Takes note of an event that the poller reports for the connection at
    /// time `now`.
    pub fn ready_at(&mut self, now: &[u8]) -> (step: Step)
        ensures
            final(self)@ == old(self)@.ready(now@).0,
            step.shows(old(self)@.ready(now@).1, old(self)@.token),
    {
        match self.state {
            State::Reading => Step::Read,
            State::Handling => self.handle_at(now),
            State::Writing => Step::Write,
        }
    }

    /// Takes note of what an attempt to read came to.
    pub fn read(&mut self, outcome: ReadOutcome) -> (step: Step)
        ensures
            final(self)@ == old(self)@.read(outcome).0,
            step.shows(old(self)@.read(outcome).1, old(self)@.token),
    {
        match self.state {
            State::Reading => {},
            _ => {
                return Step::Register(self.reregister());
            },
        }
        match outcome {
            ReadOutcome::Data(bytes) => {
                if bytes.len() == 0 {
                    return Step::Close;
                }
                self.req.extend_from_slice(bytes.as_slice());
                assert(self.req@ =~= old(self).req@ + bytes@);
                if ends_head(&self.req) {
                    self.state = State::Handling;
                    Step::Register(self.reregister())
                } else {
                    Step::Read
                }
            },
            ReadOutcome::WouldBlock => Step::Register(self.reregister()),
            ReadOutcome::Failed => Step::Close,
        }
    }

    /// Answers the request and turns to writing, where the connection is in
    /// the handling phase; in another phase nothing changes. The time of the
    /// answer is read from the clock, so the result is stated for whatever
    /// time that was.
    pub fn handle(&mut self) -> (step: Step)
        ensures
            exists|now: Seq<u8>|
                final(self)@ == (#[trigger] old(self)@.handle(now)).0 && step.shows(
                    old(self)@.handle(now).1,
                    old(self)@.token,
                ),
    {
        let now = match self.state {
            State::Handling => timestamp(),
            _ => Vec::new(),
        };
        self.handle_at(now.as_slice())
    }

    /// Answers the request at time `now` and turns to writing, where the
    /// connection is in the handling phase; in another phase nothing changes.
    pub fn handle_at(&mut self, now: &[u8]) -> (step: Step)
        ensures
            final(self)@ == old(self)@.handle(now@).0,
            step.shows(old(self)@.handle(now@).1, old(self)@.token),
    {
        match self.state {
            State::Handling => {},
            _ => {
                return Step::Register(self.reregister());
            },
        }
        let response = respond(self.req.as_slice(), now);
        response.write(&mut self.res);
        self.state = State::Writing;
        Step::Register(self.reregister())
    }

    /// Takes note of what an attempt to write the pending bytes came to.
    pub fn write(&mut self, outcome: WriteOutcome) -> (step: Step)
        ensures
            final(self)@ == old(self)@.write(outcome).0,
            step.shows(old(self)@.write(outcome).1, old(self)@.token),
    {
        match self.state {
            State::Writing => {},
            _ => {
                return Step::Register(self.reregister());
            },
        }
        match outcome {
            WriteOutcome::Wrote(n) => {
                if self.sent >= self.res.len() || n >= self.res.len() - self.sent {
                    self.sent = self.res.len();
                    Step::Close
                } else {
                    self.sent = self.sent + n;
                    Step::Register(self.reregister())
                }
            },
            WriteOutcome::WouldBlock => Step::Register(self.reregister()),
            WriteOutcome::Failed => Step::Close,
        }
    }
}

} // verus!
