//! What the poller is told: tokens, interests and delivery modes.
//!
//! The three types are mio's. Nothing of them is read here but the number
//! that each stands for, and everything stated of mio's functions in this
//! file is taken on trust.

use vstd::prelude::*;
use mio::EventSet;
use mio::PollOpt;
use mio::Token;
use crate::request::State;

verus! {

/// mio's `Token`, carried through as it is.
#[verifier::external_type_specification]
#[verifier::external_body]
pub struct ExToken(Token);

/// mio's `EventSet`, carried through as it is.
#[verifier::external_type_specification]
#[verifier::external_body]
pub struct ExEventSet(EventSet);

/// mio's `PollOpt`, carried through as it is.
#[verifier::external_type_specification]
#[verifier::external_body]
pub struct ExPollOpt(PollOpt);

/// The number inside a token: what `Token::as_usize` returns.
pub uninterp spec fn token_index(token: Token) -> usize;

/// The flags of a set of events: what `EventSet::bits` returns.
pub uninterp spec fn event_bits(events: EventSet) -> usize;

/// The flags of a delivery mode: what `PollOpt::bits` returns.
pub uninterp spec fn poll_bits(opts: PollOpt) -> usize;

/// `Token::as_usize` hands out the number that the token was made with.
pub assume_specification[ Token::as_usize ](token: Token) -> (index: usize)
    ensures
        index == token_index(token),
;

/// Makes the token of `index` with mio's constructor `Token`: the token
/// stands for exactly that number.
#[verifier::external_body]
pub(crate) fn token_at(index: usize) -> (token: Token)
    ensures
        token_index(token) == index,
{
    Token(index)
}

/// `EventSet::readable` is the set of the one flag 0x001.
pub assume_specification[ EventSet::readable ]() -> (events: EventSet)
    ensures
        event_bits(events) == READABLE,
;

/// `EventSet::writable` is the set of the one flag 0x002.
pub assume_specification[ EventSet::writable ]() -> (events: EventSet)
    ensures
        event_bits(events) == WRITABLE,
;

/// `EventSet::all` joins readable, writable, error (0x004) and hup (0x008).
pub assume_specification[ EventSet::all ]() -> (events: EventSet)
    ensures
        event_bits(events) == EVERYTHING,
;

/// `PollOpt::edge` is the one flag 0x020.
pub assume_specification[ PollOpt::edge ]() -> (opts: PollOpt)
    ensures
        poll_bits(opts) == EDGE,
;

/// `PollOpt::oneshot` is the one flag 0x080.
pub assume_specification[ PollOpt::oneshot ]() -> (opts: PollOpt)
    ensures
        poll_bits(opts) == ONESHOT,
;

/// Joins two modes with mio's `|` on `PollOpt`: the result carries the flags
/// of both and no other.
#[verifier::external_body]
pub(crate) fn both(a: PollOpt, b: PollOpt) -> (opts: PollOpt)
    ensures
        poll_bits(opts) == poll_bits(a) | poll_bits(b),
{
    a | b
}

/// Flag of a readable socket.
pub const READABLE: usize = 0x001;

/// Flag of a writable socket.
pub const WRITABLE: usize = 0x002;

/// Every flag that an event can carry.
pub const EVERYTHING: usize = 0x00F;

/// Flag of edge-triggered delivery.
pub const EDGE: usize = 0x020;

/// Flag of one-shot delivery.
pub const ONESHOT: usize = 0x080;

/// The mode of every registration: edge-triggered and one-shot.
pub const EDGE_ONESHOT: usize = 0x0A0;

/// The token that stands for the listening socket. No connection ever has it.
pub const SERVER: usize = 0;

/// The events that a connection waits for in each phase.
pub open spec fn interest(state: State) -> usize {
    match state {
        State::Reading => READABLE,
        State::Handling => EVERYTHING,
        State::Writing => WRITABLE,
    }
}

/// What to tell the poller about one socket: under which token to report it,
/// which events to wait for, and how to deliver them.
#[derive(Debug)]
pub struct Registration {
    pub token: Token,
    pub events: EventSet,
    pub opts: PollOpt,
}

impl Registration {
    /// True of the registration that arms the events of `state` for `token`,
    /// edge-triggered and one-shot.
    pub open spec fn arms(&self, token: usize, state: State) -> bool {
        &&& token_index(self.token) == token
        &&& event_bits(self.events) == interest(state)
        &&& poll_bits(self.opts) == EDGE_ONESHOT
    }

    /// Two registrations that arm the same phase for the same token tell the
    /// poller the same thing: registering twice in a row asks for nothing
    /// that the first time did not ask for.
    pub proof fn lemma_same_registration(self, again: Registration, token: usize, state: State)
        requires
            self.arms(token, state),
            again.arms(token, state),
        ensures
            token_index(self.token) == token_index(again.token),
            event_bits(self.events) == event_bits(again.events),
            poll_bits(self.opts) == poll_bits(again.opts),
    {
    }

    /// The registration of `token` for the events of `state`.
    pub fn new(token: Token, state: State) -> (r: Registration)
        ensures
            r.arms(token_index(token), state),
            r.token == token,
    {
        let events = match state {
            State::Reading => EventSet::readable(),
            State::Handling => EventSet::all(),
            State::Writing => EventSet::writable(),
        };
        let opts = both(PollOpt::edge(), PollOpt::oneshot());
        assert(0x020usize | 0x080usize == 0x0A0usize) by (bit_vector);
        Registration { token, events, opts }
    }
}

} // verus!
