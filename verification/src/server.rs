//! The server: the table of live connections and the dispatch of events.

use vstd::prelude::*;
use vstd::seq_lib::seq_to_set_is_finite;
use vstd::set_lib::lemma_len_subset;
use vstd::set_lib::lemma_set_subset_finite;
use vstd::set_lib::lemma_subset_equality;
use mio::Token;
use crate::poll::token_at;
use crate::poll::token_index;
use crate::poll::Registration;
use crate::poll::SERVER;
use crate::request::Conn;
use crate::request::Move;
use crate::request::ReadOutcome;
use crate::request::Request;
use crate::request::State;
use crate::request::Step;
use crate::request::WriteOutcome;
use crate::sys::timestamp;
use crate::table::create;
use crate::table::get;
use crate::table::get_mut;
use crate::table::insert;
use crate::table::remove;
use crate::table::table_entries;
use crate::table::table_vacant;
use crate::table::Table;

verus! {

/// The token of the first slot. Tokens below it are never given to a
/// connection.
pub const FIRST: usize = 1;

/// How many connections can be live at a time.
pub const CAPACITY: usize = 1024;

/// True of the tokens that name a slot of the table.
pub open spec fn is_slot(token: usize) -> bool {
    FIRST <= token < FIRST + CAPACITY
}

/// The table of connections as a plain value: the live connections, each
/// under its token. Every other slot is free.
pub struct Slots {
    pub live: Map<usize, Conn>,
}

impl Slots {
    /// The table of a server that has not accepted anything yet.
    pub open spec fn empty() -> Slots {
        Slots { live: Map::empty() }
    }

    /// Every live connection stands in a slot and knows the token it stands
    /// under.
    pub open spec fn wf(self) -> bool {
        forall|k: usize| #[trigger]
            self.live.dom().contains(k) ==> is_slot(k) && self.live[k].token == k
    }

    /// True of the tokens that a new connection could get: those of the slots
    /// without a live connection.
    pub open spec fn is_free(self, token: usize) -> bool {
        is_slot(token) && !self.live.dom().contains(token)
    }

    /// The lowest free token that is not below `from`, if there is one.
    pub open spec fn first_free(self, from: int) -> Option<usize>
        decreases FIRST + CAPACITY - from,
    {
        if from < FIRST || from >= FIRST + CAPACITY {
            None
        } else if !self.live.dom().contains(from as usize) {
            Some(from as usize)
        } else {
            self.first_free(from + 1)
        }
    }

    /// The table after a connection was accepted, and the token it got: the
    /// lowest free one. A table without a free token stays as it is.
    pub open spec fn accept(self) -> (Slots, Option<usize>) {
        match self.first_free(FIRST as int) {
            Some(token) => (
                Slots { live: self.live.insert(token, Conn::fresh(token)) },
                Some(token),
            ),
            None => (self, None),
        }
    }

    /// The table after the connection `token` was destroyed: its token is
    /// free again.
    pub open spec fn remove(self, token: usize) -> Slots {
        Slots { live: self.live.remove(token) }
    }

    /// The table after the connection `token` took a step that left it as
    /// `conn` and asked for `mv`: a connection that closes is destroyed, any
    /// other is kept as it now is.
    pub open spec fn settle(self, token: usize, conn: Conn, mv: Move) -> Slots {
        if mv is Close {
            self.remove(token)
        } else {
            Slots { live: self.live.insert(token, conn) }
        }
    }

    /// The table after an event for `token` at time `now`. Events for the
    /// listening socket or for a token without a live connection change
    /// nothing.
    pub open spec fn ready(self, token: usize, now: Seq<u8>) -> Slots {
        if self.live.dom().contains(token) {
            let (conn, mv) = self.live[token].ready(now);
            self.settle(token, conn, mv)
        } else {
            self
        }
    }

    /// The table after the connection `token` was told what a read came to.
    pub open spec fn read(self, token: usize, outcome: ReadOutcome) -> Slots {
        if self.live.dom().contains(token) {
            let (conn, mv) = self.live[token].read(outcome);
            self.settle(token, conn, mv)
        } else {
            self
        }
    }

    /// The table after the connection `token` was told what a write came to.
    pub open spec fn write(self, token: usize, outcome: WriteOutcome) -> Slots {
        if self.live.dom().contains(token) {
            let (conn, mv) = self.live[token].write(outcome);
            self.settle(token, conn, mv)
        } else {
            self
        }
    }

    /// What `first_free` finds is free and not below `from`, and nothing
    /// between `from` and it is free. Where it finds nothing, no slot from
    /// `from` on is free.
    pub proof fn lemma_first_free(self, from: int)
        requires
            FIRST <= from <= FIRST + CAPACITY,
        ensures
            self.first_free(from) matches Some(token) ==> from <= token && self.is_free(token)
                && forall|k: usize| from <= k < token ==> !self.is_free(k),
            self.first_free(from) is None ==> forall|k: usize| from <= k ==> !self.is_free(k),
        decreases FIRST + CAPACITY - from,
    {
        if from < FIRST + CAPACITY && self.live.dom().contains(from as usize) {
            self.lemma_first_free(from + 1);
        }
    }

    /// An accepted connection gets the lowest token that is free: a token
    /// that no live connection has, that is not the listening socket's, and
    /// that no free token lies below. The connection starts fresh, all others
    /// stay as they are, and the table stays well formed. A connection is
    /// turned away only where no token is free.
    pub proof fn lemma_accept_least(self)
        requires
            self.wf(),
        ensures
            self.accept().0.wf(),
            self.accept().1 matches Some(token) ==> {
                &&& self.is_free(token)
                &&& token != SERVER
                &&& forall|k: usize| self.is_free(k) ==> token <= k
                &&& self.accept().0.live[token] == Conn::fresh(token)
                &&& self.accept().0.live.remove(token) == self.live
            },
            self.accept().1 is None ==> self.accept().0 == self && forall|k: usize|
                !self.is_free(k),
    {
        self.lemma_first_free(FIRST as int);
        if let Some(token) = self.accept().1 {
            assert(self.accept().0.live.remove(token) =~= self.live);
        }
    }

    /// Never more connections are live than the table has slots, and a
    /// connection is turned away exactly when that many are.
    pub proof fn lemma_count(self)
        requires
            self.wf(),
        ensures
            self.live.dom().finite(),
            self.live.dom().len() <= CAPACITY,
            self.accept().1 is None <==> self.live.dom().len() == CAPACITY,
    {
        let all = Seq::new(CAPACITY as nat, |i: int| (FIRST + i) as usize);
        let slots = all.to_set();
        let live = self.live.dom();
        all.unique_seq_to_set();
        seq_to_set_is_finite(all);
        assert forall|k: usize| is_slot(k) implies all.contains(k) by {
            assert(all[k - FIRST] == k);
        }
        assert forall|k: usize| live.contains(k) implies slots.contains(k) by {
            assert(is_slot(k));
        }
        assert(live.subset_of(slots));
        lemma_set_subset_finite(slots, live);
        lemma_len_subset(live, slots);
        self.lemma_accept_least();
        if self.accept().1 is None {
            assert forall|k: usize| slots.contains(k) implies live.contains(k) by {
                assert(!self.is_free(k));
            }
            assert(live =~= slots);
        }
        if live.len() == CAPACITY {
            lemma_subset_equality(live, slots);
        }
    }

    /// Destroying a connection keeps the table well formed, frees its token
    /// and touches no other connection.
    pub proof fn lemma_remove_wf(self, token: usize)
        requires
            self.wf(),
        ensures
            self.remove(token).wf(),
            is_slot(token) ==> self.remove(token).is_free(token),
            forall|k: usize|
                k != token ==> (#[trigger] self.remove(token).live.dom().contains(k)
                    <==> self.live.dom().contains(k)),
            forall|k: usize|
                k != token && self.live.dom().contains(k) ==> #[trigger] self.remove(token).live[k]
                    == self.live[k],
    {
    }

    /// The token of a connection that was destroyed can be given out again.
    /// The next connection gets it unless a lower token is free, and the
    /// connection that gets it is a fresh one: nothing of the one that had the
    /// token before is left.
    pub proof fn lemma_token_reuse(self, token: usize)
        requires
            self.wf(),
            self.live.dom().contains(token),
        ensures
            self.remove(token).is_free(token),
            self.remove(token).accept().1 matches Some(next) && next <= token,
            (forall|k: usize| self.is_free(k) ==> token < k) ==> self.remove(token).accept().1
                == Some(token),
            self.remove(token).accept().1 == Some(token) ==> self.remove(token).accept().0.live
                == self.live.insert(token, Conn::fresh(token)),
    {
        let freed = self.remove(token);
        freed.lemma_accept_least();
        assert(freed.is_free(token));
        let next = freed.accept().1->0;
        if forall|k: usize| self.is_free(k) ==> token < k {
            if next < token {
                assert(self.is_free(next));
            }
        }
        assert(freed.live.insert(token, Conn::fresh(token)) =~= self.live.insert(
            token,
            Conn::fresh(token),
        ));
    }

    /// A step of one connection keeps the table well formed and leaves every
    /// other connection as it was.
    pub proof fn lemma_settle_wf(self, token: usize, conn: Conn, mv: Move)
        requires
            self.wf(),
            self.live.dom().contains(token),
            conn.token == token,
        ensures
            self.settle(token, conn, mv).wf(),
            self.settle(token, conn, mv).live.dom().contains(token) <==> !(mv is Close),
            forall|k: usize|
                k != token ==> (#[trigger] self.settle(token, conn, mv).live.dom().contains(k)
                    <==> self.live.dom().contains(k)),
            forall|k: usize|
                k != token && self.live.dom().contains(k) ==> #[trigger] self.settle(
                    token,
                    conn,
                    mv,
                ).live[k] == self.live[k],
    {
    }
}

/// The first `n + 1` elements of a sequence are the first `n` and the one
/// behind them.
proof fn lemma_take_one_more(v: Seq<usize>, n: int)
    requires
        0 <= n < v.len(),
    ensures
        v.take(n + 1).to_set() =~= v.take(n).to_set().insert(v[n]),
        v.no_duplicates() ==> !v.take(n).contains(v[n]),
{
    let head = v.take(n);
    let more = v.take(n + 1);
    assert forall|j: usize| head.to_set().insert(v[n]).contains(j) implies more.contains(j) by {
        if j == v[n] {
            assert(more[n] == j);
        } else {
            let i = choose|i: int| 0 <= i < head.len() && head[i] == j;
            assert(more[i] == j);
        }
    }
    assert forall|j: usize| more.contains(j) implies head.to_set().insert(v[n]).contains(j) by {
        let i = choose|i: int| 0 <= i < more.len() && more[i] == j;
        if i < n {
            assert(head[i] == j);
        }
    }
    if v.no_duplicates() && head.contains(v[n]) {
        let i = choose|i: int| 0 <= i < head.len() && head[i] == v[n];
        assert(v[i] == v[n]);
    }
}

/// What the caller is asked to do about an event.
#[derive(Debug)]
pub enum Dispatch {
    /// The listening socket is ready: accept what is there, and call `accept`
    /// for each socket that comes of it.
    Accept,
    /// The event belongs to a live connection, which asks for this step.
    Connection(Step),
    /// No live connection has the token; there is nothing to do.
    Unknown,
}

/// The server: the table of the live connections.
#[derive(Debug)]
pub struct HttpServer {
    requests: Table,
}

impl View for HttpServer {
    type V = Slots;

    closed spec fn view(&self) -> Slots {
        Slots {
            live: Map::new(
                |k: usize| table_entries(self.requests).dom().contains(k),
                |k: usize| table_entries(self.requests)[k]@,
            ),
        }
    }
}

impl HttpServer {
    /// The vacant slots of the slab are the free tokens, each once.
    spec fn chained(&self) -> bool {
        let vacant = table_vacant(self.requests);
        &&& vacant.no_duplicates()
        &&& forall|i: int| 0 <= i < vacant.len() ==> self@.is_free(#[trigger] vacant[i])
        &&& forall|k: usize| #[trigger] self@.is_free(k) ==> vacant.contains(k)
    }

    /// The table is well formed, and the slab under it agrees with it about
    /// which tokens are free.
    pub closed spec fn wf(&self) -> bool {
        self@.wf() && self.chained()
    }

    /// A well-formed server has a well-formed table.
    pub proof fn lemma_wf(&self)
        requires
            self.wf(),
        ensures
            self@.wf(),
    {
    }

    /// A server without connections.
    pub fn new() -> (server: HttpServer)
        ensures
            server.wf(),
            server@ == Slots::empty(),
    {
        let server = HttpServer { requests: create(token_at(FIRST), CAPACITY) };
        proof {
            assert(server@.live =~= Slots::empty().live);
            let vacant = table_vacant(server.requests);
            assert forall|k: usize| #[trigger] server@.is_free(k) implies vacant.contains(k) by {
                assert(vacant[k - FIRST] == k);
            }
        }
        server
    }

    /// Tells whether a live connection has `token`.
    pub fn contains(&self, token: Token) -> (found: bool)
        requires
            self.wf(),
        ensures
            found == self@.live.dom().contains(token_index(token)),
    {
        self.get(token).is_some()
    }

    /// The connection that has `token`, if one is live.
    pub fn get(&self, token: Token) -> (found: Option<&Request>)
        requires
            self.wf(),
        ensures
            found is Some <==> self@.live.dom().contains(token_index(token)),
            found matches Some(request) ==> request@ == self@.live[token_index(token)],
    {
        let k = token.as_usize();
        if k < FIRST || k - FIRST >= CAPACITY {
            return None;
        }
        assert(is_slot(k));
        assert(!self@.live.dom().contains(k) ==> self@.is_free(k));
        get(&self.requests, token)
    }

    /// The lowest free token, if one is free.
    fn lowest_free(&self) -> (found: Option<usize>)
        requires
            self.wf(),
        ensures
            found == self@.first_free(FIRST as int),
    {
        let mut k: usize = FIRST;
        while k < FIRST + CAPACITY
            invariant
                self.wf(),
                FIRST <= k <= FIRST + CAPACITY,
                self@.first_free(FIRST as int) == self@.first_free(k as int),
            decreases FIRST + CAPACITY - k,
        {
            if !self.contains(token_at(k)) {
                return Some(k);
            }
            k += 1;
        }
        None
    }

    /// Makes room for a connection that was just accepted, and says how to
    /// register its socket: under the lowest free token, for reading. With no
    /// token free, the table stays as it is and the socket has to be closed.
    ///
    /// The slab fills the slot that was emptied last. To fill the lowest one,
    /// slots are filled until its turn has come, and the others are emptied
    /// again.
    #[verifier::loop_isolation(false)]
    pub fn accept(&mut self) -> (reg: Option<Registration>)
        requires
            old(self).wf(),
        ensures
            final(self).wf(),
            final(self)@ == old(self)@.accept().0,
            reg is None <==> old(self)@.accept().1 is None,
            reg matches Some(r) ==> r.arms(old(self)@.accept().1->0, State::Reading),
            reg matches Some(r) ==> old(self)@.is_free(token_index(r.token)) && token_index(r.token)
                != SERVER,
            reg matches Some(r) ==> forall|k: usize|
                old(self)@.is_free(k) ==> token_index(r.token) <= k,
            reg matches Some(r) ==> final(self)@.live[token_index(r.token)] == Conn::fresh(
                token_index(r.token),
            ),
    {
        proof {
            old(self)@.lemma_accept_least();
        }
        let lowest = match self.lowest_free() {
            Some(lowest) => lowest,
            None => {
                return None;
            },
        };
        let ghost v0 = table_vacant(old(self).requests);
        let ghost e0 = table_entries(old(self).requests);
        assert(old(self)@.is_free(lowest));
        let ghost at = choose|i: int| 0 <= i < v0.len() && v0[i] == lowest;
        let ghost mut popped: int = 0;
        let mut extra: Vec<Token> = Vec::new();
        let mut found = false;
        while !found
            invariant
                0 <= popped <= at + 1,
                found <==> popped == at + 1,
                extra.len() == (if found {
                    at
                } else {
                    popped
                }),
                forall|i: int| 0 <= i < extra.len() ==> token_index(#[trigger] extra[i]) == v0[i],
                table_vacant(self.requests) == v0.skip(popped),
                table_entries(self.requests).dom() =~= e0.dom() + v0.take(popped).to_set(),
                forall|k: usize|
                    e0.dom().contains(k) ==> #[trigger] table_entries(self.requests)[k] == e0[k],
                forall|i: int|
                    0 <= i < popped ==> (#[trigger] table_entries(self.requests)[v0[i]])@
                        == Conn::fresh(v0[i]),
            decreases v0.len() - popped,
        {
            let ghost before = table_entries(self.requests);
            if let Some(token) = insert(&mut self.requests) {
                proof {
                    let k = v0[popped];
                    let after = table_entries(self.requests);
                    assert(token_index(token) == k);
                    assert(old(self)@.is_free(k));
                    assert forall|j: usize| j != k && before.dom().contains(j) implies after[j]
                        == before[j] by {
                        assert(after.remove(k)[j] == before.remove(k)[j]);
                    }
                    assert(v0.skip(popped).drop_first() =~= v0.skip(popped + 1));
                    assert(v0.take(popped + 1) =~= v0.take(popped).push(k));
                    lemma_take_one_more(v0, popped);
                    assert forall|i: int| 0 <= i < popped + 1 implies (#[trigger] after[v0[i]])@
                        == Conn::fresh(v0[i]) by {
                        if i < popped {
                            assert(v0.take(popped)[i] == v0[i]);
                            assert(before.dom().contains(v0[i]));
                        }
                    }
                    assert forall|j: usize| e0.dom().contains(j) implies #[trigger] after[j]
                        == e0[j] by {
                        assert(!old(self)@.is_free(j));
                    }
                    popped = popped + 1;
                }
                if token.as_usize() == lowest {
                    found = true;
                } else {
                    extra.push(token);
                }
            }
        }
        proof {
            lemma_take_one_more(v0, at);
        }
        let ghost mut left: int = at;
        while extra.len() > 0
            invariant
                left == extra.len(),
                0 <= left <= at,
                forall|i: int| 0 <= i < extra.len() ==> token_index(#[trigger] extra[i]) == v0[i],
                table_vacant(self.requests) == v0.subrange(left, at) + v0.skip(at + 1),
                table_entries(self.requests).dom() =~= e0.dom().insert(lowest) + v0.take(
                    left,
                ).to_set(),
                forall|k: usize|
                    e0.dom().contains(k) ==> #[trigger] table_entries(self.requests)[k] == e0[k],
                (table_entries(self.requests)[lowest])@ == Conn::fresh(lowest),
            decreases extra.len(),
        {
            let ghost before = table_entries(self.requests);
            if let Some(token) = extra.pop() {
                proof {
                    let k = v0[left - 1];
                    assert(token_index(token) == k);
                    assert(v0.take(left)[left - 1] == k);
                    assert(v0.take(left).contains(k));
                }
                remove(&mut self.requests, token);
                proof {
                    let k = v0[left - 1];
                    assert(old(self)@.is_free(k));
                    assert(k != lowest);
                    assert(seq![k] + (v0.subrange(left, at) + v0.skip(at + 1)) =~= v0.subrange(
                        left - 1,
                        at,
                    ) + v0.skip(at + 1));
                    lemma_take_one_more(v0, left - 1);
                    assert(!v0.take(left - 1).contains(k));
                    assert(v0.take(left - 1).to_set() =~= v0.take(left).to_set().remove(k));
                    left = left - 1;
                }
            }
        }
        proof {
            let vacant = table_vacant(self.requests);
            assert(v0.take(0).to_set() =~= Set::<usize>::empty());
            assert(self@.live =~= old(self)@.accept().0.live);
            assert(vacant =~= v0.subrange(0, at) + v0.skip(at + 1));
            assert forall|i: int| 0 <= i < vacant.len() implies self@.is_free(
                #[trigger] vacant[i],
            ) by {
                if i < at {
                    assert(vacant[i] == v0[i]);
                } else {
                    assert(vacant[i] == v0[i + 1]);
                }
            }
            assert forall|i: int, j: int|
                0 <= i < vacant.len() && 0 <= j < vacant.len() && i != j implies vacant[i]
                != vacant[j] by {
                let a = if i < at {
                    i
                } else {
                    i + 1
                };
                let b = if j < at {
                    j
                } else {
                    j + 1
                };
                assert(vacant[i] == v0[a] && vacant[j] == v0[b]);
            }
            assert forall|k: usize| #[trigger] self@.is_free(k) implies vacant.contains(k) by {
                assert(old(self)@.is_free(k));
                let i = choose|i: int| 0 <= i < v0.len() && v0[i] == k;
                if i < at {
                    assert(vacant[i] == k);
                } else {
                    assert(vacant[i - 1] == k);
                }
            }
        }
        Some(Registration::new(token_at(lowest), State::Reading))
    }

    /// Destroys the connection that has `token` and hands it out, if one is
    /// live. Its token is free again.
    pub fn remove(&mut self, token: Token) -> (gone: Option<Request>)
        requires
            old(self).wf(),
        ensures
            final(self).wf(),
            final(self)@ == old(self)@.remove(token_index(token)),
            gone is Some <==> old(self)@.live.dom().contains(token_index(token)),
            gone matches Some(request) ==> request@ == old(self)@.live[token_index(token)],
            gone is Some ==> final(self)@.is_free(token_index(token)),
    {
        if !self.contains(token) {
            proof {
                assert(self@.live =~= old(self)@.remove(token_index(token)).live);
            }
            return None;
        }
        let gone = remove(&mut self.requests, token);
        proof {
            self.lemma_emptied(old(self), token_index(token));
        }
        gone
    }

    /// Takes note of an event that the poller reports for `token`. Where
    /// that means to handle a request, the time of the answer is read from
    /// the clock, so the result is stated for whatever time that was.
    pub fn ready(&mut self, token: Token) -> (todo: Dispatch)
        requires
            old(self).wf(),
        ensures
            final(self).wf(),
            exists|now: Seq<u8>|
                final(self)@ == #[trigger] old(self)@.ready(token_index(token), now)
                    && old(self).dispatched(token_index(token), now, todo),
    {
        let handling = match self.get(token) {
            Some(request) => match request.state() {
                State::Handling => true,
                _ => false,
            },
            None => false,
        };
        let now = if handling {
            timestamp()
        } else {
            Vec::new()
        };
        self.ready_at(token, now.as_slice())
    }

    /// True when `todo` is what an event for `token` at time `now` asks of
    /// the caller: to accept for the listening socket, the step of the
    /// connection for a live one, and nothing for any other token.
    pub open spec fn dispatched(&self, token: usize, now: Seq<u8>, todo: Dispatch) -> bool {
        match todo {
            Dispatch::Accept => token == SERVER,
            Dispatch::Connection(step) => token != SERVER && self@.live.dom().contains(token)
                && step.shows(self@.live[token].ready(now).1, token),
            Dispatch::Unknown => token != SERVER && !self@.live.dom().contains(token),
        }
    }

    /// Takes note of an event that the poller reports for `token` at time
    /// `now`.
    pub fn ready_at(&mut self, token: Token, now: &[u8]) -> (todo: Dispatch)
        requires
            old(self).wf(),
        ensures
            final(self).wf(),
            final(self)@ == old(self)@.ready(token_index(token), now@),
            old(self).dispatched(token_index(token), now@, todo),
    {
        let k = token.as_usize();
        if k == SERVER {
            return Dispatch::Accept;
        }
        if !self.contains(token) {
            return Dispatch::Unknown;
        }
        let ghost before = old(self)@.live[k].ready(now@);
        let request = get_mut(&mut self.requests, token);
        let step = request.ready_at(now);
        proof {
            self.lemma_stepped(old(self), k, before.0, before.1);
        }
        Dispatch::Connection(self.settle(token, step, Ghost(before.1)))
    }

    /// Takes note of what an attempt to read for the connection `token` came
    /// to. Nothing is done, and nothing returned, where no live connection
    /// has the token.
    pub fn read(&mut self, token: Token, outcome: ReadOutcome) -> (todo: Option<Step>)
        requires
            old(self).wf(),
        ensures
            final(self).wf(),
            final(self)@ == old(self)@.read(token_index(token), outcome),
            todo is Some <==> old(self)@.live.dom().contains(token_index(token)),
            todo matches Some(step) ==> step.shows(
                old(self)@.live[token_index(token)].read(outcome).1,
                token_index(token),
            ),
    {
        if !self.contains(token) {
            return None;
        }
        let ghost before = old(self)@.live[token_index(token)].read(outcome);
        let request = get_mut(&mut self.requests, token);
        let step = request.read(outcome);
        proof {
            self.lemma_stepped(old(self), token_index(token), before.0, before.1);
        }
        Some(self.settle(token, step, Ghost(before.1)))
    }

    /// Takes note of what an attempt to write for the connection `token` came
    /// to. Nothing is done, and nothing returned, where no live connection
    /// has the token.
    pub fn write(&mut self, token: Token, outcome: WriteOutcome) -> (todo: Option<Step>)
        requires
            old(self).wf(),
        ensures
            final(self).wf(),
            final(self)@ == old(self)@.write(token_index(token), outcome),
            todo is Some <==> old(self)@.live.dom().contains(token_index(token)),
            todo matches Some(step) ==> step.shows(
                old(self)@.live[token_index(token)].write(outcome).1,
                token_index(token),
            ),
    {
        if !self.contains(token) {
            return None;
        }
        let ghost before = old(self)@.live[token_index(token)].write(outcome);
        let request = get_mut(&mut self.requests, token);
        let step = request.write(outcome);
        proof {
            self.lemma_stepped(old(self), token_index(token), before.0, before.1);
        }
        Some(self.settle(token, step, Ghost(before.1)))
    }

    /// Ends a step of the connection `token`: one that closes is destroyed.
    fn settle(&mut self, token: Token, step: Step, Ghost(mv): Ghost<Move>) -> (todo: Step)
        requires
            old(self).wf(),
            old(self)@.live.dom().contains(token_index(token)),
            step.shows(mv, token_index(token)),
        ensures
            final(self).wf(),
            final(self)@ == (if mv is Close {
                old(self)@.remove(token_index(token))
            } else {
                old(self)@
            }),
            todo == step,
    {
        match step {
            Step::Close => {
                remove(&mut self.requests, token);
                proof {
                    self.lemma_emptied(old(self), token_index(token));
                }
                Step::Close
            },
            step => step,
        }
    }

    /// A server whose slab has emptied the slot of a live connection is the
    /// server without that connection.
    proof fn lemma_emptied(&self, before: &HttpServer, token: usize)
        requires
            before.wf(),
            before@.live.dom().contains(token),
            table_entries(self.requests) == table_entries(before.requests).remove(token),
            table_vacant(self.requests) == seq![token] + table_vacant(before.requests),
        ensures
            self.wf(),
            self@ == before@.remove(token),
            self@.is_free(token),
    {
        let v0 = table_vacant(before.requests);
        let vacant = table_vacant(self.requests);
        assert(self@.live =~= before@.remove(token).live);
        assert(vacant[0] == token);
        assert forall|i: int| 0 <= i < vacant.len() implies self@.is_free(
            #[trigger] vacant[i],
        ) by {
            if i > 0 {
                assert(vacant[i] == v0[i - 1]);
                assert(before@.is_free(v0[i - 1]));
            }
        }
        assert forall|i: int, j: int|
            0 <= i < vacant.len() && 0 <= j < vacant.len() && i != j implies vacant[i]
            != vacant[j] by {
            if i > 0 {
                assert(vacant[i] == v0[i - 1]);
                assert(before@.is_free(v0[i - 1]));
            }
            if j > 0 {
                assert(vacant[j] == v0[j - 1]);
                assert(before@.is_free(v0[j - 1]));
            }
        }
        assert forall|k: usize| #[trigger] self@.is_free(k) implies vacant.contains(k) by {
            if k != token {
                assert(before@.is_free(k));
                let i = choose|i: int| 0 <= i < v0.len() && v0[i] == k;
                assert(vacant[i + 1] == k);
            }
        }
    }

    /// A connection that took a step in its slot leaves the table as the step
    /// says, before the slot of one that closes is emptied.
    proof fn lemma_stepped(&self, before: &HttpServer, token: usize, conn: Conn, mv: Move)
        requires
            before.wf(),
            before@.live.dom().contains(token),
            conn.token == token,
            table_vacant(self.requests) == table_vacant(before.requests),
            table_entries(self.requests).dom() =~= table_entries(before.requests).dom(),
            table_entries(self.requests)[token]@ == conn,
            forall|k: usize|
                k != token && before@.live.dom().contains(k) ==> #[trigger] table_entries(
                    self.requests,
                )[k] == table_entries(before.requests)[k],
        ensures
            self.wf(),
            self@.live.dom().contains(token),
            self@ == (Slots { live: before@.live.insert(token, conn) }),
            (if mv is Close {
                self@.remove(token)
            } else {
                self@
            }) == before@.settle(token, conn, mv),
    {
        let mid = Slots { live: before@.live.insert(token, conn) };
        assert(self@.live =~= mid.live);
        assert(mid.live.remove(token) =~= before@.live.remove(token));
        let vacant = table_vacant(self.requests);
        assert forall|i: int| 0 <= i < vacant.len() implies self@.is_free(
            #[trigger] vacant[i],
        ) by {
            assert(before@.is_free(vacant[i]));
        }
        assert forall|k: usize| #[trigger] self@.is_free(k) implies vacant.contains(k) by {
            assert(before@.is_free(k));
        }
    }
}

} // verus!
