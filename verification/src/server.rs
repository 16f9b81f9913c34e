//! The registry of connections that the reactor drives.
//!
//! The reactor owns the sockets and the readiness loop. For every readiness
//! event it asks [`Server::route`] whom the event is for, does the reading or
//! writing, and hands the outcome to the connection through the server. What
//! happens to one connection leaves every other one as it was:
//! [`lemma_others_untouched`].

use crate::connection::{
    spec_frames_read, spec_frames_step, spec_handshake_step, spec_new_connection, spec_read_plan,
    spec_required_interest, spec_step, spec_write_plan, spec_write_step, CloseReason, Connection,
    ConnectionView, Event, FrameRead, FrameReadView, FramesRead, HandshakeRead, InterestSet,
    ReadPlan, StateView, Step, WriteOutcome, WritePlan, WritePlanView,
};
use crate::frame::{Frame, FrameView};
use crate::stream::{spec_drain, spec_frames};
use std::collections::HashMap;
use vstd::prelude::*;

verus! {

/// The token of the listening socket. No connection has it.
pub const SERVER_TOKEN: usize = 0;

/// Whom a readiness event is for.
#[derive(Clone, Copy, Debug, PartialEq, Eq, Structural)]
pub enum Dispatch {
    /// The listening socket is readable: accept what is pending.
    Accept,
    /// The event is for a connection: let it read if `read`, then write if
    /// `write`.
    Client { read: bool, write: bool },
    /// The event calls for nothing.
    Nothing,
    /// No connection has this token.
    Unknown,
}

/// The connections of the server, each under its token.
pub struct Server {
    clients: HashMap<usize, Connection>,
    token_counter: usize,
}

impl View for Server {
    type V = Map<usize, ConnectionView>;

    closed spec fn view(&self) -> Map<usize, ConnectionView> {
        Map::new(|token: usize| self.clients@.contains_key(token), |token: usize| self.clients@[token]@)
    }
}

/// The registry after `event` on the connection `token` was answered with
/// `step`: the connection is gone where the step closes it, and has taken the
/// event otherwise. An unknown token changes nothing.
pub open spec fn spec_apply(
    clients: Map<usize, ConnectionView>,
    token: usize,
    event: Event,
    step: Step,
) -> Map<usize, ConnectionView> {
    if !clients.contains_key(token) {
        clients
    } else if step is Close {
        clients.remove(token)
    } else {
        clients.insert(token, spec_step(clients[token], event))
    }
}

/// Whom a readiness event is for.
pub open spec fn spec_route(
    clients: Map<usize, ConnectionView>,
    token: usize,
    readable: bool,
    writable: bool,
) -> Dispatch {
    if token == SERVER_TOKEN {
        if readable {
            Dispatch::Accept
        } else {
            Dispatch::Nothing
        }
    } else if clients.contains_key(token) {
        Dispatch::Client { read: readable, write: writable }
    } else {
        Dispatch::Unknown
    }
}

impl Server {
    /// The token given out last.
    pub closed spec fn spec_token_counter(&self) -> nat {
        self.token_counter as nat
    }

    /// The invariant of the type: every connection is well formed, and its
    /// token is not the listening socket's and not above the counter.
    pub closed spec fn wf(&self) -> bool {
        &&& self.token_counter >= 1
        &&& forall|token: usize| #[trigger]
            self.clients@.contains_key(token) ==> {
                &&& self.clients@[token].wf()
                &&& token != SERVER_TOKEN
                &&& token <= self.token_counter
            }
    }

    /// In a well-formed server every connection wants what its state needs,
    /// and none has the listening socket's token.
    pub proof fn lemma_wf(&self, token: usize)
        requires
            self.wf(),
            self@.contains_key(token),
        ensures
            token != SERVER_TOKEN,
            token <= self.spec_token_counter(),
            self@[token].interest == spec_required_interest(self@[token].state),
    {
        self.clients@[token].lemma_interest_matches_state();
    }

    /// A server without connections.
    pub fn new() -> (server: Server)
        ensures
            server.wf(),
            server@ == Map::<usize, ConnectionView>::empty(),
            server.spec_token_counter() == 1,
    {
        let server = Server { clients: HashMap::new(), token_counter: 1 };
        assert(server@ =~= Map::<usize, ConnectionView>::empty());
        server
    }

    /// How many connections there are.
    pub fn len(&self) -> (n: usize)
        ensures
            n == self@.dom().len(),
    {
        assert(self@.dom() =~= self.clients@.dom());
        self.clients.len()
    }

    /// Whether a connection has this token.
    pub fn contains(&self, token: usize) -> (known: bool)
        ensures
            known == self@.contains_key(token),
    {
        self.clients.contains_key(&token)
    }

    /// The connection with this token.
    pub fn connection(&self, token: usize) -> (found: Option<&Connection>)
        requires
            self.wf(),
        ensures
            match found {
                Some(c) => self@.contains_key(token) && c@ == self@[token] && c.wf(),
                None => !self@.contains_key(token),
            },
    {
        self.clients.get(&token)
    }

    /// The events to register the socket of this connection for, after any
    /// event that it was handed.
    pub fn interest(&self, token: usize) -> (set: Option<InterestSet>)
        requires
            self.wf(),
        ensures
            match set {
                Some(set) => self@.contains_key(token) && set == self@[token].interest && set
                    == spec_required_interest(self@[token].state),
                None => !self@.contains_key(token),
            },
    {
        match self.clients.get(&token) {
            Some(c) => Some(c.interest()),
            None => None,
        }
    }

    /// Whom a readiness event is for.
    pub fn route(&self, token: usize, readable: bool, writable: bool) -> (dispatch: Dispatch)
        ensures
            dispatch == spec_route(self@, token, readable, writable),
    {
        if token == SERVER_TOKEN {
            if readable {
                Dispatch::Accept
            } else {
                Dispatch::Nothing
            }
        } else if self.clients.contains_key(&token) {
            Dispatch::Client { read: readable, write: writable }
        } else {
            Dispatch::Unknown
        }
    }

    /// A socket was accepted: a new connection under a token that no
    /// connection had before. The socket is to be registered under that token
    /// for reading. `None` says that the tokens have run out, and that the
    /// socket is to be dropped.
    pub fn accept(&mut self) -> (token: Option<usize>)
        requires
            old(self).wf(),
        ensures
            final(self).wf(),
            match token {
                Some(token) => {
                    &&& token == old(self).spec_token_counter() + 1
                    &&& final(self).spec_token_counter() == token
                    &&& token != SERVER_TOKEN
                    &&& !old(self)@.contains_key(token)
                    &&& final(self)@ == old(self)@.insert(token, spec_new_connection())
                },
                None => {
                    &&& old(self).spec_token_counter() == usize::MAX
                    &&& final(self)@ == old(self)@
                    &&& final(self).spec_token_counter() == old(self).spec_token_counter()
                },
            },
    {
        if self.token_counter == usize::MAX {
            return None;
        }
        let token: usize = self.token_counter + 1;
        self.token_counter = token;
        self.clients.insert(token, Connection::new());
        assert(self@ =~= old(self)@.insert(token, spec_new_connection()));
        Some(token)
    }

    /// Forgets a connection: its socket was closed.
    pub fn close(&mut self, token: usize) -> (known: bool)
        requires
            old(self).wf(),
        ensures
            final(self).wf(),
            known == old(self)@.contains_key(token),
            final(self)@ == old(self)@.remove(token),
            final(self).spec_token_counter() == old(self).spec_token_counter(),
    {
        let gone = self.clients.remove(&token);
        assert(self@ =~= old(self)@.remove(token));
        gone.is_some()
    }

    /// Puts back the connection that an event was handed to, unless the
    /// answer closes it.
    fn settle(&mut self, token: usize, connection: Connection, step: Step)
        requires
            old(self).token_counter >= 1,
            forall|other: usize| #[trigger]
                old(self).clients@.contains_key(other) ==> {
                    &&& old(self).clients@[other].wf()
                    &&& other != SERVER_TOKEN
                    &&& other <= old(self).token_counter
                },
            !old(self).clients@.contains_key(token),
            token != SERVER_TOKEN,
            token <= old(self).token_counter,
            connection.wf(),
        ensures
            final(self).wf(),
            final(self).token_counter == old(self).token_counter,
            final(self).clients@ == if step is Close {
                old(self).clients@
            } else {
                old(self).clients@.insert(token, connection)
            },
    {
        match step {
            Step::Close(_) => {},
            _ => {
                self.clients.insert(token, connection);
            },
        }
    }

    /// The tokenizer reports a header field name on this connection.
    pub fn on_header_field(&mut self, token: usize, name: &[u8]) -> (go_on: bool)
        requires
            old(self).wf(),
        ensures
            final(self).wf(),
            final(self)@ == spec_apply(old(self)@, token, Event::HeaderField(name@), Step::Wait),
            go_on == (old(self)@.contains_key(token) && old(self)@[token].state
                is AwaitingHandshake),
            final(self).spec_token_counter() == old(self).spec_token_counter(),
    {
        match self.clients.remove(&token) {
            Some(mut connection) => {
                let go_on = connection.on_header_field(name);
                self.settle(token, connection, Step::Wait);
                assert(self@ =~= spec_apply(
                    old(self)@,
                    token,
                    Event::HeaderField(name@),
                    Step::Wait,
                ));
                go_on
            },
            None => {
                assert(self@ =~= old(self)@);
                false
            },
        }
    }

    /// The tokenizer reports a header value on this connection.
    pub fn on_header_value(&mut self, token: usize, value: &[u8]) -> (go_on: bool)
        requires
            old(self).wf(),
        ensures
            final(self).wf(),
            final(self)@ == spec_apply(old(self)@, token, Event::HeaderValue(value@), Step::Wait),
            go_on == (old(self)@.contains_key(token) && (old(self)@[token].state matches StateView::AwaitingHandshake(
                parser,
            ) && parser.current_field is Some)),
            final(self).spec_token_counter() == old(self).spec_token_counter(),
    {
        match self.clients.remove(&token) {
            Some(mut connection) => {
                let go_on = connection.on_header_value(value);
                self.settle(token, connection, Step::Wait);
                assert(self@ =~= spec_apply(
                    old(self)@,
                    token,
                    Event::HeaderValue(value@),
                    Step::Wait,
                ));
                go_on
            },
            None => {
                assert(self@ =~= old(self)@);
                false
            },
        }
    }

    /// The tokenizer reports the end of the headers on this connection.
    pub fn on_headers_complete(&mut self, token: usize) -> (go_on: bool)
        requires
            old(self).wf(),
        ensures
            final(self).wf(),
            final(self)@ == spec_apply(old(self)@, token, Event::HeadersComplete, Step::Wait),
            !go_on,
            final(self).spec_token_counter() == old(self).spec_token_counter(),
    {
        match self.clients.remove(&token) {
            Some(mut connection) => {
                let go_on = connection.on_headers_complete();
                self.settle(token, connection, Step::Wait);
                assert(self@ =~= spec_apply(old(self)@, token, Event::HeadersComplete, Step::Wait));
                go_on
            },
            None => {
                assert(self@ =~= old(self)@);
                false
            },
        }
    }

    /// A read during the handshake of this connection has ended. A failed
    /// read closes the connection; for an unknown token the answer is to
    /// wait.
    pub fn read_handshake(&mut self, token: usize, read: HandshakeRead) -> (step: Step)
        requires
            old(self).wf(),
        ensures
            final(self).wf(),
            step == if old(self)@.contains_key(token) {
                spec_handshake_step(old(self)@[token], read)
            } else {
                Step::Wait
            },
            final(self)@ == spec_apply(old(self)@, token, Event::HandshakeRead(read), step),
            final(self).spec_token_counter() == old(self).spec_token_counter(),
    {
        match self.clients.remove(&token) {
            Some(mut connection) => {
                let step = connection.read_handshake(read);
                self.settle(token, connection, step);
                assert(self@ =~= spec_apply(old(self)@, token, Event::HandshakeRead(read), step));
                step
            },
            None => {
                assert(self@ =~= old(self)@);
                Step::Wait
            },
        }
    }

    /// The socket of this connection can be read: what to read for.
    pub fn on_readable(&self, token: usize) -> (plan: ReadPlan)
        ensures
            plan == if self@.contains_key(token) {
                spec_read_plan(self@[token])
            } else {
                ReadPlan::Nothing
            },
    {
        match self.clients.get(&token) {
            Some(connection) => connection.on_readable(),
            None => ReadPlan::Nothing,
        }
    }

    /// A read on this connection has ended. A failed read and a malformed
    /// frame header close it, and it alone; the frames before the malformed
    /// one still come out.
    pub fn read_frames(&mut self, token: usize, read: FrameRead<'_>) -> (out: FramesRead)
        requires
            old(self).wf(),
        ensures
            final(self).wf(),
            out.step == if old(self)@.contains_key(token) {
                spec_frames_step(old(self)@[token], read@)
            } else {
                Step::Wait
            },
            spec_frames(out.frames@) == if old(self)@.contains_key(token) {
                spec_frames_read(old(self)@[token], read@)
            } else {
                Seq::<FrameView>::empty()
            },
            final(self)@ == spec_apply(old(self)@, token, Event::FrameRead(read@), out.step),
            final(self).spec_token_counter() == old(self).spec_token_counter(),
    {
        match self.clients.remove(&token) {
            Some(mut connection) => {
                let out = connection.read_frames(read);
                self.settle(token, connection, out.step);
                assert(self@ =~= spec_apply(
                    old(self)@,
                    token,
                    Event::FrameRead(read@),
                    out.step,
                ));
                out
            },
            None => {
                assert(self@ =~= old(self)@);
                let frames: Vec<Frame> = Vec::new();
                assert(spec_frames(frames@) =~= Seq::<FrameView>::empty());
                FramesRead { frames, step: Step::Wait }
            },
        }
    }

    /// The socket of this connection can be written. Where the response is
    /// pending and the request had no key, the connection is closed.
    pub fn on_writable(&mut self, token: usize) -> (plan: WritePlan)
        requires
            old(self).wf(),
        ensures
            final(self).wf(),
            plan@ == if old(self)@.contains_key(token) {
                spec_write_plan(old(self)@[token])
            } else {
                WritePlanView::Nothing
            },
            final(self)@ == if plan@ is Close {
                old(self)@.remove(token)
            } else {
                old(self)@
            },
            final(self).spec_token_counter() == old(self).spec_token_counter(),
    {
        let plan = match self.clients.get(&token) {
            Some(connection) => connection.on_writable(),
            None => WritePlan::Nothing,
        };
        match &plan {
            WritePlan::Close(_) => {
                self.clients.remove(&token);
                assert(self@ =~= old(self)@.remove(token));
            },
            _ => {},
        }
        plan
    }

    /// A write of the response of this connection has ended. A failed write
    /// closes the connection.
    pub fn write_done(&mut self, token: usize, outcome: WriteOutcome) -> (step: Step)
        requires
            old(self).wf(),
        ensures
            final(self).wf(),
            step == if old(self)@.contains_key(token) {
                spec_write_step(outcome)
            } else {
                Step::Wait
            },
            final(self)@ == spec_apply(old(self)@, token, Event::ResponseWrite(outcome), step),
            final(self).spec_token_counter() == old(self).spec_token_counter(),
    {
        match self.clients.remove(&token) {
            Some(mut connection) => {
                let step = connection.write_done(outcome);
                self.settle(token, connection, step);
                assert(self@ =~= spec_apply(old(self)@, token, Event::ResponseWrite(outcome), step));
                step
            },
            None => {
                assert(self@ =~= old(self)@);
                Step::Wait
            },
        }
    }
}

/// What happens to one connection, its closing too, leaves every other
/// connection in the registry, and as it was.
pub proof fn lemma_others_untouched(
    clients: Map<usize, ConnectionView>,
    token: usize,
    event: Event,
    step: Step,
    other: usize,
)
    requires
        other != token,
    ensures
        spec_apply(clients, token, event, step).contains_key(other) == clients.contains_key(other),
        clients.contains_key(other) ==> spec_apply(clients, token, event, step)[other]
            == clients[other],
{
}

/// A malformed frame closes the established connection that reads it, and
/// leaves every other connection in the registry, and as it was.
pub proof fn lemma_malformed_frame_isolated(
    clients: Map<usize, ConnectionView>,
    token: usize,
    bytes: Seq<u8>,
    other: usize,
)
    requires
        clients.contains_key(token),
        clients[token].state is Established,
        spec_drain(clients[token].pending + bytes).error is Some,
        other != token,
    ensures
        ({
            let read = FrameReadView::Data(bytes);
            let step = spec_frames_step(clients[token], read);
            let after = spec_apply(clients, token, Event::FrameRead(read), step);
            &&& step == Step::Close(
                CloseReason::ProtocolError(
                    spec_drain(clients[token].pending + bytes).error->Some_0,
                ),
            )
            &&& !after.contains_key(token)
            &&& after.contains_key(other) == clients.contains_key(other)
            &&& clients.contains_key(other) ==> after[other] == clients[other]
        }),
{
}

} // verus!
