//! One connection: its protocol state, the readiness events it wants, and what
//! it does with each thing the socket layer reports.
//!
//! The connection owns no socket. Whoever owns it reads and writes, hands the
//! outcome in, and is told what to do next: [`Step`]. The state machine is
//! given once, as [`spec_step`]; every method states which step it takes.

use crate::frame::{Frame, FrameView, ProtocolError};
use crate::handshake::{accept_response, spec_accept_response, HandshakeHeaders};
use crate::stream::{spec_drain, spec_frames, FrameAssembler};
use vstd::prelude::*;
use vstd::slice::slice_to_vec;

verus! {

/// A set of readiness events: which of them a connection wants to hear of.
#[derive(Clone, Copy, Debug, PartialEq, Eq, Structural)]
pub struct InterestSet {
    pub readable: bool,
    pub writable: bool,
}

impl InterestSet {
    /// The union of two sets.
    pub open spec fn spec_with(self, other: InterestSet) -> InterestSet {
        InterestSet {
            readable: self.readable || other.readable,
            writable: self.writable || other.writable,
        }
    }

    /// What is in `self` and not in `other`.
    pub open spec fn spec_without(self, other: InterestSet) -> InterestSet {
        InterestSet {
            readable: self.readable && !other.readable,
            writable: self.writable && !other.writable,
        }
    }

    pub fn none() -> (set: InterestSet)
        ensures
            !set.readable,
            !set.writable,
    {
        InterestSet { readable: false, writable: false }
    }

    pub fn readable() -> (set: InterestSet)
        ensures
            set.readable,
            !set.writable,
    {
        InterestSet { readable: true, writable: false }
    }

    pub fn writable() -> (set: InterestSet)
        ensures
            !set.readable,
            set.writable,
    {
        InterestSet { readable: false, writable: true }
    }

    pub fn is_readable(&self) -> (yes: bool)
        ensures
            yes == self.readable,
    {
        self.readable
    }

    pub fn is_writable(&self) -> (yes: bool)
        ensures
            yes == self.writable,
    {
        self.writable
    }

    /// Whether every event of `other` is in `self`.
    pub fn contains(&self, other: InterestSet) -> (yes: bool)
        ensures
            yes == (self.spec_with(other) == *self),
    {
        (self.readable || !other.readable) && (self.writable || !other.writable)
    }

    pub fn insert(&mut self, other: InterestSet)
        ensures
            *final(self) == old(self).spec_with(other),
    {
        self.readable = self.readable || other.readable;
        self.writable = self.writable || other.writable;
    }

    pub fn remove(&mut self, other: InterestSet)
        ensures
            *final(self) == old(self).spec_without(other),
    {
        self.readable = self.readable && !other.readable;
        self.writable = self.writable && !other.writable;
    }
}

/// Where the header tokenizer stands in the request: the field name it
/// reported last, and whether it has reported the end of the headers.
#[derive(Debug)]
pub struct HeaderParser {
    pub current_field: Option<Vec<u8>>,
    pub headers_complete: bool,
}

/// A [`HeaderParser`] as a mathematical value.
pub struct HeaderParserView {
    pub current_field: Option<Seq<u8>>,
    pub headers_complete: bool,
}

impl View for HeaderParser {
    type V = HeaderParserView;

    open spec fn view(&self) -> HeaderParserView {
        HeaderParserView {
            current_field: match self.current_field {
                Some(name) => Some(name@),
                None => None,
            },
            headers_complete: self.headers_complete,
        }
    }
}

/// The protocol state of a connection. A connection moves down this list and
/// never up.
#[derive(Debug)]
pub enum ConnectionState {
    /// The upgrade request is being read.
    AwaitingHandshake(HeaderParser),
    /// The request asked for an upgrade; the response is to be written.
    HandshakeResponsePending,
    /// The handshake is done; frames are read.
    Established,
}

/// A [`ConnectionState`] as a mathematical value.
pub enum StateView {
    AwaitingHandshake(HeaderParserView),
    HandshakeResponsePending,
    Established,
}

impl View for ConnectionState {
    type V = StateView;

    open spec fn view(&self) -> StateView {
        match self {
            ConnectionState::AwaitingHandshake(parser) => StateView::AwaitingHandshake(parser@),
            ConnectionState::HandshakeResponsePending => StateView::HandshakeResponsePending,
            ConnectionState::Established => StateView::Established,
        }
    }
}

/// How far along a state is.
pub open spec fn spec_rank(state: StateView) -> nat {
    match state {
        StateView::AwaitingHandshake(_) => 0,
        StateView::HandshakeResponsePending => 1,
        StateView::Established => 2,
    }
}

/// The readiness events that a connection in `state` needs: to read while it
/// awaits the handshake or is established, to write while the response is
/// pending.
pub open spec fn spec_required_interest(state: StateView) -> InterestSet {
    match state {
        StateView::AwaitingHandshake(_) => InterestSet { readable: true, writable: false },
        StateView::HandshakeResponsePending => InterestSet { readable: false, writable: true },
        StateView::Established => InterestSet { readable: true, writable: false },
    }
}

/// Why a connection is torn down.
#[derive(Clone, Copy, Debug, PartialEq, Eq, Structural)]
pub enum CloseReason {
    /// A read or a write on the socket failed.
    IoError,
    /// A frame header was malformed.
    ProtocolError(ProtocolError),
    /// The upgrade request had no `Sec-WebSocket-Key`.
    MissingKeyError,
}

/// What the owner of the socket does next.
#[derive(Clone, Copy, Debug, PartialEq, Eq, Structural)]
pub enum Step {
    /// Read again at once.
    Again,
    /// Stop for this event, register the connection's interest anew, and wait
    /// for the next readiness event.
    Wait,
    /// Close the socket and forget the connection.
    Close(CloseReason),
}

/// What one read during the handshake came to.
#[derive(Clone, Copy, Debug, PartialEq, Eq, Structural)]
pub enum HandshakeRead {
    /// The read failed.
    Failed,
    /// The socket has no more bytes for now.
    WouldBlock,
    /// Bytes came and the tokenizer has seen them; `upgrade` is its answer to
    /// "is this an upgrade request" after them.
    Fed { upgrade: bool },
}

/// What one read on an established connection came to.
#[derive(Clone, Copy, Debug)]
pub enum FrameRead<'a> {
    /// The read failed.
    Failed,
    /// The socket has no more bytes for now.
    WouldBlock,
    /// These bytes came.
    Data(&'a [u8]),
}

/// A [`FrameRead`] as a mathematical value.
pub enum FrameReadView {
    Failed,
    WouldBlock,
    Data(Seq<u8>),
}

impl<'a> View for FrameRead<'a> {
    type V = FrameReadView;

    open spec fn view(&self) -> FrameReadView {
        match self {
            FrameRead::Failed => FrameReadView::Failed,
            FrameRead::WouldBlock => FrameReadView::WouldBlock,
            FrameRead::Data(bytes) => FrameReadView::Data(bytes@),
        }
    }
}

/// What a readable socket is to be read for.
#[derive(Clone, Copy, Debug, PartialEq, Eq, Structural)]
pub enum ReadPlan {
    /// Read the upgrade request: hand the bytes to the tokenizer and report
    /// with a [`HandshakeRead`].
    Handshake,
    /// Read frames: report with a [`FrameRead`].
    Frames,
    /// Nothing is to be read in this state.
    Nothing,
}

/// What one write of the handshake response came to.
#[derive(Clone, Copy, Debug, PartialEq, Eq, Structural)]
pub enum WriteOutcome {
    /// The write failed.
    Failed,
    /// The socket took nothing for now.
    WouldBlock,
    /// The response went out in full.
    Written,
}

/// What a writable socket is to be used for.
#[derive(Debug)]
pub enum WritePlan {
    /// Nothing is to be written in this state.
    Nothing,
    /// Write this response, then report how the write went.
    Send(String),
    /// No response can be made.
    Close(CloseReason),
}

/// A [`WritePlan`] as a mathematical value.
pub enum WritePlanView {
    Nothing,
    Send(Seq<char>),
    Close(CloseReason),
}

impl View for WritePlan {
    type V = WritePlanView;

    open spec fn view(&self) -> WritePlanView {
        match self {
            WritePlan::Nothing => WritePlanView::Nothing,
            WritePlan::Send(line) => WritePlanView::Send(line@),
            WritePlan::Close(reason) => WritePlanView::Close(*reason),
        }
    }
}

/// What a read on an established connection brought: the frames that became
/// whole, and what to do next.
#[derive(Debug)]
pub struct FramesRead {
    pub frames: Vec<Frame>,
    pub step: Step,
}

/// A connection as a mathematical value.
pub struct ConnectionView {
    pub state: StateView,
    pub headers: Map<Seq<u8>, Seq<u8>>,
    pub interest: InterestSet,
    /// The bytes read on the established connection that no whole frame has
    /// claimed yet.
    pub pending: Seq<u8>,
}

/// What can happen to a connection.
pub enum Event {
    /// The tokenizer reports a header field name.
    HeaderField(Seq<u8>),
    /// The tokenizer reports a header value.
    HeaderValue(Seq<u8>),
    /// The tokenizer reports the end of the headers.
    HeadersComplete,
    /// A read during the handshake has ended.
    HandshakeRead(HandshakeRead),
    /// A read on the established connection has ended.
    FrameRead(FrameReadView),
    /// A write of the handshake response has ended.
    ResponseWrite(WriteOutcome),
}

/// A connection that was just accepted.
pub open spec fn spec_new_connection() -> ConnectionView {
    ConnectionView {
        state: StateView::AwaitingHandshake(
            HeaderParserView { current_field: None, headers_complete: false },
        ),
        headers: Map::empty(),
        interest: InterestSet { readable: true, writable: false },
        pending: Seq::empty(),
    }
}

/// Whether a read during the handshake ends it: the headers are complete and
/// the tokenizer says that the request asks for an upgrade.
pub open spec fn spec_upgrade_detected(c: ConnectionView, read: HandshakeRead) -> bool {
    &&& c.state matches StateView::AwaitingHandshake(parser)
    &&& parser.headers_complete
    &&& read matches HandshakeRead::Fed { upgrade }
    &&& upgrade
}

/// The state machine: the connection after `event`. An event that the state
/// has no use for leaves the connection as it is.
pub open spec fn spec_step(c: ConnectionView, event: Event) -> ConnectionView {
    match (c.state, event) {
        (StateView::AwaitingHandshake(parser), Event::HeaderField(name)) => ConnectionView {
            state: StateView::AwaitingHandshake(
                HeaderParserView { current_field: Some(name), ..parser },
            ),
            ..c
        },
        (StateView::AwaitingHandshake(parser), Event::HeaderValue(value)) => {
            match parser.current_field {
                Some(name) => ConnectionView { headers: c.headers.insert(name, value), ..c },
                None => c,
            }
        },
        (StateView::AwaitingHandshake(parser), Event::HeadersComplete) => ConnectionView {
            state: StateView::AwaitingHandshake(
                HeaderParserView { headers_complete: true, ..parser },
            ),
            ..c
        },
        (StateView::AwaitingHandshake(_), Event::HandshakeRead(read)) => {
            if spec_upgrade_detected(c, read) {
                ConnectionView {
                    state: StateView::HandshakeResponsePending,
                    interest: c.interest.spec_without(
                        InterestSet { readable: true, writable: false },
                    ).spec_with(InterestSet { readable: false, writable: true }),
                    ..c
                }
            } else {
                c
            }
        },
        (StateView::HandshakeResponsePending, Event::ResponseWrite(WriteOutcome::Written)) => {
            ConnectionView {
                state: StateView::Established,
                headers: Map::empty(),
                interest: c.interest.spec_without(
                    InterestSet { readable: false, writable: true },
                ).spec_with(InterestSet { readable: true, writable: false }),
                ..c
            }
        },
        (StateView::Established, Event::FrameRead(FrameReadView::Data(bytes))) => ConnectionView {
            pending: spec_drain(c.pending + bytes).rest,
            ..c
        },
        _ => c,
    }
}

/// What the owner of the socket does after a read during the handshake.
pub open spec fn spec_handshake_step(c: ConnectionView, read: HandshakeRead) -> Step {
    match read {
        HandshakeRead::Failed => Step::Close(CloseReason::IoError),
        HandshakeRead::WouldBlock => Step::Wait,
        HandshakeRead::Fed { upgrade } => {
            if c.state is AwaitingHandshake && !spec_upgrade_detected(c, read) {
                Step::Again
            } else {
                Step::Wait
            }
        },
    }
}

/// What a readable socket is to be read for.
pub open spec fn spec_read_plan(c: ConnectionView) -> ReadPlan {
    match c.state {
        StateView::AwaitingHandshake(_) => ReadPlan::Handshake,
        StateView::HandshakeResponsePending => ReadPlan::Nothing,
        StateView::Established => ReadPlan::Frames,
    }
}

/// What the owner of the socket does after a read on the connection when it
/// is established: it reads on while bytes come, and closes on a failed read
/// and on a malformed frame header.
pub open spec fn spec_frames_step(c: ConnectionView, read: FrameReadView) -> Step {
    match read {
        FrameReadView::Failed => Step::Close(CloseReason::IoError),
        FrameReadView::WouldBlock => Step::Wait,
        FrameReadView::Data(bytes) => {
            if c.state is Established {
                match spec_drain(c.pending + bytes).error {
                    Some(e) => Step::Close(CloseReason::ProtocolError(e)),
                    None => Step::Again,
                }
            } else {
                Step::Wait
            }
        },
    }
}

/// The frames that a read completes.
pub open spec fn spec_frames_read(c: ConnectionView, read: FrameReadView) -> Seq<FrameView> {
    match read {
        FrameReadView::Data(bytes) => {
            if c.state is Established {
                spec_drain(c.pending + bytes).frames
            } else {
                Seq::empty()
            }
        },
        _ => Seq::empty(),
    }
}

/// What a writable socket is to be used for.
pub open spec fn spec_write_plan(c: ConnectionView) -> WritePlanView {
    if c.state is HandshakeResponsePending {
        match spec_accept_response(c.headers) {
            Ok(line) => WritePlanView::Send(line),
            Err(_) => WritePlanView::Close(CloseReason::MissingKeyError),
        }
    } else {
        WritePlanView::Nothing
    }
}

/// What the owner of the socket does after a write of the response.
pub open spec fn spec_write_step(outcome: WriteOutcome) -> Step {
    match outcome {
        WriteOutcome::Failed => Step::Close(CloseReason::IoError),
        WriteOutcome::WouldBlock => Step::Wait,
        WriteOutcome::Written => Step::Wait,
    }
}

/// One connection of the server.
#[derive(Debug)]
pub struct Connection {
    state: ConnectionState,
    headers: HandshakeHeaders,
    interest: InterestSet,
    inbound: FrameAssembler,
}

impl View for Connection {
    type V = ConnectionView;

    closed spec fn view(&self) -> ConnectionView {
        ConnectionView {
            state: self.state@,
            headers: self.headers@,
            interest: self.interest,
            pending: self.inbound@,
        }
    }
}

impl Connection {
    /// The invariant of the type: the header map is well formed, and the
    /// interest is the one that the state needs.
    pub closed spec fn wf(&self) -> bool {
        &&& self.headers.wf()
        &&& self.interest == spec_required_interest(self.state@)
    }

    /// A well-formed connection wants exactly the events that its state needs.
    pub proof fn lemma_interest_matches_state(&self)
        requires
            self.wf(),
        ensures
            self@.interest == spec_required_interest(self@.state),
    {
    }

    /// A connection that was just accepted: it awaits the handshake and wants
    /// to read.
    pub fn new() -> (c: Connection)
        ensures
            c.wf(),
            c@ == spec_new_connection(),
    {
        Connection {
            state: ConnectionState::AwaitingHandshake(
                HeaderParser { current_field: None, headers_complete: false },
            ),
            headers: HandshakeHeaders::new(),
            interest: InterestSet::readable(),
            inbound: FrameAssembler::new(),
        }
    }

    /// The events to register the socket for.
    pub fn interest(&self) -> (set: InterestSet)
        requires
            self.wf(),
        ensures
            set == self@.interest,
            set == spec_required_interest(self@.state),
    {
        self.interest
    }

    pub fn state(&self) -> (state: &ConnectionState)
        ensures
            state@ == self@.state,
    {
        &self.state
    }

    pub fn is_awaiting_handshake(&self) -> (yes: bool)
        ensures
            yes == (self@.state is AwaitingHandshake),
    {
        match self.state {
            ConnectionState::AwaitingHandshake(_) => true,
            _ => false,
        }
    }

    pub fn is_response_pending(&self) -> (yes: bool)
        ensures
            yes == (self@.state is HandshakeResponsePending),
    {
        match self.state {
            ConnectionState::HandshakeResponsePending => true,
            _ => false,
        }
    }

    pub fn is_established(&self) -> (yes: bool)
        ensures
            yes == (self@.state is Established),
    {
        match self.state {
            ConnectionState::Established => true,
            _ => false,
        }
    }

    /// The headers of the upgrade request, as far as they have been read.
    pub fn headers(&self) -> (headers: &HandshakeHeaders)
        requires
            self.wf(),
        ensures
            headers.wf(),
            headers@ == self@.headers,
    {
        &self.headers
    }

    /// The tokenizer reports a header field name: it is kept for the value
    /// that follows. The answer tells the tokenizer whether to go on.
    pub fn on_header_field(&mut self, name: &[u8]) -> (go_on: bool)
        requires
            old(self).wf(),
        ensures
            final(self).wf(),
            final(self)@ == spec_step(old(self)@, Event::HeaderField(name@)),
            go_on == (old(self)@.state is AwaitingHandshake),
    {
        let complete = match &self.state {
            ConnectionState::AwaitingHandshake(parser) => Some(parser.headers_complete),
            _ => None,
        };
        match complete {
            Some(headers_complete) => {
                self.state = ConnectionState::AwaitingHandshake(
                    HeaderParser { current_field: Some(slice_to_vec(name)), headers_complete },
                );
                true
            },
            None => false,
        }
    }

    /// The tokenizer reports a header value: the field name reported last
    /// gets it, in place of any value it had. A value that no field name
    /// precedes is dropped, and the tokenizer told to stop.
    pub fn on_header_value(&mut self, value: &[u8]) -> (go_on: bool)
        requires
            old(self).wf(),
        ensures
            final(self).wf(),
            final(self)@ == spec_step(old(self)@, Event::HeaderValue(value@)),
            go_on == (old(self)@.state matches StateView::AwaitingHandshake(parser)
                && parser.current_field is Some),
    {
        let name: Option<Vec<u8>> = match &self.state {
            ConnectionState::AwaitingHandshake(parser) => match &parser.current_field {
                Some(name) => Some(slice_to_vec(name.as_slice())),
                None => None,
            },
            _ => None,
        };
        match name {
            Some(name) => {
                self.headers.insert(name, slice_to_vec(value));
                true
            },
            None => false,
        }
    }

    /// The tokenizer reports the end of the headers. The answer tells it to
    /// stop: nothing that follows the headers is for the tokenizer.
    pub fn on_headers_complete(&mut self) -> (go_on: bool)
        requires
            old(self).wf(),
        ensures
            final(self).wf(),
            final(self)@ == spec_step(old(self)@, Event::HeadersComplete),
            !go_on,
    {
        let field: Option<Option<Vec<u8>>> = match &self.state {
            ConnectionState::AwaitingHandshake(parser) => match &parser.current_field {
                Some(name) => Some(Some(slice_to_vec(name.as_slice()))),
                None => Some(None),
            },
            _ => None,
        };
        match field {
            Some(current_field) => {
                self.state = ConnectionState::AwaitingHandshake(
                    HeaderParser { current_field, headers_complete: true },
                );
            },
            None => {},
        }
        false
    }

    /// Whether a read during the handshake would end it.
    pub fn upgrade_detected(&self, read: HandshakeRead) -> (yes: bool)
        ensures
            yes == spec_upgrade_detected(self@, read),
    {
        match (&self.state, read) {
            (ConnectionState::AwaitingHandshake(parser), HandshakeRead::Fed { upgrade }) => {
                parser.headers_complete && upgrade
            },
            _ => false,
        }
    }

    /// A read during the handshake has ended. Once the headers are complete
    /// and ask for an upgrade, the connection goes on to the pending response
    /// and wants to write; until then it reads on while bytes come.
    pub fn read_handshake(&mut self, read: HandshakeRead) -> (step: Step)
        requires
            old(self).wf(),
        ensures
            final(self).wf(),
            final(self)@ == spec_step(old(self)@, Event::HandshakeRead(read)),
            step == spec_handshake_step(old(self)@, read),
    {
        match read {
            HandshakeRead::Failed => Step::Close(CloseReason::IoError),
            HandshakeRead::WouldBlock => Step::Wait,
            HandshakeRead::Fed { upgrade } => {
                if self.upgrade_detected(read) {
                    self.state = ConnectionState::HandshakeResponsePending;
                    self.interest.remove(InterestSet::readable());
                    self.interest.insert(InterestSet::writable());
                    Step::Wait
                } else if self.is_awaiting_handshake() {
                    Step::Again
                } else {
                    Step::Wait
                }
            },
        }
    }

    /// The socket can be read: what to read for.
    pub fn on_readable(&self) -> (plan: ReadPlan)
        ensures
            plan == spec_read_plan(self@),
    {
        match self.state {
            ConnectionState::AwaitingHandshake(_) => ReadPlan::Handshake,
            ConnectionState::HandshakeResponsePending => ReadPlan::Nothing,
            ConnectionState::Established => ReadPlan::Frames,
        }
    }

    /// A read on the established connection has ended: every frame that the
    /// bytes complete comes out, and a malformed header closes the
    /// connection. In another state the bytes are not looked at.
    pub fn read_frames(&mut self, read: FrameRead<'_>) -> (out: FramesRead)
        requires
            old(self).wf(),
        ensures
            final(self).wf(),
            final(self)@ == spec_step(old(self)@, Event::FrameRead(read@)),
            spec_frames(out.frames@) == spec_frames_read(old(self)@, read@),
            out.step == spec_frames_step(old(self)@, read@),
    {
        let mut frames: Vec<Frame> = Vec::new();
        assert(spec_frames(frames@) =~= Seq::<FrameView>::empty());
        match read {
            FrameRead::Failed => FramesRead { frames, step: Step::Close(CloseReason::IoError) },
            FrameRead::WouldBlock => FramesRead { frames, step: Step::Wait },
            FrameRead::Data(bytes) => {
                if self.is_established() {
                    let decoded = self.inbound.feed(bytes);
                    let step = match decoded.error {
                        Some(e) => Step::Close(CloseReason::ProtocolError(e)),
                        None => Step::Again,
                    };
                    FramesRead { frames: decoded.frames, step }
                } else {
                    FramesRead { frames, step: Step::Wait }
                }
            },
        }
    }

    /// The socket can be written: while the response is pending, the response
    /// to write, or the reason why there is none.
    pub fn on_writable(&self) -> (plan: WritePlan)
        requires
            self.wf(),
        ensures
            plan@ == spec_write_plan(self@),
    {
        if self.is_response_pending() {
            match accept_response(&self.headers) {
                Ok(line) => WritePlan::Send(line),
                Err(_) => WritePlan::Close(CloseReason::MissingKeyError),
            }
        } else {
            WritePlan::Nothing
        }
    }

    /// A write of the response has ended. Once the response is out in full
    /// the connection is established, wants to read, and forgets the headers.
    pub fn write_done(&mut self, outcome: WriteOutcome) -> (step: Step)
        requires
            old(self).wf(),
        ensures
            final(self).wf(),
            final(self)@ == spec_step(old(self)@, Event::ResponseWrite(outcome)),
            step == spec_write_step(outcome),
    {
        match outcome {
            WriteOutcome::Failed => Step::Close(CloseReason::IoError),
            WriteOutcome::WouldBlock => Step::Wait,
            WriteOutcome::Written => {
                if self.is_response_pending() {
                    self.state = ConnectionState::Established;
                    self.headers = HandshakeHeaders::new();
                    self.interest.remove(InterestSet::writable());
                    self.interest.insert(InterestSet::readable());
                }
                Step::Wait
            },
        }
    }
}

/// No event takes a connection back to an earlier state.
pub proof fn lemma_step_never_regresses(c: ConnectionView, event: Event)
    ensures
        spec_rank(spec_step(c, event).state) >= spec_rank(c.state),
{
}

/// No event of a connection that has left the handshake brings it back there.
pub proof fn lemma_handshake_not_revisited(c: ConnectionView, event: Event)
    requires
        !(c.state is AwaitingHandshake),
    ensures
        !(spec_step(c, event).state is AwaitingHandshake),
{
}

/// After any event, a connection that wanted what its state needed wants what
/// its new state needs.
pub proof fn lemma_step_keeps_interest(c: ConnectionView, event: Event)
    requires
        c.interest == spec_required_interest(c.state),
    ensures
        spec_step(c, event).interest == spec_required_interest(spec_step(c, event).state),
{
}

/// The way through the handshake: a connection whose headers are complete
/// goes, on a read that the tokenizer calls an upgrade, to the pending
/// response, and from there, once the response is written, to established.
pub proof fn lemma_handshake_path(c: ConnectionView)
    requires
        c.state matches StateView::AwaitingHandshake(parser) && parser.headers_complete,
    ensures
        ({
            let pending = spec_step(
                c,
                Event::HandshakeRead(HandshakeRead::Fed { upgrade: true }),
            );
            let done = spec_step(pending, Event::ResponseWrite(WriteOutcome::Written));
            &&& pending.state is HandshakeResponsePending
            &&& done.state is Established
        }),
{
}

} // verus!
