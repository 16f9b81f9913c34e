use ws_reactor::connection::{
    CloseReason, Connection, ConnectionState, FrameRead, HandshakeRead, InterestSet, ReadPlan,
    Step, WriteOutcome, WritePlan,
};
use ws_reactor::frame::{Frame, Opcode, ProtocolError};

const READ: InterestSet = InterestSet { readable: true, writable: false };
const WRITE: InterestSet = InterestSet { readable: false, writable: true };

fn request(c: &mut Connection, headers: &[(&str, &str)]) {
    for (name, value) in headers {
        assert!(c.on_header_field(name.as_bytes()));
        assert!(c.on_header_value(value.as_bytes()));
    }
    assert!(!c.on_headers_complete());
}

fn established() -> Connection {
    let mut c = Connection::new();
    request(&mut c, &[("Sec-WebSocket-Key", "dGhlIHNhbXBsZSBub25jZQ==")]);
    assert_eq!(c.read_handshake(HandshakeRead::Fed { upgrade: true }), Step::Wait);
    assert_eq!(c.write_done(WriteOutcome::Written), Step::Wait);
    assert!(c.is_established());
    c
}

#[test]
fn new_connection_awaits_the_handshake_and_reads() {
    let c = Connection::new();
    assert!(c.is_awaiting_handshake());
    assert!(!c.is_response_pending());
    assert!(!c.is_established());
    assert_eq!(c.interest(), READ);
    assert_eq!(c.headers().len(), 0);
    match c.state() {
        ConnectionState::AwaitingHandshake(parser) => {
            assert_eq!(parser.current_field, None);
            assert!(!parser.headers_complete);
        }
        _ => panic!("a new connection awaits the handshake"),
    }
}

#[test]
fn upgrade_request_leads_to_established() {
    let mut c = Connection::new();
    request(
        &mut c,
        &[
            ("Host", "server.example.com"),
            ("Upgrade", "websocket"),
            ("Connection", "Upgrade"),
            ("Sec-WebSocket-Key", "dGhlIHNhbXBsZSBub25jZQ=="),
        ],
    );
    assert!(c.is_awaiting_handshake());
    assert_eq!(c.interest(), READ);

    assert_eq!(c.read_handshake(HandshakeRead::Fed { upgrade: true }), Step::Wait);
    assert!(c.is_response_pending());
    assert_eq!(c.interest(), WRITE);

    match c.on_writable() {
        WritePlan::Send(line) => assert_eq!(
            line,
            "HTTP/1.1 101 Switching Protocols\r\nConnection: Upgrade\r\nSec-WebSocket-Accept: s3pPLMBiTxaQ9kYGzzhZRbK+xOo=\r\nUpgrade: websocket\r\n\r\n"
        ),
        _ => panic!("the response is to be sent"),
    }
    assert!(c.is_response_pending());

    assert_eq!(c.write_done(WriteOutcome::Written), Step::Wait);
    assert!(c.is_established());
    assert_eq!(c.interest(), READ);
    assert_eq!(c.headers().len(), 0);

    // Nothing brings the handshake back.
    assert!(!c.on_header_field(b"Host"));
    assert!(!c.on_header_value(b"x"));
    assert!(!c.on_headers_complete());
    assert_eq!(c.read_handshake(HandshakeRead::Fed { upgrade: true }), Step::Wait);
    assert_eq!(c.write_done(WriteOutcome::Written), Step::Wait);
    c.read_frames(FrameRead::Data(&[0x81, 0x00]));
    assert!(c.is_established());
    assert!(!c.is_awaiting_handshake());
    assert_eq!(c.interest(), READ);
}

#[test]
fn header_field_is_kept_for_its_value() {
    let mut c = Connection::new();
    assert!(c.on_header_field(b"Host"));
    match c.state() {
        ConnectionState::AwaitingHandshake(parser) => {
            assert_eq!(parser.current_field, Some(b"Host".to_vec()));
        }
        _ => panic!("still in the handshake"),
    }
    assert_eq!(c.headers().len(), 0);
    assert!(c.on_header_value(b"example.com"));
    assert_eq!(c.headers().get(b"Host"), Some(&b"example.com"[..]));
    // The name stays until the next one is reported.
    assert!(c.on_header_value(b"example.org"));
    assert_eq!(c.headers().get(b"Host"), Some(&b"example.org"[..]));
    assert_eq!(c.headers().len(), 1);
}

#[test]
fn header_value_without_field_is_dropped() {
    let mut c = Connection::new();
    assert!(!c.on_header_value(b"stray"));
    assert_eq!(c.headers().len(), 0);
    assert!(c.is_awaiting_handshake());
}

#[test]
fn headers_complete_is_remembered() {
    let mut c = Connection::new();
    assert!(c.on_header_field(b"A"));
    assert!(!c.on_headers_complete());
    match c.state() {
        ConnectionState::AwaitingHandshake(parser) => {
            assert!(parser.headers_complete);
            assert_eq!(parser.current_field, Some(b"A".to_vec()));
        }
        _ => panic!("still in the handshake"),
    }
}

#[test]
fn upgrade_needs_complete_headers() {
    let mut c = Connection::new();
    assert!(c.on_header_field(b"Upgrade"));
    assert!(c.on_header_value(b"websocket"));
    assert!(!c.upgrade_detected(HandshakeRead::Fed { upgrade: true }));
    assert_eq!(c.read_handshake(HandshakeRead::Fed { upgrade: true }), Step::Again);
    assert!(c.is_awaiting_handshake());
    assert_eq!(c.interest(), READ);
    assert!(!c.on_headers_complete());
    assert!(c.upgrade_detected(HandshakeRead::Fed { upgrade: true }));
    assert!(!c.upgrade_detected(HandshakeRead::Fed { upgrade: false }));
    assert!(!c.upgrade_detected(HandshakeRead::WouldBlock));
    assert!(!c.upgrade_detected(HandshakeRead::Failed));
}

#[test]
fn request_without_upgrade_reads_on() {
    let mut c = Connection::new();
    request(&mut c, &[("Host", "example.com")]);
    assert_eq!(c.read_handshake(HandshakeRead::Fed { upgrade: false }), Step::Again);
    assert!(c.is_awaiting_handshake());
    assert_eq!(c.interest(), READ);
}

#[test]
fn no_more_data_means_wait() {
    let mut c = Connection::new();
    assert_eq!(c.read_handshake(HandshakeRead::WouldBlock), Step::Wait);
    assert!(c.is_awaiting_handshake());
    assert_eq!(c.interest(), READ);
}

#[test]
fn failed_read_closes() {
    let mut c = Connection::new();
    assert_eq!(c.read_handshake(HandshakeRead::Failed), Step::Close(CloseReason::IoError));
    let mut c = established();
    assert_eq!(c.read_handshake(HandshakeRead::Failed), Step::Close(CloseReason::IoError));
}

#[test]
fn request_arriving_in_pieces() {
    let mut c = Connection::new();
    assert!(c.on_header_field(b"Sec-WebSocket-Key"));
    assert_eq!(c.read_handshake(HandshakeRead::Fed { upgrade: false }), Step::Again);
    assert_eq!(c.read_handshake(HandshakeRead::WouldBlock), Step::Wait);
    assert!(c.on_header_value(b"dGhlIHNhbXBsZSBub25jZQ=="));
    assert_eq!(c.read_handshake(HandshakeRead::Fed { upgrade: false }), Step::Again);
    assert_eq!(c.read_handshake(HandshakeRead::WouldBlock), Step::Wait);
    assert!(!c.on_headers_complete());
    assert_eq!(c.read_handshake(HandshakeRead::Fed { upgrade: true }), Step::Wait);
    assert!(c.is_response_pending());
}

#[test]
fn nothing_to_write_outside_the_pending_response() {
    let c = Connection::new();
    assert!(matches!(c.on_writable(), WritePlan::Nothing));
    let c = established();
    assert!(matches!(c.on_writable(), WritePlan::Nothing));
}

#[test]
fn missing_key_closes() {
    let mut c = Connection::new();
    request(&mut c, &[("Upgrade", "websocket"), ("Connection", "Upgrade")]);
    assert_eq!(c.read_handshake(HandshakeRead::Fed { upgrade: true }), Step::Wait);
    assert!(matches!(c.on_writable(), WritePlan::Close(CloseReason::MissingKeyError)));
}

#[test]
fn write_outcomes() {
    let mut c = Connection::new();
    request(&mut c, &[("Sec-WebSocket-Key", "k")]);
    assert_eq!(c.read_handshake(HandshakeRead::Fed { upgrade: true }), Step::Wait);

    assert_eq!(c.write_done(WriteOutcome::WouldBlock), Step::Wait);
    assert!(c.is_response_pending());
    assert_eq!(c.interest(), WRITE);
    assert!(matches!(c.on_writable(), WritePlan::Send(_)));

    assert_eq!(c.write_done(WriteOutcome::Failed), Step::Close(CloseReason::IoError));
    assert!(c.is_response_pending());

    assert_eq!(c.write_done(WriteOutcome::Written), Step::Wait);
    assert!(c.is_established());
}

#[test]
fn write_report_before_the_response_is_pending_changes_nothing() {
    let mut c = Connection::new();
    assert_eq!(c.write_done(WriteOutcome::Written), Step::Wait);
    assert!(c.is_awaiting_handshake());
    assert_eq!(c.interest(), READ);
}

#[test]
fn frames_are_read_once_established() {
    let mut c = established();
    let hello = Frame::new(Opcode::Text, b"Hello".to_vec(), Some([0x37, 0xfa, 0x21, 0x3d]));
    let bytes = hello.encode();
    let read = c.read_frames(FrameRead::Data(&bytes[..4]));
    assert_eq!(read.frames, Vec::<Frame>::new());
    assert_eq!(read.step, Step::Again);
    let read = c.read_frames(FrameRead::Data(&bytes[4..]));
    assert_eq!(read.frames, vec![hello]);
    assert_eq!(read.step, Step::Again);
    assert_eq!(c.interest(), READ);
    assert!(c.is_established());
}

#[test]
fn frames_are_not_read_during_the_handshake() {
    let mut c = Connection::new();
    let read = c.read_frames(FrameRead::Data(&[0x81, 0x00]));
    assert_eq!(read.frames, Vec::<Frame>::new());
    assert_eq!(read.step, Step::Wait);
    assert!(c.is_awaiting_handshake());
    // The bytes were not kept either.
    let mut c = established();
    let read = c.read_frames(FrameRead::Data(&[0x89, 0x00]));
    assert_eq!(read.frames.len(), 1);
}

#[test]
fn malformed_frame_closes() {
    let mut c = established();
    let read = c.read_frames(FrameRead::Data(&[0xc1, 0x00]));
    assert_eq!(read.frames, Vec::<Frame>::new());
    assert_eq!(
        read.step,
        Step::Close(CloseReason::ProtocolError(ProtocolError::ReservedBits))
    );
    let mut c = established();
    let read = c.read_frames(FrameRead::Data(&[0x81, 0x00, 0x8b, 0x00]));
    assert_eq!(read.frames.len(), 1);
    assert_eq!(
        read.step,
        Step::Close(CloseReason::ProtocolError(ProtocolError::UnknownOpcode))
    );
    let mut c = established();
    let read = c.read_frames(FrameRead::Data(&[0x82, 0x7f, 0xff, 0, 0, 0, 0, 0, 0, 0]));
    assert_eq!(
        read.step,
        Step::Close(CloseReason::ProtocolError(ProtocolError::LengthOverflow))
    );
}

#[test]
fn interest_sets() {
    assert_eq!(InterestSet::none(), InterestSet { readable: false, writable: false });
    assert_eq!(InterestSet::readable(), READ);
    assert_eq!(InterestSet::writable(), WRITE);
    assert!(READ.is_readable() && !READ.is_writable());
    assert!(WRITE.is_writable() && !WRITE.is_readable());

    let mut set = InterestSet::none();
    set.insert(InterestSet::readable());
    assert_eq!(set, READ);
    set.insert(InterestSet::writable());
    assert_eq!(set, InterestSet { readable: true, writable: true });
    assert!(set.contains(READ) && set.contains(WRITE) && set.contains(InterestSet::none()));
    set.remove(InterestSet::readable());
    assert_eq!(set, WRITE);
    assert!(!set.contains(READ));
    set.remove(InterestSet::readable());
    assert_eq!(set, WRITE);
    set.remove(set);
    assert_eq!(set, InterestSet::none());
}

#[test]
fn read_plan_follows_the_state() {
    let mut c = Connection::new();
    assert_eq!(c.on_readable(), ReadPlan::Handshake);
    request(&mut c, &[("Sec-WebSocket-Key", "k")]);
    assert_eq!(c.on_readable(), ReadPlan::Handshake);
    assert_eq!(c.read_handshake(HandshakeRead::Fed { upgrade: true }), Step::Wait);
    assert_eq!(c.on_readable(), ReadPlan::Nothing);
    assert_eq!(c.write_done(WriteOutcome::Written), Step::Wait);
    assert_eq!(c.on_readable(), ReadPlan::Frames);
}

#[test]
fn frame_read_without_data() {
    let mut c = established();
    let read = c.read_frames(FrameRead::Data(&[0x81]));
    assert_eq!(read.step, Step::Again);
    let read = c.read_frames(FrameRead::WouldBlock);
    assert_eq!(read.frames, Vec::<Frame>::new());
    assert_eq!(read.step, Step::Wait);
    assert!(c.is_established());
    assert_eq!(c.interest(), READ);
    // The byte read before is still there.
    let read = c.read_frames(FrameRead::Data(&[0x01, b'x']));
    assert_eq!(read.frames, vec![Frame::new(Opcode::Text, b"x".to_vec(), None)]);

    let read = c.read_frames(FrameRead::Failed);
    assert_eq!(read.frames, Vec::<Frame>::new());
    assert_eq!(read.step, Step::Close(CloseReason::IoError));
    let mut c = Connection::new();
    assert_eq!(c.read_frames(FrameRead::Failed).step, Step::Close(CloseReason::IoError));
    assert_eq!(c.read_frames(FrameRead::WouldBlock).step, Step::Wait);
}
