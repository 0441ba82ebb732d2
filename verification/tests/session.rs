use mpv_websocket::outbox::Message;
use mpv_websocket::session::{subtitles_in, Inbound, Outbound, Session, SessionFault, WriteOutcome};
use mpv_websocket::transport::{IoFailure, WriteState};
use std::sync::Arc;

const HELLO: &[u8] =
    b"{\"event\":\"property-change\",\"id\":1,\"name\":\"sub-text\",\"data\":\"hello\"}\n";

fn message(text: &str) -> Message {
    Arc::new(text.to_string())
}

fn written(step: Outbound) -> Message {
    match step {
        Outbound::Write(message) => message,
        other => panic!("expected a write, got {:?}", other),
    }
}

fn forwarded(step: Inbound) -> Vec<String> {
    match step {
        Inbound::Forward(messages) => messages.iter().map(|m| m.as_str().to_string()).collect(),
        other => panic!("expected subtitles, got {:?}", other),
    }
}

fn writable_session() -> Session {
    let mut session = Session::open();
    let observe = written(session.on_writable());
    assert_eq!(session.on_write(observe, WriteOutcome::Written), Outbound::Idle);
    session
}

#[test]
fn session_opens_connected_and_unwritable() {
    let session = Session::open();
    assert!(session.is_connected());
    assert_eq!(session.pending(), 1);
    assert_eq!(session.buffered(), 0);
    assert_eq!(session.write_state(), WriteState::Unwritable);
}

#[test]
fn first_writable_event_writes_the_observe_command() {
    let mut session = Session::open();
    let observe = written(session.on_writable());
    assert_eq!(observe.as_str(), "{\"command\":[\"observe_property\",1,\"sub-text\"]}\n");
    assert_eq!(session.pending(), 0);
    assert_eq!(session.write_state(), WriteState::Writable);
    assert_eq!(session.on_write(observe, WriteOutcome::Written), Outbound::Idle);
    assert_eq!(session.pending(), 0);
    assert!(session.is_connected());
}

#[test]
fn writable_event_with_empty_queue_is_idle() {
    let mut session = writable_session();
    assert_eq!(session.on_writable(), Outbound::Idle);
    assert_eq!(session.write_state(), WriteState::Writable);
}

#[test]
fn text_waits_while_unwritable() {
    let mut session = Session::open();
    assert_eq!(session.send_text(message("second")), Outbound::Idle);
    assert_eq!(session.pending(), 2);
    assert_eq!(session.write_state(), WriteState::Unwritable);
    let first = written(session.on_writable());
    assert_eq!(first.as_str(), "{\"command\":[\"observe_property\",1,\"sub-text\"]}\n");
    assert_eq!(session.pending(), 1);
    assert_eq!(session.on_write(first, WriteOutcome::Written), Outbound::Idle);
    let second = written(session.on_writable());
    assert_eq!(second.as_str(), "second");
    assert_eq!(session.pending(), 0);
}

#[test]
fn text_is_written_at_once_while_writable() {
    let mut session = writable_session();
    let step = session.send_text(message("now"));
    assert_eq!(written(step).as_str(), "now");
    assert_eq!(session.pending(), 0);
}

#[test]
fn oldest_text_goes_first_while_writable() {
    let mut session = writable_session();
    let first = written(session.send_text(message("one")));
    assert_eq!(
        session.on_write(first, WriteOutcome::Failed(IoFailure::WouldBlock)),
        Outbound::Idle
    );
    assert_eq!(session.send_text(message("two")), Outbound::Idle);
    assert_eq!(session.pending(), 2);
    let again = written(session.on_writable());
    assert_eq!(again.as_str(), "one");
    assert_eq!(session.on_write(again, WriteOutcome::Written), Outbound::Idle);
    let next = written(session.send_text(message("three")));
    assert_eq!(next.as_str(), "two");
    assert_eq!(session.pending(), 1);
}

#[test]
fn would_block_puts_the_message_back_in_front() {
    let mut session = Session::open();
    assert_eq!(session.send_text(message("later")), Outbound::Idle);
    let observe = written(session.on_writable());
    assert_eq!(session.pending(), 1);
    let step = session.on_write(observe, WriteOutcome::Failed(IoFailure::WouldBlock));
    assert_eq!(step, Outbound::Idle);
    assert_eq!(session.pending(), 2);
    assert_eq!(session.write_state(), WriteState::Unwritable);
    assert!(session.is_connected());
    let retried = written(session.on_writable());
    assert_eq!(retried.as_str(), "{\"command\":[\"observe_property\",1,\"sub-text\"]}\n");
    assert_eq!(session.pending(), 1);
    assert_eq!(session.on_write(retried, WriteOutcome::Written), Outbound::Idle);
    assert_eq!(written(session.on_writable()).as_str(), "later");
    assert_eq!(session.pending(), 0);
}

#[test]
fn would_block_retries_the_very_same_allocation() {
    let mut session = Session::open();
    let observe = written(session.on_writable());
    let handle = Arc::clone(&observe);
    session.on_write(observe, WriteOutcome::Failed(IoFailure::WouldBlock));
    let retried = written(session.on_writable());
    assert!(Arc::ptr_eq(&handle, &retried));
}

#[test]
fn interrupted_write_is_repeated_at_once() {
    let mut session = Session::open();
    let observe = written(session.on_writable());
    let step = session.on_write(observe, WriteOutcome::Failed(IoFailure::Interrupted));
    let again = written(step);
    assert_eq!(again.as_str(), "{\"command\":[\"observe_property\",1,\"sub-text\"]}\n");
    assert_eq!(session.pending(), 0);
    assert_eq!(session.write_state(), WriteState::Writable);
    assert!(session.is_connected());
}

#[test]
fn write_zero_closes_the_session() {
    let mut session = Session::open();
    let observe = written(session.on_writable());
    let step = session.on_write(observe, WriteOutcome::Failed(IoFailure::WriteZero));
    assert_eq!(step, Outbound::Closed);
    assert!(!session.is_connected());
    assert_eq!(session.pending(), 0);
}

#[test]
fn other_write_failures_are_faults() {
    for failure in [IoFailure::ConnectionReset, IoFailure::Other] {
        let mut session = Session::open();
        let observe = written(session.on_writable());
        let step = session.on_write(observe, WriteOutcome::Failed(failure));
        assert_eq!(step, Outbound::Failed);
        assert!(!session.is_connected());
    }
}

#[test]
fn complete_line_is_forwarded() {
    let mut session = Session::open();
    assert_eq!(forwarded(session.on_bytes(HELLO)), vec!["hello".to_string()]);
    assert_eq!(session.buffered(), 0);
    assert!(session.is_connected());
}

#[test]
fn partial_line_is_kept_until_it_is_complete() {
    let mut session = Session::open();
    let (head, tail) = HELLO.split_at(20);
    assert_eq!(session.on_bytes(head), Inbound::Again);
    assert_eq!(session.buffered(), 20);
    assert_eq!(session.on_read_failed(IoFailure::WouldBlock), Inbound::Wait);
    assert_eq!(session.buffered(), 20);
    assert_eq!(forwarded(session.on_bytes(tail)), vec!["hello".to_string()]);
    assert_eq!(session.buffered(), 0);
}

#[test]
fn line_split_byte_by_byte_is_forwarded_once() {
    let mut session = Session::open();
    let (last, body) = HELLO.split_last().unwrap();
    for byte in body {
        assert_eq!(session.on_bytes(&[*byte]), Inbound::Again);
    }
    assert_eq!(session.buffered(), body.len());
    assert_eq!(forwarded(session.on_bytes(&[*last])), vec!["hello".to_string()]);
    assert_eq!(session.buffered(), 0);
}

#[test]
fn several_lines_are_forwarded_in_order() {
    let mut session = Session::open();
    let mut chunk = Vec::new();
    chunk.extend_from_slice(
        b"{\"event\":\"property-change\",\"id\":1,\"name\":\"sub-text\",\"data\":\"one\"}\n",
    );
    chunk.extend_from_slice(b"{\"event\":\"pause\",\"id\":2}\n");
    chunk.extend_from_slice(b"garbage\n\n");
    chunk.extend_from_slice(
        b"{\"event\":\"property-change\",\"id\":1,\"name\":\"sub-text\",\"data\":\"\"}\r\n",
    );
    chunk.extend_from_slice(
        b"{\"event\":\"property-change\",\"id\":1,\"name\":\"sub-text\",\"data\":\"two\"}\r\n",
    );
    assert_eq!(forwarded(session.on_bytes(&chunk)), vec!["one".to_string(), "two".to_string()]);
}

#[test]
fn lines_without_subtitle_forward_nothing() {
    let mut session = Session::open();
    assert_eq!(
        forwarded(session.on_bytes(b"{\"event\":\"pause\",\"id\":2}\n")),
        Vec::<String>::new()
    );
    assert_eq!(
        forwarded(session.on_bytes(
            b"{\"event\":\"property-change\",\"id\":1,\"name\":\"volume\",\"data\":\"9\"}\n"
        )),
        Vec::<String>::new()
    );
    assert_eq!(
        forwarded(session.on_bytes(
            b"{\"event\":\"property-change\",\"id\":1,\"name\":\"sub-text\",\"data\":\"\"}\n"
        )),
        Vec::<String>::new()
    );
    assert_eq!(forwarded(session.on_bytes(b"\n")), Vec::<String>::new());
    assert!(session.is_connected());
}

#[test]
fn subtitle_with_several_bytes_per_character_is_decoded() {
    let mut session = Session::open();
    let line = "{\"event\":\"property-change\",\"id\":1,\"name\":\"sub-text\",\"data\":\"\u{3053}\u{3093}\u{306b}\u{3061}\u{306f}\"}\n";
    assert_eq!(
        forwarded(session.on_bytes(line.as_bytes())),
        vec!["\u{3053}\u{3093}\u{306b}\u{3061}\u{306f}".to_string()]
    );
}

#[test]
fn bytes_that_are_not_text_are_a_fault() {
    let mut session = Session::open();
    let step = session.on_bytes(b"\xff\xfe\n");
    assert_eq!(step, Inbound::Failed(SessionFault::Encoding));
    assert!(!session.is_connected());
}

#[test]
fn one_bad_line_fails_the_whole_buffer() {
    let mut session = Session::open();
    let mut chunk = HELLO.to_vec();
    chunk.extend_from_slice(b"\xc3\n");
    assert_eq!(session.on_bytes(&chunk), Inbound::Failed(SessionFault::Encoding));
    assert!(!session.is_connected());
}

#[test]
fn zero_byte_read_ends_the_session() {
    let mut session = Session::open();
    assert_eq!(session.on_bytes(b"partial"), Inbound::Again);
    assert_eq!(session.on_bytes(b""), Inbound::Closed);
    assert!(!session.is_connected());
    assert_eq!(session.pending(), 0);
    assert_eq!(session.buffered(), 0);
    assert_eq!(session.write_state(), WriteState::Unwritable);
}

#[test]
fn closed_session_asks_for_no_read_and_no_write() {
    let mut session = Session::open();
    assert_eq!(session.on_bytes(b""), Inbound::Closed);
    assert_eq!(session.on_bytes(HELLO), Inbound::Closed);
    assert_eq!(session.on_read_failed(IoFailure::Interrupted), Inbound::Closed);
    assert_eq!(session.on_read_failed(IoFailure::WouldBlock), Inbound::Closed);
    assert_eq!(session.on_writable(), Outbound::Closed);
    assert_eq!(session.send_text(message("x")), Outbound::Closed);
    assert_eq!(session.on_write(message("x"), WriteOutcome::Written), Outbound::Closed);
    assert_eq!(
        session.on_write(message("x"), WriteOutcome::Failed(IoFailure::WouldBlock)),
        Outbound::Closed
    );
    assert!(!session.is_connected());
    assert_eq!(session.pending(), 0);
}

#[test]
fn would_block_on_read_waits() {
    let mut session = Session::open();
    assert_eq!(session.on_read_failed(IoFailure::WouldBlock), Inbound::Wait);
    assert!(session.is_connected());
}

#[test]
fn interrupted_read_is_repeated() {
    let mut session = Session::open();
    assert_eq!(session.on_read_failed(IoFailure::Interrupted), Inbound::Again);
    assert!(session.is_connected());
}

#[test]
fn other_read_failures_are_faults() {
    for failure in [IoFailure::ConnectionReset, IoFailure::WriteZero, IoFailure::Other] {
        let mut session = Session::open();
        assert_eq!(session.on_read_failed(failure), Inbound::Failed(SessionFault::Transport));
        assert!(!session.is_connected());
    }
}

#[test]
fn subtitles_in_reads_every_line() {
    let found = subtitles_in(
        b"{\"event\":\"property-change\",\"id\":1,\"name\":\"sub-text\",\"data\":\"a\"}\nnoise\n{\"event\":\"property-change\",\"id\":1,\"name\":\"sub-text\",\"data\":\"b\"}",
    );
    let texts: Option<Vec<String>> =
        found.map(|messages| messages.iter().map(|m| m.as_str().to_string()).collect());
    assert_eq!(texts, Some(vec!["a".to_string(), "b".to_string()]));
    assert_eq!(subtitles_in(b""), Some(Vec::new()));
    assert_eq!(subtitles_in(b"\x80"), None);
    assert_eq!(subtitles_in(b"ok\n\xe2\x82\n"), None);
}
