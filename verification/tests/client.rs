use mpv_websocket::client::{source_of, Source, BROADCAST, CLIENT};
use mpv_websocket::session::Outbound;
use mpv_websocket::transport::{
    after_connect_failure, after_poll_failure, IoFailure, Recovery, WriteState,
};
use mpv_websocket::Client;
use std::path::PathBuf;

#[test]
fn client_keeps_its_path() {
    let client = Client::new(PathBuf::from("/tmp/mpv-socket"));
    assert_eq!(client.path(), &PathBuf::from("/tmp/mpv-socket"));
}

#[test]
fn client_session_starts_with_the_observe_command() {
    let client = Client::new(PathBuf::from("/tmp/mpv-socket"));
    let mut session = client.session();
    assert!(session.is_connected());
    assert_eq!(session.pending(), 1);
    assert_eq!(session.buffered(), 0);
    assert_eq!(session.write_state(), WriteState::Unwritable);
    match session.on_writable() {
        Outbound::Write(message) => assert_eq!(
            message.as_str(),
            "{\"command\":[\"observe_property\",1,\"sub-text\"]}\n"
        ),
        other => panic!("expected a write, got {:?}", other),
    }
}

#[test]
fn client_loop_knows_two_sources() {
    assert_eq!(CLIENT, 0);
    assert_eq!(BROADCAST, 1);
    assert_eq!(source_of(0), Some(Source::Transport));
    assert_eq!(source_of(1), Some(Source::Channel));
    assert_eq!(source_of(2), None);
    assert_eq!(source_of(usize::MAX), None);
}

#[test]
fn interrupted_poll_is_retried() {
    assert_eq!(after_poll_failure(IoFailure::Interrupted), Recovery::Retry);
    assert_eq!(after_poll_failure(IoFailure::WouldBlock), Recovery::Fatal);
    assert_eq!(after_poll_failure(IoFailure::ConnectionReset), Recovery::Fatal);
    assert_eq!(after_poll_failure(IoFailure::WriteZero), Recovery::Fatal);
    assert_eq!(after_poll_failure(IoFailure::Other), Recovery::Fatal);
}

#[test]
fn blocked_connect_is_retried() {
    assert_eq!(after_connect_failure(IoFailure::WouldBlock), Recovery::Retry);
    assert_eq!(after_connect_failure(IoFailure::Interrupted), Recovery::Fatal);
    assert_eq!(after_connect_failure(IoFailure::ConnectionReset), Recovery::Fatal);
    assert_eq!(after_connect_failure(IoFailure::WriteZero), Recovery::Fatal);
    assert_eq!(after_connect_failure(IoFailure::Other), Recovery::Fatal);
}
