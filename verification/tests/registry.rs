use mpv_websocket::connection::{CodecFailure, CodecOutcome, Phase, ReadStep, SendStep};
use mpv_websocket::outbox::Message;
use mpv_websocket::registry::{
    source_of, AcceptOutcome, AcceptStep, Delivery, ReadPlan, Registry, Source, BROADCAST,
    LISTENER,
};
use mpv_websocket::transport::{IoFailure, WriteState};
use std::sync::Arc;

fn message(text: &str) -> Message {
    Arc::new(text.to_string())
}

fn text(handed: Option<Message>) -> Option<String> {
    handed.map(|m| m.as_str().to_string())
}

fn pairs(deliveries: Vec<Delivery>) -> Vec<(usize, String)> {
    let mut pairs: Vec<(usize, String)> =
        deliveries.into_iter().map(|d| (d.id, d.message.as_str().to_string())).collect();
    pairs.sort();
    pairs
}

fn accept(registry: &mut Registry) -> usize {
    match registry.on_accepted(AcceptOutcome::Accepted) {
        AcceptStep::Register(id) => {
            assert!(registry.adopt(id));
            id
        }
        other => panic!("expected an identifier, got {:?}", other),
    }
}

fn accept_open(registry: &mut Registry) -> usize {
    let id = accept(registry);
    assert_eq!(registry.on_handshake(id, true), ReadStep::Again);
    id
}

#[test]
fn reserved_identifiers_are_zero_and_one() {
    assert_eq!(LISTENER, 0);
    assert_eq!(BROADCAST, 1);
    assert_eq!(source_of(0), Source::Listener);
    assert_eq!(source_of(1), Source::Broadcast);
    assert_eq!(source_of(2), Source::Connection(2));
    assert_eq!(source_of(usize::MAX), Source::Connection(usize::MAX));
}

#[test]
fn new_registry_is_empty() {
    let registry = Registry::new();
    assert_eq!(registry.len(), 0);
    assert_eq!(registry.last(), 1);
    assert!(!registry.contains(0));
    assert!(!registry.contains(1));
    assert!(!registry.contains(2));
    assert_eq!(registry.phase(2), None);
}

#[test]
fn identifiers_count_up_from_two() {
    let mut registry = Registry::new();
    assert_eq!(registry.reserve(), Some(2));
    assert_eq!(registry.reserve(), Some(3));
    assert_eq!(registry.reserve(), Some(4));
    assert_eq!(registry.last(), 4);
    assert_eq!(registry.len(), 0);
}

#[test]
fn accepted_connection_gets_the_next_identifier() {
    let mut registry = Registry::new();
    assert_eq!(registry.on_accepted(AcceptOutcome::Accepted), AcceptStep::Register(2));
    assert_eq!(registry.on_accepted(AcceptOutcome::Accepted), AcceptStep::Register(3));
    assert_eq!(registry.len(), 0);
    assert_eq!(registry.last(), 3);
}

#[test]
fn would_block_ends_the_accept_loop() {
    let mut registry = Registry::new();
    assert_eq!(
        registry.on_accepted(AcceptOutcome::Failed(IoFailure::WouldBlock)),
        AcceptStep::Stop
    );
    assert_eq!(registry.last(), 1);
}

#[test]
fn other_accept_failures_are_fatal() {
    for failure in [
        IoFailure::Interrupted,
        IoFailure::ConnectionReset,
        IoFailure::WriteZero,
        IoFailure::Other,
    ] {
        let mut registry = Registry::new();
        assert_eq!(registry.on_accepted(AcceptOutcome::Failed(failure)), AcceptStep::Fatal);
        assert_eq!(registry.last(), 1);
        assert_eq!(registry.len(), 0);
    }
}

#[test]
fn adopt_stores_an_upgrading_connection() {
    let mut registry = Registry::new();
    let id = registry.reserve().unwrap();
    assert!(registry.adopt(id));
    assert!(registry.contains(id));
    assert_eq!(registry.len(), 1);
    assert_eq!(registry.phase(id), Some(Phase::Upgrading));
    assert_eq!(registry.pending(id), 0);
    assert_eq!(registry.write_state(id), WriteState::Unwritable);
}

#[test]
fn adopt_refuses_what_was_not_handed_out() {
    let mut registry = Registry::new();
    assert!(!registry.adopt(0));
    assert!(!registry.adopt(1));
    assert!(!registry.adopt(2));
    let id = registry.reserve().unwrap();
    assert!(!registry.adopt(id + 1));
    assert!(registry.adopt(id));
    assert!(!registry.adopt(id));
    assert_eq!(registry.len(), 1);
}

#[test]
fn identifier_of_a_failed_registration_is_skipped() {
    let mut registry = Registry::new();
    assert_eq!(registry.on_accepted(AcceptOutcome::Accepted), AcceptStep::Register(2));
    let second = accept(&mut registry);
    assert_eq!(second, 3);
    assert!(!registry.contains(2));
    assert!(registry.contains(3));
    assert_eq!(registry.len(), 1);
}

#[test]
fn readable_event_asks_for_what_the_phase_needs() {
    let mut registry = Registry::new();
    let id = accept(&mut registry);
    assert_eq!(registry.on_readable(id), ReadPlan::Handshake);
    assert_eq!(registry.on_handshake(id, true), ReadStep::Again);
    assert_eq!(registry.on_readable(id), ReadPlan::Decode);
    assert_eq!(
        registry.on_decoded(id, CodecOutcome::Failed(CodecFailure::ConnectionClosed)),
        ReadStep::Closed { report: false }
    );
    assert_eq!(registry.on_readable(id), ReadPlan::Ignore);
    assert_eq!(registry.on_readable(99), ReadPlan::Ignore);
}

#[test]
fn failed_handshake_closes_and_is_reported() {
    let mut registry = Registry::new();
    let id = accept(&mut registry);
    assert_eq!(registry.on_handshake(id, false), ReadStep::Closed { report: true });
    assert_eq!(registry.phase(id), Some(Phase::Closed));
    assert!(registry.retire(id));
    assert!(!registry.contains(id));
}

#[test]
fn handshake_of_an_open_or_unknown_connection_is_ignored() {
    let mut registry = Registry::new();
    let id = accept_open(&mut registry);
    assert_eq!(registry.on_handshake(id, false), ReadStep::Wait);
    assert_eq!(registry.phase(id), Some(Phase::Open));
    assert_eq!(registry.on_handshake(77, true), ReadStep::Wait);
    assert!(!registry.contains(77));
}

#[test]
fn stray_events_for_unknown_identifiers_do_nothing() {
    let mut registry = Registry::new();
    let id = accept_open(&mut registry);
    assert_eq!(registry.on_decoded(50, CodecOutcome::Done), ReadStep::Wait);
    assert_eq!(
        registry.on_decoded(50, CodecOutcome::Failed(CodecFailure::Other)),
        ReadStep::Wait
    );
    assert_eq!(text(registry.on_writable(50)), None);
    assert_eq!(registry.on_sent(50, CodecOutcome::Failed(CodecFailure::Other)), SendStep::Idle);
    assert!(!registry.retire(50));
    assert_eq!(registry.pending(50), 0);
    assert_eq!(registry.write_state(50), WriteState::Unwritable);
    assert_eq!(registry.len(), 1);
    assert_eq!(registry.phase(id), Some(Phase::Open));
}

#[test]
fn retire_removes_only_closed_connections() {
    let mut registry = Registry::new();
    let upgrading = accept(&mut registry);
    let open = accept_open(&mut registry);
    let closed = accept_open(&mut registry);
    registry.on_decoded(closed, CodecOutcome::Failed(CodecFailure::ConnectionClosed));
    assert!(!registry.retire(upgrading));
    assert!(!registry.retire(open));
    assert!(registry.retire(closed));
    assert!(!registry.retire(closed));
    assert_eq!(registry.len(), 2);
    assert!(registry.contains(upgrading));
    assert!(registry.contains(open));
    assert!(!registry.contains(closed));
}

#[test]
fn retired_identifier_is_not_handed_out_again() {
    let mut registry = Registry::new();
    let first = accept_open(&mut registry);
    registry.on_decoded(first, CodecOutcome::Failed(CodecFailure::ConnectionClosed));
    assert!(registry.retire(first));
    let second = accept(&mut registry);
    assert_eq!(first, 2);
    assert_eq!(second, 3);
}

#[test]
fn broadcast_queues_on_every_open_connection() {
    let mut registry = Registry::new();
    let a = accept_open(&mut registry);
    let b = accept_open(&mut registry);
    let c = accept_open(&mut registry);
    assert_eq!(pairs(registry.broadcast(message("one"))), vec![]);
    assert_eq!(pairs(registry.broadcast(message("two"))), vec![]);
    for id in [a, b, c] {
        assert_eq!(registry.pending(id), 2);
        assert_eq!(text(registry.on_writable(id)), Some("one".to_string()));
        assert_eq!(registry.on_sent(id, CodecOutcome::Done), SendStep::Idle);
        assert_eq!(text(registry.on_writable(id)), Some("two".to_string()));
        assert_eq!(registry.on_sent(id, CodecOutcome::Done), SendStep::Idle);
        assert_eq!(text(registry.on_writable(id)), None);
    }
}

#[test]
fn broadcast_delivers_at_once_to_writable_connections() {
    let mut registry = Registry::new();
    let a = accept_open(&mut registry);
    let b = accept_open(&mut registry);
    let c = accept_open(&mut registry);
    assert_eq!(text(registry.on_writable(a)), None);
    assert_eq!(text(registry.on_writable(c)), None);
    let deliveries = pairs(registry.broadcast(message("hello")));
    assert_eq!(deliveries, vec![(a, "hello".to_string()), (c, "hello".to_string())]);
    assert_eq!(registry.pending(a), 0);
    assert_eq!(registry.pending(b), 1);
    assert_eq!(registry.pending(c), 0);
}

#[test]
fn broadcast_hands_off_the_oldest_message_first() {
    let mut registry = Registry::new();
    let a = accept_open(&mut registry);
    assert_eq!(text(registry.on_writable(a)), None);
    assert_eq!(pairs(registry.broadcast(message("one"))), vec![(a, "one".to_string())]);
    assert_eq!(
        registry.on_sent(a, CodecOutcome::Failed(CodecFailure::Transport(IoFailure::WouldBlock))),
        SendStep::Idle
    );
    assert_eq!(pairs(registry.broadcast(message("two"))), vec![]);
    assert_eq!(pairs(registry.broadcast(message("three"))), vec![]);
    assert_eq!(registry.pending(a), 2);
    assert_eq!(text(registry.on_writable(a)), Some("two".to_string()));
    assert_eq!(registry.on_sent(a, CodecOutcome::Done), SendStep::Idle);
    assert_eq!(pairs(registry.broadcast(message("four"))), vec![(a, "three".to_string())]);
    assert_eq!(registry.pending(a), 1);
    assert_eq!(text(registry.on_writable(a)), Some("four".to_string()));
}

#[test]
fn broadcast_skips_upgrading_and_closed_connections() {
    let mut registry = Registry::new();
    let upgrading = accept(&mut registry);
    let open = accept_open(&mut registry);
    let closed = accept_open(&mut registry);
    registry.on_decoded(closed, CodecOutcome::Failed(CodecFailure::ConnectionClosed));
    assert_eq!(text(registry.on_writable(open)), None);
    assert_eq!(text(registry.on_writable(upgrading)), None);
    assert_eq!(text(registry.on_writable(closed)), None);
    assert_eq!(pairs(registry.broadcast(message("x"))), vec![(open, "x".to_string())]);
    assert_eq!(registry.pending(upgrading), 0);
    assert_eq!(registry.pending(closed), 0);
    assert_eq!(registry.phase(upgrading), Some(Phase::Upgrading));
    assert_eq!(registry.phase(closed), Some(Phase::Closed));
}

#[test]
fn broadcast_to_an_empty_registry_delivers_nothing() {
    let mut registry = Registry::new();
    assert_eq!(pairs(registry.broadcast(message("x"))), vec![]);
    assert_eq!(registry.len(), 0);
}

#[test]
fn broadcast_shares_one_allocation() {
    let mut registry = Registry::new();
    let a = accept_open(&mut registry);
    let b = accept_open(&mut registry);
    let shared = message("shared");
    assert_eq!(pairs(registry.broadcast(Arc::clone(&shared))), vec![]);
    let from_a = registry.on_writable(a).unwrap();
    let from_b = registry.on_writable(b).unwrap();
    assert!(Arc::ptr_eq(&shared, &from_a));
    assert!(Arc::ptr_eq(&shared, &from_b));
}

#[test]
fn failed_send_closes_one_connection_only() {
    let mut registry = Registry::new();
    let ids: Vec<usize> = (0..5).map(|_| accept_open(&mut registry)).collect();
    for id in &ids {
        assert_eq!(text(registry.on_writable(*id)), None);
    }
    let deliveries = pairs(registry.broadcast(message("item")));
    assert_eq!(deliveries.len(), 5);
    let failing = ids[2];
    for (id, item) in &deliveries {
        assert_eq!(item, "item");
        let outcome = if *id == failing {
            CodecOutcome::Failed(CodecFailure::Transport(IoFailure::Other))
        } else {
            CodecOutcome::Done
        };
        let step = registry.on_sent(*id, outcome);
        if *id == failing {
            assert_eq!(step, SendStep::Closed { report: true });
        } else {
            assert_eq!(step, SendStep::Idle);
        }
    }
    assert_eq!(registry.sweep(), vec![failing]);
    assert_eq!(registry.len(), 4);
    assert!(!registry.contains(failing));
    for id in &ids {
        if *id != failing {
            assert_eq!(registry.phase(*id), Some(Phase::Open));
            assert_eq!(registry.write_state(*id), WriteState::Writable);
        }
    }
    let next = pairs(registry.broadcast(message("next")));
    let expected: Vec<(usize, String)> =
        ids.iter().filter(|id| **id != failing).map(|id| (*id, "next".to_string())).collect();
    assert_eq!(next, expected);
}

#[test]
fn sweep_removes_every_closed_connection() {
    let mut registry = Registry::new();
    let a = accept_open(&mut registry);
    let b = accept(&mut registry);
    let c = accept_open(&mut registry);
    let d = accept_open(&mut registry);
    registry.on_handshake(b, false);
    registry.on_decoded(d, CodecOutcome::Failed(CodecFailure::InvalidCloseSequence));
    let mut removed = registry.sweep();
    removed.sort();
    assert_eq!(removed, vec![b, d]);
    assert_eq!(registry.len(), 2);
    assert!(registry.contains(a));
    assert!(registry.contains(c));
    assert_eq!(registry.sweep(), Vec::<usize>::new());
    assert_eq!(registry.len(), 2);
}

#[test]
fn writable_event_raises_the_flag() {
    let mut registry = Registry::new();
    let id = accept_open(&mut registry);
    assert_eq!(registry.write_state(id), WriteState::Unwritable);
    assert_eq!(text(registry.on_writable(id)), None);
    assert_eq!(registry.write_state(id), WriteState::Writable);
}

#[test]
fn events_of_one_connection_leave_the_others_alone() {
    let mut registry = Registry::new();
    let a = accept_open(&mut registry);
    let b = accept_open(&mut registry);
    assert_eq!(pairs(registry.broadcast(message("m"))), vec![]);
    assert_eq!(text(registry.on_writable(a)), Some("m".to_string()));
    assert_eq!(registry.pending(b), 1);
    assert_eq!(registry.write_state(b), WriteState::Unwritable);
    assert_eq!(
        registry.on_decoded(a, CodecOutcome::Failed(CodecFailure::UnmaskedFrameFromClient)),
        ReadStep::Closed { report: false }
    );
    assert_eq!(registry.phase(b), Some(Phase::Open));
    assert_eq!(registry.pending(b), 1);
}
