use mpv_websocket::connection::{CodecFailure, CodecOutcome, Phase, ReadStep, SendStep};
use mpv_websocket::outbox::Message;
use mpv_websocket::registry::{AcceptOutcome, AcceptStep, Delivery, ReadPlan, Registry};
use mpv_websocket::session::{Inbound, Session};

fn forwarded(step: Inbound) -> Vec<Message> {
    match step {
        Inbound::Forward(messages) => messages,
        other => panic!("expected subtitles, got {:?}", other),
    }
}

fn pairs(deliveries: Vec<Delivery>) -> Vec<(usize, String)> {
    let mut pairs: Vec<(usize, String)> =
        deliveries.into_iter().map(|d| (d.id, d.message.as_str().to_string())).collect();
    pairs.sort();
    pairs
}

fn accept(registry: &mut Registry) -> usize {
    match registry.on_accepted(AcceptOutcome::Accepted) {
        AcceptStep::Register(id) => {
            assert!(registry.adopt(id));
            id
        }
        other => panic!("expected an identifier, got {:?}", other),
    }
}

fn open_writable(registry: &mut Registry) -> usize {
    let id = accept(registry);
    assert_eq!(registry.on_readable(id), ReadPlan::Handshake);
    assert_eq!(registry.on_handshake(id, true), ReadStep::Again);
    assert_eq!(
        registry.on_decoded(
            id,
            CodecOutcome::Failed(CodecFailure::Transport(
                mpv_websocket::transport::IoFailure::WouldBlock
            ))
        ),
        ReadStep::Wait
    );
    assert!(registry.on_writable(id).is_none());
    id
}

#[test]
fn subtitle_line_reaches_every_open_client_and_no_other() {
    let mut session = Session::open();
    let mut registry = Registry::new();
    let first = open_writable(&mut registry);
    let second = open_writable(&mut registry);
    let upgrading = accept(&mut registry);
    let closed = open_writable(&mut registry);
    assert_eq!(
        registry.on_decoded(closed, CodecOutcome::Failed(CodecFailure::ConnectionClosed)),
        ReadStep::Closed { report: false }
    );

    let items = forwarded(session.on_bytes(
        b"{\"event\":\"property-change\",\"id\":1,\"name\":\"sub-text\",\"data\":\"hello\"}\n",
    ));
    assert_eq!(items.len(), 1);
    let mut frames: Vec<(usize, String)> = Vec::new();
    for item in items {
        frames.extend(pairs(registry.broadcast(item)));
    }
    assert_eq!(frames, vec![(first, "hello".to_string()), (second, "hello".to_string())]);
    assert_eq!(registry.pending(first), 0);
    assert_eq!(registry.pending(second), 0);
    assert_eq!(registry.pending(upgrading), 0);
    assert_eq!(registry.pending(closed), 0);
    assert_eq!(registry.phase(upgrading), Some(Phase::Upgrading));
    assert_eq!(registry.phase(closed), Some(Phase::Closed));
}

#[test]
fn pause_event_broadcasts_nothing() {
    let mut session = Session::open();
    let mut registry = Registry::new();
    let client = open_writable(&mut registry);
    let items = forwarded(session.on_bytes(b"{\"event\":\"pause\",\"id\":2}\n"));
    assert!(items.is_empty());
    let mut frames: Vec<(usize, String)> = Vec::new();
    for item in items {
        frames.extend(pairs(registry.broadcast(item)));
    }
    assert_eq!(frames, vec![]);
    assert_eq!(registry.pending(client), 0);
}

#[test]
fn protocol_violation_of_one_client_leaves_the_other_served() {
    let mut session = Session::open();
    let mut registry = Registry::new();
    let good = open_writable(&mut registry);
    let bad = accept(&mut registry);
    assert_eq!(registry.on_handshake(bad, true), ReadStep::Again);
    assert_eq!(
        registry.on_decoded(bad, CodecOutcome::Failed(CodecFailure::UnmaskedFrameFromClient)),
        ReadStep::Closed { report: false }
    );
    assert!(registry.retire(bad));
    assert!(!registry.contains(bad));
    assert_eq!(registry.len(), 1);

    let mut received: Vec<String> = Vec::new();
    for line in [
        &b"{\"event\":\"property-change\",\"id\":1,\"name\":\"sub-text\",\"data\":\"first\"}\n"[..],
        &b"{\"event\":\"property-change\",\"id\":1,\"name\":\"sub-text\",\"data\":\"second\"}\n"[..],
        &b"{\"event\":\"property-change\",\"id\":1,\"name\":\"sub-text\",\"data\":\"third\"}\n"[..],
    ] {
        for item in forwarded(session.on_bytes(line)) {
            for (id, frame) in pairs(registry.broadcast(item)) {
                assert_eq!(id, good);
                received.push(frame);
                assert_eq!(registry.on_sent(id, CodecOutcome::Done), SendStep::Idle);
            }
            assert_eq!(registry.sweep(), Vec::<usize>::new());
        }
    }
    assert_eq!(received, vec!["first".to_string(), "second".to_string(), "third".to_string()]);
    assert_eq!(registry.phase(good), Some(Phase::Open));
}

#[test]
fn broadcasts_reach_n_clients_in_order() {
    let mut registry = Registry::new();
    let ids: Vec<usize> = (0..8).map(|_| open_writable(&mut registry)).collect();
    let mut received: Vec<Vec<String>> = vec![Vec::new(); ids.len()];
    let texts = ["a", "b", "c", "d"];
    for (round, text) in texts.iter().enumerate() {
        let deliveries = registry.broadcast(std::sync::Arc::new(text.to_string()));
        for delivery in deliveries {
            let slot = ids.iter().position(|id| *id == delivery.id).unwrap();
            received[slot].push(delivery.message.as_str().to_string());
            // Every other client is slow in every other round.
            let outcome = if (slot + round) % 2 == 0 {
                CodecOutcome::Failed(CodecFailure::Transport(
                    mpv_websocket::transport::IoFailure::WouldBlock,
                ))
            } else {
                CodecOutcome::Done
            };
            assert_eq!(registry.on_sent(delivery.id, outcome), SendStep::Idle);
        }
    }
    for (slot, id) in ids.iter().enumerate() {
        while let Some(message) = registry.on_writable(*id) {
            received[slot].push(message.as_str().to_string());
            assert_eq!(registry.on_sent(*id, CodecOutcome::Done), SendStep::Idle);
        }
    }
    for got in received {
        assert_eq!(got, vec!["a".to_string(), "b".to_string(), "c".to_string(), "d".to_string()]);
    }
}
