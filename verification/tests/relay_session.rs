use webserver::codec::encode_message;
use webserver::hub::Hub;
use webserver::relay::{
    forwarder_on_payload, forwarder_on_write_result, inbound_on_frame, inbound_on_persist,
    inbound_on_publish_result, relay_frame, InboundAction, InboundStep, SessionError,
};
use webserver::store::ChatDatabase;
use webserver::supervisor::{Action, Phase, Supervisor, Worker};
use webserver::types::Message;

#[test]
fn inbound_accepts_matching_frame() {
    let step = inbound_on_frame(1, 1, "{\"message\":\"hi\",\"user_id\":1,\"chat_id\":1}");
    match step {
        InboundStep::Persist { text } => assert_eq!(text, "hi"),
        InboundStep::Terminate { .. } => panic!("valid frame must persist"),
    }
}

#[test]
fn inbound_rejects_identity_mismatch() {
    // The frame claims another user; treating it as valid would let a
    // client spoof cross-user sends through the message body.
    let step = inbound_on_frame(1, 1, "{\"message\":\"hi\",\"user_id\":2,\"chat_id\":1}");
    assert!(matches!(step, InboundStep::Terminate { error: SessionError::Protocol }));
    let step = inbound_on_frame(1, 1, "{\"message\":\"hi\",\"user_id\":1,\"chat_id\":2}");
    assert!(matches!(step, InboundStep::Terminate { error: SessionError::Protocol }));
}

#[test]
fn inbound_rejects_malformed_frame() {
    let step = inbound_on_frame(1, 1, "{\"garbage\": true}");
    assert!(matches!(step, InboundStep::Terminate { error: SessionError::Protocol }));
}

#[test]
fn persist_success_publishes_to_room_topic() {
    let m = Message { id: 4, text: "hi".to_string(), user_id: 1, chat_id: 9, timestamp: 100 };
    match inbound_on_persist(Ok(m)) {
        InboundAction::Publish { topic, payload } => {
            assert_eq!(topic, "chat:9");
            assert_eq!(
                payload,
                "{\"id\":4,\"text\":\"hi\",\"user_id\":1,\"chat_id\":9,\"timestamp\":100}"
            );
        },
        InboundAction::Terminate { .. } => panic!("persist success must publish"),
    }
}

#[test]
fn persist_failure_is_session_fatal() {
    let r = inbound_on_persist(Err(webserver::types::StoreError {}));
    assert!(matches!(r, InboundAction::Terminate { error: SessionError::Store }));
}

#[test]
fn publish_failure_is_not_session_fatal() {
    // The documented policy: the persisted message survives, only the
    // live echo is lost, and the read loop carries on either way.
    assert!(inbound_on_publish_result(true));
    assert!(inbound_on_publish_result(false));
}

#[test]
fn forwarder_delivers_valid_payload() {
    let m = Message { id: 1, text: "hi".to_string(), user_id: 1, chat_id: 1, timestamp: 5 };
    let payload = encode_message(&m);
    let envelope = forwarder_on_payload(8, &payload);
    assert_eq!(envelope.user_id, 8);
    assert_eq!(envelope.messages.len(), 1);
    assert_eq!(envelope.messages[0].text, "hi");
}

#[test]
fn forwarder_skips_malformed_payload() {
    // A malformed payload from some other session must not tear this
    // session down: an empty envelope, and the loop continues.
    let envelope = forwarder_on_payload(8, "definitely not a message");
    assert_eq!(envelope.user_id, 8);
    assert_eq!(envelope.messages.len(), 0);
    // ... and the next valid payload still arrives.
    let m = Message { id: 2, text: "after".to_string(), user_id: 1, chat_id: 1, timestamp: 6 };
    let next = forwarder_on_payload(8, &encode_message(&m));
    assert_eq!(next.messages.len(), 1);
    assert_eq!(next.messages[0].text, "after");
}

#[test]
fn forwarder_write_failure_terminates() {
    assert!(forwarder_on_write_result(true).is_none());
    assert_eq!(forwarder_on_write_result(false), Some(SessionError::Transport));
}

#[test]
fn supervisor_balances_subscription_on_inbound_failure() {
    // Teardown on half-failure: the inbound writer dies; the outbound
    // forwarder is cancelled, the subscription released, the transport
    // closed — all from that single event.
    let mut s = Supervisor::new(1, 1);
    let acts = s.on_subscribe_ok();
    assert_eq!(acts, vec![Action::SpawnWorkers]);
    assert_eq!(s.subscribes, 1);
    let acts = s.on_worker_exit(Worker::Inbound);
    assert_eq!(acts, vec![Action::CancelOutbound, Action::Unsubscribe, Action::CloseTransport]);
    assert!(!s.subscribed);
    assert!(s.transport_closed);
    assert_eq!(s.phase, Phase::Draining);
    assert_eq!(s.subscribes, s.unsubscribes);
    // The second exit changes nothing more: teardown is idempotent.
    let acts = s.on_worker_exit(Worker::Outbound);
    assert!(acts.is_empty());
    assert_eq!(s.phase, Phase::Closed);
    assert_eq!(s.subscribes, 1);
    assert_eq!(s.unsubscribes, 1);
}

#[test]
fn supervisor_balances_subscription_on_outbound_failure() {
    let mut s = Supervisor::new(1, 1);
    s.on_subscribe_ok();
    let acts = s.on_worker_exit(Worker::Outbound);
    assert_eq!(acts, vec![Action::CancelInbound, Action::Unsubscribe, Action::CloseTransport]);
    let _ = s.on_worker_exit(Worker::Inbound);
    assert_eq!(s.phase, Phase::Closed);
    assert_eq!(s.subscribes, s.unsubscribes);
}

#[test]
fn supervisor_subscribe_failure_closes_without_leak() {
    let mut s = Supervisor::new(1, 1);
    let acts = s.on_subscribe_err();
    assert_eq!(acts, vec![Action::CloseTransport]);
    assert_eq!(s.phase, Phase::Closed);
    assert_eq!(s.subscribes, 0);
    assert_eq!(s.unsubscribes, 0);
}

#[test]
fn supervisor_grace_period_closes_stuck_worker() {
    let mut s = Supervisor::new(1, 1);
    s.on_subscribe_ok();
    s.on_worker_exit(Worker::Inbound);
    // The cancelled forwarder never acknowledges; the grace period
    // expires and the session is abandoned as closed, nothing leaked.
    s.on_grace_expired();
    assert_eq!(s.phase, Phase::Closed);
    assert_eq!(s.subscribes, s.unsubscribes);
}

#[test]
fn self_message_echo_and_fanout() {
    let mut store = ChatDatabase::new();
    let mut hub = Hub::new();
    let alice = hub.connect(1, 1);
    let bob = hub.connect(2, 1);
    let carol = hub.connect(3, 2);

    let r = relay_frame(&mut store, &mut hub, 1, 1, "{\"message\":\"hi\",\"user_id\":1,\"chat_id\":1}", 1000);
    assert!(r.is_none());

    // Self-echo: the author's own session received the payload.
    assert_eq!(hub.sessions[alice].outbox.len(), 1);
    let own = forwarder_on_payload(1, &hub.sessions[alice].outbox[0]);
    assert_eq!(own.user_id, 1);
    assert_eq!(own.messages.len(), 1);
    assert_eq!(own.messages[0].text, "hi");
    assert_eq!(own.messages[0].user_id, 1);

    // Cross-session fan-out: the other session of the room as well.
    assert_eq!(hub.sessions[bob].outbox.len(), 1);
    let theirs = forwarder_on_payload(2, &hub.sessions[bob].outbox[0]);
    assert_eq!(theirs.user_id, 2);
    assert_eq!(theirs.messages[0].text, "hi");

    // Isolation: the session in the other room observed nothing.
    assert_eq!(hub.sessions[carol].outbox.len(), 0);

    // And the reverse direction of the fan-out.
    let r = relay_frame(&mut store, &mut hub, 2, 1, "{\"message\":\"yo\",\"user_id\":2,\"chat_id\":1}", 1001);
    assert!(r.is_none());
    assert_eq!(hub.sessions[alice].outbox.len(), 2);
    let echo = forwarder_on_payload(1, &hub.sessions[alice].outbox[1]);
    assert_eq!(echo.messages[0].text, "yo");
    assert_eq!(echo.messages[0].user_id, 2);
    assert_eq!(hub.sessions[carol].outbox.len(), 0);
}

#[test]
fn relay_frame_rejects_spoofed_identity() {
    let mut store = ChatDatabase::new();
    let mut hub = Hub::new();
    let sid = hub.connect(1, 1);
    let r = relay_frame(&mut store, &mut hub, 1, 1, "{\"message\":\"hi\",\"user_id\":2,\"chat_id\":1}", 1000);
    assert_eq!(r, Some(SessionError::Protocol));
    assert_eq!(hub.sessions[sid].outbox.len(), 0);
    assert_eq!(store.messages.len(), 0);
}

#[test]
fn disconnected_session_receives_nothing() {
    let mut store = ChatDatabase::new();
    let mut hub = Hub::new();
    let alice = hub.connect(1, 1);
    let bob = hub.connect(2, 1);
    hub.disconnect(bob);
    let r = relay_frame(&mut store, &mut hub, 1, 1, "{\"message\":\"hi\",\"user_id\":1,\"chat_id\":1}", 1000);
    assert!(r.is_none());
    assert_eq!(hub.sessions[alice].outbox.len(), 1);
    assert_eq!(hub.sessions[bob].outbox.len(), 0);
}
