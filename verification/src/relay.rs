//! The two workers of a session: the inbound writer's and the outbound
//! forwarder's decisions, as pure steps from input to action. The
//! runtime reads frames, persists, publishes and writes; these functions
//! decide what it should do next.

use vstd::prelude::*;
use crate::codec::decode_message;
use crate::hub::Hub;
use crate::hub::spec_publish;
use crate::store::ChatDatabase;
use crate::codec::decode_request;
use crate::codec::encode_message;
use crate::codec::spec_decode_message;
use crate::codec::spec_decode_request;
use crate::codec::spec_json_message;
use crate::topic::spec_topic;
use crate::topic::topic_for_room;
use crate::types::Message;
use crate::types::MessageList;
use crate::types::StoreError;

verus! {

/// Why a session ends.
#[derive(Clone, Copy, Debug, PartialEq, Eq, Structural)]
pub enum SessionError {
    /// Malformed inbound frame, or one spoofing another identity.
    Protocol,
    /// The store failed to persist a user-visible send.
    Store,
    /// A transport read or write failed.
    Transport,
}

/// What the inbound writer decides after reading one frame.
pub enum InboundStep {
    /// The frame is valid for this session: persist its text.
    Persist { text: String },
    /// The frame is session-fatal.
    Terminate { error: SessionError },
}

/// What the inbound writer does after the store answered.
pub enum InboundAction {
    /// Persisted: publish the message on the room's topic.
    Publish { topic: String, payload: String },
    /// Persist failed: a user-visible send must not vanish silently, so
    /// the session ends.
    Terminate { error: SessionError },
}

/// Decodes one inbound frame and validates it against the session's
/// bound identity. A frame that does not decode, or that names another
/// user or room than the session was opened for, is session-fatal: a
/// desynchronized or spoofing client, not a frame to skip.
pub fn inbound_on_frame(user_id: i32, chat_id: i32, frame: &str) -> (r: InboundStep)
    ensures
        match spec_decode_request(frame@) {
            Some(q) => {
                if q.user_id == user_id as int && q.chat_id == chat_id as int {
                    match r {
                        InboundStep::Persist { text } => text@ == q.message,
                        _ => false,
                    }
                } else {
                    r == (InboundStep::Terminate { error: SessionError::Protocol })
                }
            },
            None => r == (InboundStep::Terminate { error: SessionError::Protocol }),
        },
{
    match decode_request(frame) {
        Some(q) => {
            if q.user_id == user_id && q.chat_id == chat_id {
                InboundStep::Persist { text: q.message }
            } else {
                InboundStep::Terminate { error: SessionError::Protocol }
            }
        },
        None => InboundStep::Terminate { error: SessionError::Protocol },
    }
}

/// Turns the store's answer into the next step: on success, the
/// persisted message is published — serialized in its wire form — on the
/// topic of the room it belongs to; on failure the session ends.
pub fn inbound_on_persist(result: Result<Message, StoreError>) -> (r: InboundAction)
    ensures
        match result {
            Ok(m) => match r {
                InboundAction::Publish { topic, payload } => topic@ == spec_topic(m.chat_id as int)
                    && payload@ == spec_json_message(m@),
                _ => false,
            },
            Err(_) => r == (InboundAction::Terminate { error: SessionError::Store }),
        },
{
    match result {
        Ok(m) => {
            let topic = topic_for_room(m.chat_id);
            let payload = encode_message(&m);
            InboundAction::Publish { topic, payload }
        },
        Err(_) => InboundAction::Terminate { error: SessionError::Store },
    }
}

/// The chosen publish-failure policy: a failed publish after a
/// successful persist is logged and the session carries on. The message
/// is durably stored; only its live echo is lost, and the connection
/// stays usable. The result says whether the read loop continues, and it
/// always does.
pub fn inbound_on_publish_result(publish_ok: bool) -> (r: bool)
    ensures
        r,
{
    let _ = publish_ok;
    true
}

/// Wraps one bus payload for the client. A payload that decodes is
/// delivered as a one-message envelope stamped with the session's own
/// user id; one that does not is delivered as an empty envelope — a
/// malformed message from some other session must not tear this one
/// down, so the forwarder never terminates here.
pub fn forwarder_on_payload(user_id: i32, payload: &str) -> (r: MessageList)
    ensures
        r.user_id == user_id,
        match spec_decode_message(payload@) {
            Some(m) => r.messages@.len() == 1 && r.messages@[0]@ == m,
            None => r.messages@.len() == 0,
        },
{
    match decode_message(payload) {
        Some(m) => {
            let mut messages: Vec<Message> = Vec::new();
            messages.push(m);
            MessageList { messages, user_id }
        },
        None => MessageList { messages: Vec::new(), user_id },
    }
}

/// A transport write failure is session-fatal; a successful write lets
/// the forwarder loop on.
pub fn forwarder_on_write_result(write_ok: bool) -> (r: Option<SessionError>)
    ensures
        write_ok ==> r is None,
        !write_ok ==> r == Some(SessionError::Transport),
{
    if write_ok {
        None
    } else {
        Some(SessionError::Transport)
    }
}

/// One full inbound step, as the inbound writer runs it: decode the
/// frame, validate it against the session identity, persist the text,
/// and publish the persisted message on the room's topic. Returns the
/// error that ends the session, if any; on it the store and the bus are
/// untouched.
pub fn relay_frame(
    store: &mut ChatDatabase,
    hub: &mut Hub,
    user_id: i32,
    chat_id: i32,
    frame: &str,
    now: i32,
) -> (r: Option<SessionError>)
    requires
        old(store).wf(),
    ensures
        final(store).wf(),
        match spec_decode_request(frame@) {
            Some(q) => {
                if q.user_id == user_id as int && q.chat_id == chat_id as int {
                    if old(store).can_persist() {
                        &&& r is None
                        &&& final(store).messages@.len() == old(store).messages@.len() + 1
                        &&& final(store).messages@.subrange(0, old(store).messages@.len() as int)
                            == old(store).messages@
                        &&& final(store).messages@.last()@.text == q.message
                        &&& final(store).messages@.last()@.user_id == user_id as int
                        &&& final(store).messages@.last()@.chat_id == chat_id as int
                        &&& spec_publish(
                            old(hub).sessions@,
                            final(hub).sessions@,
                            chat_id as int,
                            spec_json_message(final(store).messages@.last()@),
                        )
                    } else {
                        &&& r == Some(SessionError::Store)
                        &&& final(hub).sessions@ == old(hub).sessions@
                        &&& final(store).messages@ == old(store).messages@
                    }
                } else {
                    &&& r == Some(SessionError::Protocol)
                    &&& *final(store) == *old(store)
                    &&& final(hub).sessions@ == old(hub).sessions@
                }
            },
            None => {
                &&& r == Some(SessionError::Protocol)
                &&& *final(store) == *old(store)
                &&& final(hub).sessions@ == old(hub).sessions@
            },
        },
{
    let step = inbound_on_frame(user_id, chat_id, frame);
    match step {
        InboundStep::Terminate { error } => Some(error),
        InboundStep::Persist { text } => {
            let persisted = store.add_message(text, user_id, chat_id, now);
            let action = inbound_on_persist(persisted);
            match action {
                InboundAction::Terminate { error } => Some(error),
                InboundAction::Publish { topic, payload } => {
                    // The in-memory bus routes by room id; the topic
                    // string is what an external bus would be given, and
                    // `lemma_topic_injective` ties the two keyings.
                    let _ = topic;
                    hub.publish(chat_id, payload.as_str());
                    let keep_going = inbound_on_publish_result(true);
                    let _ = keep_going;
                    None
                },
            }
        },
    }
}

} // verus!
