//! Data model: persisted messages, rooms, and the request/response
//! shapes that the relay and the page handlers work with.

use vstd::prelude::*;

verus! {

/// A persisted chat message. Immutable once created; the store assigns
/// `id` (monotonic) and `timestamp` (seconds since epoch) at persist time.
#[derive(Debug)]
pub struct Message {
    pub id: i32,
    pub text: String,
    pub user_id: i32,
    pub chat_id: i32,
    pub timestamp: i32,
}

/// Mathematical view of a [`Message`].
pub ghost struct MessageView {
    pub id: int,
    pub text: Seq<char>,
    pub user_id: int,
    pub chat_id: int,
    pub timestamp: int,
}

impl View for Message {
    type V = MessageView;

    open spec fn view(&self) -> MessageView {
        MessageView {
            id: self.id as int,
            text: self.text@,
            user_id: self.user_id as int,
            chat_id: self.chat_id as int,
            timestamp: self.timestamp as int,
        }
    }
}

/// A chat room: identifier and the timestamp of its last activity,
/// bumped on every successful message persist.
#[derive(Clone, Copy, Debug, PartialEq, Eq, Structural)]
pub struct Chat {
    pub id: i32,
    pub last_changed_timestamp: i32,
}

/// One client-submitted wire frame: `{"message": ..., "user_id": ..., "chat_id": ...}`.
#[derive(Debug)]
pub struct MessageRequest {
    pub message: String,
    pub user_id: i32,
    pub chat_id: i32,
}

/// Mathematical view of a [`MessageRequest`].
pub ghost struct MessageRequestView {
    pub message: Seq<char>,
    pub user_id: int,
    pub chat_id: int,
}

impl View for MessageRequest {
    type V = MessageRequestView;

    open spec fn view(&self) -> MessageRequestView {
        MessageRequestView {
            message: self.message@,
            user_id: self.user_id as int,
            chat_id: self.chat_id as int,
        }
    }
}

/// Outbound envelope: the messages pushed to one client, together with
/// that client's own user id (used purely for rendering on its side).
#[derive(Debug)]
pub struct MessageList {
    pub messages: Vec<Message>,
    pub user_id: i32,
}

/// The message page shown when a chat is opened: recent history plus
/// the identity the form posts as.
#[derive(Debug)]
pub struct MessageForm {
    pub messages: Vec<Message>,
    pub chat_id: i32,
    pub user_id: i32,
}

/// Form parameters of a history request.
#[derive(Clone, Copy, Debug, PartialEq, Eq, Structural)]
pub struct GetMessagesRequest {
    pub chat_id: i32,
    pub user_id: i32,
}

/// Form parameters of a chat-listing request.
#[derive(Clone, Copy, Debug, PartialEq, Eq, Structural)]
pub struct GetChatsRequest {
    pub user_id: i64,
}

/// The chat-listing page: the rooms a user takes part in.
#[derive(Debug)]
pub struct ChatsTemplate {
    pub chats: Vec<Chat>,
    pub user_id: i32,
}

/// Connection parameters of the websocket upgrade request.
#[derive(Clone, Copy, Debug, PartialEq, Eq, Structural)]
pub struct ReceiveMessagesRequest {
    pub chat_id: i32,
    pub user_id: i32,
}

/// The landing page.
#[derive(Clone, Copy, Debug)]
pub struct HelloTemplate;

/// Confirmation page returned after a user was created.
#[derive(Clone, Copy, Debug)]
pub struct SuccessMessage {}

/// Form parameters of a user-creation request.
#[derive(Debug)]
pub struct CreateUserRequest {
    pub username: String,
    pub password: String,
}

/// The store could not persist or read what was asked of it.
#[derive(Clone, Copy, Debug, PartialEq, Eq, Structural)]
pub struct StoreError {}

} // verus!
