//! The compute halves of the page handlers: what each page shows for a
//! given store answer. Reads that fail degrade to an empty page rather
//! than failing the request.

use vstd::prelude::*;
use crate::types::Chat;
use crate::types::ChatsTemplate;
use crate::types::Message;
use crate::types::MessageForm;
use crate::types::MessageList;
use crate::types::StoreError;

verus! {

/// The chat page for one room: the fetched history with the identity the
/// message form will post as, or an empty page when the read failed.
pub fn message_form_for(
    fetched: Result<(Vec<Message>, u64), StoreError>,
    chat_id: i32,
    user_id: i32,
) -> (r: MessageForm)
    ensures
        r.chat_id == chat_id,
        r.user_id == user_id,
        match fetched {
            Ok(p) => r.messages@ == p.0@,
            Err(_) => r.messages@.len() == 0,
        },
{
    match fetched {
        Ok((messages, _)) => MessageForm { messages, chat_id, user_id },
        Err(_) => MessageForm { messages: Vec::new(), chat_id, user_id },
    }
}

/// The fragment returned after a message was posted: the room's latest
/// history, or an empty list when the read failed.
pub fn message_list_for(fetched: Result<(Vec<Message>, u64), StoreError>, user_id: i32) -> (r:
    MessageList)
    ensures
        r.user_id == user_id,
        match fetched {
            Ok(p) => r.messages@ == p.0@,
            Err(_) => r.messages@.len() == 0,
        },
{
    match fetched {
        Ok((messages, _)) => MessageList { messages, user_id },
        Err(_) => MessageList { messages: Vec::new(), user_id },
    }
}

/// The chat-listing page: the user's rooms, or an empty list when the
/// read failed. The viewer id is narrowed as the page's form field
/// carries it.
pub fn chats_template_for(fetched: Result<(Vec<Chat>, u64), StoreError>, user_id: i64) -> (r:
    ChatsTemplate)
    ensures
        r.user_id == user_id as i32,
        match fetched {
            Ok(p) => r.chats@ == p.0@,
            Err(_) => r.chats@.len() == 0,
        },
{
    let narrowed = #[verifier::truncate] (user_id as i32);
    match fetched {
        Ok((chats, _)) => ChatsTemplate { chats, user_id: narrowed },
        Err(_) => ChatsTemplate { chats: Vec::new(), user_id: narrowed },
    }
}

} // verus!
