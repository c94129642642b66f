//! The topic bus, modelled: sessions subscribe to one room each, and a
//! publish to a room appends the payload to the outbox of every active
//! session of that room — and of no other session. The runtime drains
//! each session's outbox into its outbound forwarder.

use vstd::prelude::*;
use crate::codec::lemma_decode_encode_message;
use crate::codec::msg_fields_i32;
use crate::codec::spec_decode_message;
use crate::codec::spec_json_message;
use crate::types::MessageView;

verus! {

/// One session as the bus sees it: its identity, whether its
/// subscription is still held, and the payloads delivered to it.
pub struct HubSession {
    pub user_id: i32,
    pub chat_id: i32,
    pub active: bool,
    pub outbox: Vec<String>,
}

/// The bus: all sessions of all rooms.
pub struct Hub {
    pub sessions: Vec<HubSession>,
}

/// What one publish to `chat_id` with `payload` does: every active
/// session of that room has the payload appended to its outbox, and
/// every other session — other room, or unsubscribed — is untouched.
pub open spec fn spec_publish(
    pre: Seq<HubSession>,
    post: Seq<HubSession>,
    chat_id: int,
    payload: Seq<char>,
) -> bool {
    &&& post.len() == pre.len()
    &&& forall|k: int|
        0 <= k < pre.len() ==> {
            let a = pre[k];
            let b = #[trigger] post[k];
            &&& b.user_id == a.user_id
            &&& b.chat_id == a.chat_id
            &&& b.active == a.active
            &&& if a.active && a.chat_id == chat_id {
                &&& b.outbox@.len() == a.outbox@.len() + 1
                &&& b.outbox@.subrange(0, a.outbox@.len() as int) == a.outbox@
                &&& b.outbox@.last()@ == payload
            } else {
                b.outbox@ == a.outbox@
            }
        }
}

impl Hub {
    /// A bus with no sessions.
    pub fn new() -> (r: Hub)
        ensures
            r.sessions@ == Seq::<HubSession>::empty(),
    {
        Hub { sessions: Vec::new() }
    }

    /// A session joins: it subscribes to its room and starts with an
    /// empty outbox. Returns the session's index.
    pub fn connect(&mut self, user_id: i32, chat_id: i32) -> (sid: usize)
        ensures
            sid == old(self).sessions@.len(),
            final(self).sessions@.len() == old(self).sessions@.len() + 1,
            final(self).sessions@.subrange(0, old(self).sessions@.len() as int) == old(
                self,
            ).sessions@,
            final(self).sessions@.last().user_id == user_id,
            final(self).sessions@.last().chat_id == chat_id,
            final(self).sessions@.last().active,
            final(self).sessions@.last().outbox@ == Seq::<String>::empty(),
    {
        let sid = self.sessions.len();
        self.sessions.push(HubSession { user_id, chat_id, active: true, outbox: Vec::new() });
        proof {
            assert(final(self).sessions@.subrange(0, old(self).sessions@.len() as int) =~= old(
                self,
            ).sessions@);
        }
        sid
    }

    /// A session's subscription is released; its identity and what it
    /// already received stay as they are, every other session untouched.
    pub fn disconnect(&mut self, sid: usize)
        requires
            sid < old(self).sessions@.len(),
        ensures
            final(self).sessions@.len() == old(self).sessions@.len(),
            final(self).sessions@[sid as int].user_id == old(self).sessions@[sid as int].user_id,
            final(self).sessions@[sid as int].chat_id == old(self).sessions@[sid as int].chat_id,
            !final(self).sessions@[sid as int].active,
            final(self).sessions@[sid as int].outbox@ == old(self).sessions@[sid as int].outbox@,
            forall|k: int|
                0 <= k < old(self).sessions@.len() && k != sid ==> final(self).sessions@[k] == old(
                    self,
                ).sessions@[k],
    {
        let mut s = self.sessions.remove(sid);
        s.active = false;
        let ghost prev = old(self).sessions@;
        self.sessions.insert(sid, s);
        proof {
            assert(final(self).sessions@ =~= prev.update(sid as int, final(self).sessions@[sid as int]));
        }
    }

    /// Publishes one payload on a room's topic: fan-out to every active
    /// session of the room, isolation for everyone else.
    pub fn publish(&mut self, chat_id: i32, payload: &str)
        ensures
            spec_publish(old(self).sessions@, final(self).sessions@, chat_id as int, payload@),
    {
        let n = self.sessions.len();
        let mut k: usize = 0;
        while k < n
            invariant
                n == self.sessions@.len(),
                k <= n,
                old(self).sessions@.len() == n,
                forall|t: int|
                    k <= t < n ==> self.sessions@[t] == old(self).sessions@[t],
                forall|t: int|
                    0 <= t < k ==> {
                        let a = old(self).sessions@[t];
                        let b = #[trigger] self.sessions@[t];
                        &&& b.user_id == a.user_id
                        &&& b.chat_id == a.chat_id
                        &&& b.active == a.active
                        &&& if a.active && a.chat_id == chat_id as int {
                            &&& b.outbox@.len() == a.outbox@.len() + 1
                            &&& b.outbox@.subrange(0, a.outbox@.len() as int) == a.outbox@
                            &&& b.outbox@.last()@ == payload@
                        } else {
                            b.outbox@ == a.outbox@
                        }
                    },
            decreases n - k,
        {
            let active = self.sessions[k].active;
            let room = self.sessions[k].chat_id;
            if active && room == chat_id {
                let ghost prev = self.sessions@;
                let mut s = self.sessions.remove(k);
                let ghost oldbox = s.outbox@;
                s.outbox.push(payload.to_owned());
                proof {
                    assert(s.outbox@.subrange(0, oldbox.len() as int) =~= oldbox);
                }
                self.sessions.insert(k, s);
                proof {
                    assert(self.sessions@ =~= prev.update(k as int, self.sessions@[k as int]));
                }
            }
            k = k + 1;
        }
    }
}

/// Cross-session fan-out, with delivery: after a message is published on
/// its room's topic in its wire form, every active session of that room
/// — the author's own included, for a consistent echo — holds a payload
/// that decodes back to exactly that message.
pub proof fn lemma_fanout_delivery(
    pre: Seq<HubSession>,
    post: Seq<HubSession>,
    chat_id: int,
    m: MessageView,
    j: int,
)
    requires
        msg_fields_i32(m),
        m.chat_id == chat_id,
        spec_publish(pre, post, chat_id, spec_json_message(m)),
        0 <= j < pre.len(),
        pre[j].active,
        pre[j].chat_id == chat_id,
    ensures
        post[j].outbox@.len() == pre[j].outbox@.len() + 1,
        spec_decode_message(post[j].outbox@.last()@) == Some(m),
{
    lemma_decode_encode_message(m);
}

/// Isolation across rooms: a publish to one room leaves the outbox of
/// every session of any other room exactly as it was — nothing of the
/// payload is ever observed there.
pub proof fn lemma_room_isolation(
    pre: Seq<HubSession>,
    post: Seq<HubSession>,
    chat_id: int,
    payload: Seq<char>,
    j: int,
)
    requires
        spec_publish(pre, post, chat_id, payload),
        0 <= j < pre.len(),
        pre[j].chat_id != chat_id,
    ensures
        post[j].outbox@ == pre[j].outbox@,
{
}

} // verus!
