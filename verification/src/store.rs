//! The message store, modelled: durable, ordered storage of messages
//! per room, room records with a last-activity timestamp, room
//! membership, and paginated history reads.
//!
//! The store assigns ids (strictly increasing) and timestamps (clamped
//! to be non-decreasing even if the clock steps back) at persist time,
//! so the stored order is the authoritative per-room order: ascending by
//! timestamp, ties broken by id.

use vstd::prelude::*;
use crate::types::Chat;
use crate::types::Message;
use crate::types::MessageView;
use crate::types::StoreError;

verus! {

/// A user's membership in a chat room.
#[derive(Clone, Copy, Debug, PartialEq, Eq, Structural)]
pub struct Membership {
    pub user_id: i32,
    pub chat_id: i32,
}

pub struct ChatDatabase {
    pub messages: Vec<Message>,
    pub chats: Vec<Chat>,
    pub memberships: Vec<Membership>,
    pub next_id: i32,
    pub last_timestamp: i32,
}

/// The views of a run of messages.
pub open spec fn views_of(s: Seq<Message>) -> Seq<MessageView> {
    s.map_values(|m: Message| m@)
}

/// The messages of one room, in stored (authoritative) order.
pub open spec fn room_of(s: Seq<Message>, chat_id: int) -> Seq<Message> {
    s.filter(|m: Message| m.chat_id as int == chat_id)
}

/// The rooms a user takes part in, by the membership table.
pub open spec fn member_pred(memberships: Seq<Membership>, user_id: int) -> spec_fn(Chat) -> bool {
    |c: Chat|
        exists|t: int|
            0 <= t < memberships.len() && #[trigger] memberships[t].user_id as int == user_id
                && memberships[t].chat_id == c.id
}

/// Number of pages that `n` items make at `k` per page.
pub open spec fn spec_total_pages(n: int, k: int) -> int {
    if n <= 0 {
        0
    } else {
        (n - 1) / k + 1
    }
}

/// Keeps every room record but the one named.
pub open spec fn keep_other(chat_id: i32) -> spec_fn(Chat) -> bool {
    |c: Chat| c.id != chat_id
}

/// Page `page` (1-based) of `v` at `k` per page.
pub open spec fn spec_page<A>(v: Seq<A>, page: int, k: int) -> Seq<A> {
    let start = (page - 1) * k;
    if start >= v.len() || start < 0 {
        Seq::empty()
    } else if start + k >= v.len() {
        v.subrange(start, v.len() as int)
    } else {
        v.subrange(start, start + k)
    }
}

impl ChatDatabase {
    /// Well-formedness: ids are positive, strictly increasing and below
    /// `next_id`; timestamps never decrease and never exceed the high
    /// water mark; room records are unique by id and sorted by last
    /// activity.
    pub open spec fn wf(&self) -> bool {
        &&& self.next_id >= 1
        &&& forall|k: int|
            0 <= k < self.messages@.len() ==> 1 <= #[trigger] self.messages@[k].id
                < self.next_id
        &&& forall|k: int, l: int|
            0 <= k < l < self.messages@.len() ==> self.messages@[k].id < self.messages@[l].id
        &&& forall|k: int, l: int|
            0 <= k < l < self.messages@.len() ==> self.messages@[k].timestamp
                <= self.messages@[l].timestamp
        &&& forall|k: int|
            0 <= k < self.messages@.len() ==> #[trigger] self.messages@[k].timestamp
                <= self.last_timestamp
        &&& forall|k: int, l: int|
            0 <= k < l < self.chats@.len() ==> self.chats@[k].last_changed_timestamp
                <= self.chats@[l].last_changed_timestamp
        &&& forall|k: int, l: int|
            0 <= k < l < self.chats@.len() ==> self.chats@[k].id != self.chats@[l].id
        &&& forall|k: int|
            0 <= k < self.chats@.len() ==> #[trigger] self.chats@[k].last_changed_timestamp
                <= self.last_timestamp
    }

    /// An empty store.
    pub fn new() -> (r: ChatDatabase)
        ensures
            r.wf(),
            r.messages@ == Seq::<Message>::empty(),
            r.chats@ == Seq::<Chat>::empty(),
            r.memberships@ == Seq::<Membership>::empty(),
            r.next_id == 1,
            r.last_timestamp == 0,
    {
        ChatDatabase {
            messages: Vec::new(),
            chats: Vec::new(),
            memberships: Vec::new(),
            next_id: 1,
            last_timestamp: 0,
        }
    }

    /// Whether another message can still be persisted (the id space is
    /// not exhausted).
    pub open spec fn can_persist(&self) -> bool {
        self.next_id < 2147483647
    }

    /// Records that a user takes part in a room.
    pub fn add_membership(&mut self, user_id: i32, chat_id: i32)
        requires
            old(self).wf(),
        ensures
            final(self).wf(),
            final(self).memberships@ == old(self).memberships@.push(
                Membership { user_id, chat_id },
            ),
            final(self).messages@ == old(self).messages@,
            final(self).chats@ == old(self).chats@,
            final(self).next_id == old(self).next_id,
            final(self).last_timestamp == old(self).last_timestamp,
    {
        self.memberships.push(Membership { user_id, chat_id });
    }

    /// Persists one message: assigns the next id and a server timestamp
    /// (the given clock reading, clamped so that stored timestamps never
    /// decrease), appends it to the room's history, and upserts the
    /// room's record — created on first message, its last-activity
    /// timestamp bumped and its place in the activity order updated
    /// otherwise. Fails only when the id space is exhausted.
    pub fn add_message(&mut self, text: String, user_id: i32, chat_id: i32, now: i32) -> (r:
        Result<Message, StoreError>)
        requires
            old(self).wf(),
        ensures
            final(self).wf(),
            !old(self).can_persist() ==> r is Err && final(self).messages@ == old(self).messages@
                && final(self).chats@ == old(self).chats@ && final(self).memberships@ == old(self).memberships@ && final(self).next_id == old(self).next_id && final(self).last_timestamp == old(self).last_timestamp,
            old(self).can_persist() ==> match r {
                Ok(m) => {
                    let ts = if now > old(self).last_timestamp {
                        now as int
                    } else {
                        old(self).last_timestamp as int
                    };
                    &&& m@ == (MessageView {
                        id: old(self).next_id as int,
                        text: text@,
                        user_id: user_id as int,
                        chat_id: chat_id as int,
                        timestamp: ts,
                    })
                    &&& final(self).messages@.len() == old(self).messages@.len() + 1
                    &&& final(self).messages@.subrange(0, old(self).messages@.len() as int) == old(self).messages@
                    &&& final(self).messages@.last()@ == m@
                    &&& final(self).next_id == old(self).next_id + 1
                    &&& final(self).last_timestamp as int == ts
                    &&& final(self).chats@ == old(self).chats@.filter(keep_other(chat_id)).push(
                        Chat { id: chat_id, last_changed_timestamp: m.timestamp },
                    )
                    &&& final(self).memberships@ == old(self).memberships@
                },
                Err(_) => false,
            },
    {
        if self.next_id >= 2147483647 {
            return Err(StoreError {});
        }
        let ts = if now > self.last_timestamp {
            now
        } else {
            self.last_timestamp
        };
        let stored = Message { id: self.next_id, text: text.clone(), user_id, chat_id, timestamp: ts };
        let m = Message { id: self.next_id, text, user_id, chat_id, timestamp: ts };
        self.messages.push(stored);
        proof {
            assert(self.messages@.subrange(0, old(self).messages@.len() as int) =~= old(self).messages@);
        }
        self.next_id = self.next_id + 1;
        self.last_timestamp = ts;
        self.upsert_chat_record(chat_id, ts);
        Ok(m)
    }

    /// Rewrites the room list with the given room's record at the end,
    /// carrying the new last-activity timestamp.
    fn upsert_chat_record(&mut self, chat_id: i32, ts: i32)
        requires
            forall|k: int, l: int|
                0 <= k < l < old(self).chats@.len() ==> old(self).chats@[k].last_changed_timestamp
                    <= old(self).chats@[l].last_changed_timestamp,
            forall|k: int, l: int|
                0 <= k < l < old(self).chats@.len() ==> old(self).chats@[k].id != old(self).chats@[l].id,
            forall|k: int|
                0 <= k < old(self).chats@.len() ==> #[trigger] old(self).chats@[k].last_changed_timestamp <= ts,
        ensures
            final(self).chats@ == old(self).chats@.filter(keep_other(chat_id)).push(
                Chat { id: chat_id, last_changed_timestamp: ts },
            ),
            forall|k: int, l: int|
                0 <= k < l < final(self).chats@.len() ==> final(self).chats@[k].last_changed_timestamp
                    <= final(self).chats@[l].last_changed_timestamp,
            forall|k: int, l: int|
                0 <= k < l < final(self).chats@.len() ==> final(self).chats@[k].id != final(self).chats@[l].id,
            forall|k: int|
                0 <= k < final(self).chats@.len() ==> #[trigger] final(self).chats@[k].last_changed_timestamp <= ts,
            final(self).messages@ == old(self).messages@,
            final(self).memberships@ == old(self).memberships@,
            final(self).next_id == old(self).next_id,
            final(self).last_timestamp == old(self).last_timestamp,
    {
        let n = self.chats.len();
        let mut kept: Vec<Chat> = Vec::new();
        let mut k: usize = 0;
        while k < n
            invariant
                k <= n,
                n == self.chats@.len(),
                forall|a: int, b: int|
                    0 <= a < b < self.chats@.len() ==> self.chats@[a].last_changed_timestamp
                        <= self.chats@[b].last_changed_timestamp,
                forall|a: int, b: int|
                    0 <= a < b < self.chats@.len() ==> self.chats@[a].id != self.chats@[b].id,
                forall|a: int|
                    0 <= a < self.chats@.len() ==> #[trigger] self.chats@[a].last_changed_timestamp
                        <= ts,
                kept@ == self.chats@.take(k as int).filter(keep_other(chat_id)),
                forall|a: int, b: int|
                    0 <= a < b < kept@.len() ==> kept@[a].last_changed_timestamp
                        <= kept@[b].last_changed_timestamp,
                forall|a: int, b: int|
                    0 <= a < b < kept@.len() ==> kept@[a].id != kept@[b].id,
                forall|a: int|
                    0 <= a < kept@.len() ==> #[trigger] kept@[a].id != chat_id,
                forall|a: int|
                    0 <= a < kept@.len() ==> #[trigger] kept@[a].last_changed_timestamp <= ts,
                forall|a: int|
                    0 <= a < kept@.len() ==> exists|t: int|
                        0 <= t < k && #[trigger] kept@[a] == self.chats@[t],
            decreases n - k,
        {
            let c = self.chats[k];
            proof {
                let taken = self.chats@.take(k as int);
                assert(self.chats@.take((k + 1) as int) =~= taken.push(c));
                assert(taken.push(c).drop_last() =~= taken);
                reveal(Seq::filter);
                assert(taken.push(c).filter(keep_other(chat_id)) == if c.id != chat_id {
                    taken.filter(keep_other(chat_id)).push(c)
                } else {
                    taken.filter(keep_other(chat_id))
                });
            }
            if c.id != chat_id {
                let ghost before = kept@;
                kept.push(c);
                proof {
                    // Everything already kept stands earlier in the room
                    // list than `c`, so order and id-uniqueness carry over.
                    assert forall|a: int| 0 <= a < before.len() implies before[a].last_changed_timestamp
                        <= c.last_changed_timestamp && before[a].id != c.id by {
                        let t = choose|t: int| 0 <= t < k && before[a] == self.chats@[t];
                        assert(self.chats@[t].last_changed_timestamp
                            <= self.chats@[k as int].last_changed_timestamp);
                        assert(self.chats@[t].id != self.chats@[k as int].id);
                    }
                }
            }
            k = k + 1;
        }
        proof {
            assert(self.chats@.take(n as int) =~= self.chats@);
        }
        kept.push(Chat { id: chat_id, last_changed_timestamp: ts });
        self.chats = kept;
    }
}

impl ChatDatabase {
    /// The start and end of page `page` at `per` per page over `total`
    /// items, together with the total page count `ceil(total / per)`.
    /// A page past the end is the empty window.
    fn page_window(total: usize, page: u64, per: u64) -> (r: (usize, usize, u64))
        requires
            page >= 1,
            per >= 1,
        ensures
            r.2 as int == spec_total_pages(total as int, per as int),
            (((page - 1) as int * per as int) >= total as int) ==> r.0 == 0 && r.1 == 0,
            (((page - 1) as int * per as int) < total as int) ==> {
                &&& r.0 as int == (page - 1) as int * per as int
                &&& r.1 as int == if r.0 + per >= total {
                    total as int
                } else {
                    r.0 as int + per as int
                }
                &&& r.0 <= r.1 <= total
            },
    {
        let total64 = total as u64;
        let tp: u64 = if total64 == 0 {
            0
        } else {
            (total64 - 1) / per + 1
        };
        if page - 1 >= tp {
            proof {
                if total64 != 0 {
                    let q = (total as int - 1) / per as int;
                    assert((page - 1) as int * per as int >= (q + 1) * per as int)
                        by (nonlinear_arith)
                        requires
                            (page - 1) as int >= q + 1,
                            per as int >= 1;
                    assert((q + 1) * per as int >= total as int) by (nonlinear_arith)
                        requires
                            q == (total as int - 1) / per as int,
                            per as int >= 1,
                            total as int >= 1;
                }
            }
            return (0, 0, tp);
        }
        proof {
            let q = (total as int - 1) / per as int;
            assert(total as int >= 1);
            assert((page - 1) as int * per as int <= q * per as int) by (nonlinear_arith)
                requires
                    (page - 1) as int <= q,
                    per as int >= 1,
                    0 <= (page - 1) as int;
            assert(q * per as int <= total as int - 1) by (nonlinear_arith)
                requires
                    q == (total as int - 1) / per as int,
                    per as int >= 1,
                    total as int >= 1;
        }
        let start64 = (page - 1) * per;
        let start = start64 as usize;
        let end = if per >= total64 - start64 {
            total
        } else {
            start + per as usize
        };
        (start, end, tp)
    }

    /// Copies one room's messages, in stored order.
    fn room_messages(&self, chat_id: i64) -> (r: Vec<Message>)
        requires
            self.wf(),
        ensures
            views_of(r@) == views_of(room_of(self.messages@, chat_id as int)),
            forall|a: int, b: int|
                0 <= a < b < r@.len() ==> r@[a].timestamp <= r@[b].timestamp && r@[a].id
                    < r@[b].id,
    {
        let n = self.messages.len();
        let mut out: Vec<Message> = Vec::new();
        let mut k: usize = 0;
        while k < n
            invariant
                k <= n,
                n == self.messages@.len(),
                self.wf(),
                views_of(out@) == views_of(room_of(self.messages@.take(k as int), chat_id as int)),
                forall|a: int, b: int|
                    0 <= a < b < out@.len() ==> out@[a].timestamp <= out@[b].timestamp
                        && out@[a].id < out@[b].id,
                forall|a: int|
                    0 <= a < out@.len() ==> exists|t: int|
                        0 <= t < k && #[trigger] out@[a]@ == self.messages@[t]@,
            decreases n - k,
        {
            let matches_room = (self.messages[k].chat_id as i64) == chat_id;
            proof {
                let taken = self.messages@.take(k as int);
                let c = self.messages@[k as int];
                assert(self.messages@.take((k + 1) as int) =~= taken.push(c));
                assert(taken.push(c).drop_last() =~= taken);
                reveal(Seq::filter);
                assert(room_of(taken.push(c), chat_id as int) == if c.chat_id as int
                    == chat_id as int {
                    room_of(taken, chat_id as int).push(c)
                } else {
                    room_of(taken, chat_id as int)
                });
            }
            if matches_room {
                let ghost before = out@;
                let m = &self.messages[k];
                let copied = Message {
                    id: m.id,
                    text: m.text.clone(),
                    user_id: m.user_id,
                    chat_id: m.chat_id,
                    timestamp: m.timestamp,
                };
                out.push(copied);
                proof {
                    let taken = self.messages@.take(k as int);
                    let c = self.messages@[k as int];
                    assert(views_of(out@) =~= views_of(room_of(taken, chat_id as int)).push(c@));
                    assert(views_of(room_of(taken, chat_id as int).push(c)) =~= views_of(
                        room_of(taken, chat_id as int),
                    ).push(c@));
                    assert forall|a: int| 0 <= a < before.len() implies before[a].timestamp
                        <= c.timestamp && before[a].id < c.id by {
                        let t = choose|t: int| 0 <= t < k && before[a]@ == self.messages@[t]@;
                        assert(self.messages@[t].timestamp <= self.messages@[k as int].timestamp);
                        assert(self.messages@[t].id < self.messages@[k as int].id);
                    }
                }
            }
            k = k + 1;
        }
        proof {
            assert(self.messages@.take(n as int) =~= self.messages@);
        }
        out
    }

    /// One page of a room's history, ascending by time (ties broken by
    /// id), and the total page count. Mirrors the paginated history
    /// read: page numbers start at 1, and a page past the end is empty.
    pub fn get_chat_messages_by_id(&self, chat_id: i64, page: u64, messages_per_page: u64) -> (r:
        Result<(Vec<Message>, u64), StoreError>)
        requires
            self.wf(),
            page >= 1,
            messages_per_page >= 1,
        ensures
            match r {
                Ok(p) => {
                    let room = views_of(room_of(self.messages@, chat_id as int));
                    &&& p.1 as int == spec_total_pages(room.len() as int, messages_per_page as int)
                    &&& views_of(p.0@) == spec_page(room, page as int, messages_per_page as int)
                    &&& forall|a: int, b: int|
                        0 <= a < b < p.0@.len() ==> p.0@[a].timestamp <= p.0@[b].timestamp
                            && p.0@[a].id < p.0@[b].id
                },
                Err(_) => false,
            },
    {
        let room = self.room_messages(chat_id);
        let total = room.len();
        let (start, end, tp) = Self::page_window(total, page, messages_per_page);
        let mut out: Vec<Message> = Vec::new();
        let mut k = start;
        while k < end
            invariant
                start <= k <= end <= room@.len(),
                out@.len() == k - start,
                forall|a: int|
                    0 <= a < out@.len() ==> #[trigger] out@[a]@ == room@[start + a]@,
            decreases end - k,
        {
            let m = &room[k];
            let copied = Message {
                id: m.id,
                text: m.text.clone(),
                user_id: m.user_id,
                chat_id: m.chat_id,
                timestamp: m.timestamp,
            };
            proof {
                assert(copied@ == room@[k as int]@);
            }
            out.push(copied);
            k = k + 1;
        }
        proof {
            assert(views_of(out@) =~= views_of(room@).subrange(start as int, end as int));
        }
        proof {
            let roomv = views_of(room_of(self.messages@, chat_id as int));
            assert(views_of(room@).len() == room@.len());
            if ((page - 1) as int * messages_per_page as int) >= room@.len() {
                assert(views_of(out@) =~= spec_page(roomv, page as int, messages_per_page as int));
            } else {
                assert(views_of(out@) =~= spec_page(roomv, page as int, messages_per_page as int));
            }
            assert forall|a: int, b: int| 0 <= a < b < out@.len() implies out@[a].timestamp
                <= out@[b].timestamp && out@[a].id < out@[b].id by {
                assert(out@[a]@ == room@[start + a]@);
                assert(out@[b]@ == room@[start + b]@);
            }
        }
        Ok((out, tp))
    }

    /// One page of the rooms a user takes part in, ascending by last
    /// activity, and the total page count.
    pub fn get_chats_by_user_id(&self, user_id: i64, page: u64, chats_per_page: u64) -> (r: Result<
        (Vec<Chat>, u64),
        StoreError,
    >)
        requires
            self.wf(),
            page >= 1,
            chats_per_page >= 1,
        ensures
            match r {
                Ok(p) => {
                    let rooms = self.chats@.filter(member_pred(self.memberships@, user_id as int));
                    &&& p.1 as int == spec_total_pages(rooms.len() as int, chats_per_page as int)
                    &&& p.0@ == spec_page(rooms, page as int, chats_per_page as int)
                },
                Err(_) => false,
            },
    {
        let n = self.chats.len();
        let mut mine: Vec<Chat> = Vec::new();
        let mut k: usize = 0;
        while k < n
            invariant
                k <= n,
                n == self.chats@.len(),
                mine@ == self.chats@.take(k as int).filter(
                    member_pred(self.memberships@, user_id as int),
                ),
            decreases n - k,
        {
            let c = self.chats[k];
            let is_member = self.member_of(user_id, c.id);
            proof {
                let taken = self.chats@.take(k as int);
                assert(self.chats@.take((k + 1) as int) =~= taken.push(c));
                assert(taken.push(c).drop_last() =~= taken);
                reveal(Seq::filter);
                assert(taken.push(c).filter(member_pred(self.memberships@, user_id as int))
                    == if member_pred(self.memberships@, user_id as int)(c) {
                    taken.filter(member_pred(self.memberships@, user_id as int)).push(c)
                } else {
                    taken.filter(member_pred(self.memberships@, user_id as int))
                });
            }
            if is_member {
                mine.push(c);
            }
            k = k + 1;
        }
        proof {
            assert(self.chats@.take(n as int) =~= self.chats@);
        }
        let total = mine.len();
        let (start, end, tp) = Self::page_window(total, page, chats_per_page);
        let mut out: Vec<Chat> = Vec::new();
        let mut j = start;
        while j < end
            invariant
                start <= j <= end <= mine@.len(),
                out@ == mine@.subrange(start as int, j as int),
            decreases end - j,
        {
            out.push(mine[j]);
            proof {
                assert(out@ =~= mine@.subrange(start as int, (j + 1) as int));
            }
            j = j + 1;
        }
        proof {
            let rooms = self.chats@.filter(member_pred(self.memberships@, user_id as int));
            assert(out@ =~= spec_page(rooms, page as int, chats_per_page as int));
        }
        Ok((out, tp))
    }

    /// Whether the membership table holds this user in this room.
    fn member_of(&self, user_id: i64, chat_id: i32) -> (r: bool)
        ensures
            r == exists|t: int|
                0 <= t < self.memberships@.len() && #[trigger] self.memberships@[t].user_id as int
                    == user_id as int && self.memberships@[t].chat_id == chat_id,
    {
        let n = self.memberships.len();
        let mut k: usize = 0;
        while k < n
            invariant
                k <= n,
                n == self.memberships@.len(),
                forall|t: int|
                    0 <= t < k ==> !(#[trigger] self.memberships@[t].user_id as int == user_id as int
                        && self.memberships@[t].chat_id == chat_id),
            decreases n - k,
        {
            let e = self.memberships[k];
            if (e.user_id as i64) == user_id && e.chat_id == chat_id {
                return true;
            }
            k = k + 1;
        }
        false
    }
}

/// Exactly-once placement: element `i` of a paginated sequence stands
/// on page `i/k + 1` at offset `i % k` — and, since a page's entry `j`
/// is always element `(p-1)k + j`, on no other page and at no other
/// offset.
pub proof fn lemma_page_of_index<A>(v: Seq<A>, k: int, i: int)
    requires
        k >= 1,
        0 <= i < v.len(),
    ensures
        1 <= i / k + 1 <= spec_total_pages(v.len() as int, k),
        0 <= i % k < spec_page(v, i / k + 1, k).len(),
        spec_page(v, i / k + 1, k)[i % k] == v[i],
{
    let n = v.len() as int;
    let p = i / k + 1;
    assert(0 <= i / k && i / k * k <= i < i / k * k + k && i % k == i - i / k * k)
        by (nonlinear_arith)
        requires
            k >= 1,
            0 <= i;
    assert(i / k <= (n - 1) / k) by (nonlinear_arith)
        requires
            k >= 1,
            0 <= i <= n - 1;
    assert((p - 1) * k == i / k * k);
}

/// History pagination round-trip, taken together with
/// `lemma_page_of_index`: over any room history `v` read at `k` messages
/// per page, the pages partition the history — page `p` holds exactly
/// the elements from `(p-1)k` on, every page before the last is full,
/// the last page holds the remainder, and every page past `ceil(len/k)`
/// is empty.
#[verifier::rlimit(100)]
pub proof fn lemma_pagination_roundtrip<A>(v: Seq<A>, k: int)
    requires
        k >= 1,
    ensures
        forall|p: int, j: int|
            1 <= p && 0 <= j < spec_page(v, p, k).len() ==> #[trigger] spec_page(v, p, k)[j] == v[
                (p - 1) * k + j
            ],
        forall|p: int|
            1 <= p && p > spec_total_pages(v.len() as int, k) ==> spec_page(v, p, k)
                == Seq::<A>::empty(),
        forall|p: int|
            1 <= p <= spec_total_pages(v.len() as int, k) ==> spec_page(v, p, k).len() == (if p
                * k <= v.len() {
                k
            } else {
                v.len() - (p - 1) * k
            }),
{
    let n = v.len() as int;
    let tp = spec_total_pages(n, k);
    assert forall|p: int| 1 <= p && p > tp implies spec_page(v, p, k) == Seq::<A>::empty() by {
        if n > 0 {
            assert((p - 1) * k >= ((n - 1) / k + 1) * k) by (nonlinear_arith)
                requires
                    p - 1 >= (n - 1) / k + 1,
                    k >= 1;
            assert(((n - 1) / k + 1) * k >= n) by (nonlinear_arith)
                requires
                    k >= 1,
                    n >= 1;
            assert(spec_page(v, p, k) =~= Seq::<A>::empty());
        } else {
            assert((p - 1) * k >= 0) by (nonlinear_arith)
                requires
                    p >= 1,
                    k >= 1;
            assert(spec_page(v, p, k) =~= Seq::<A>::empty());
        }
    }
    assert forall|p: int| 1 <= p <= tp implies spec_page(v, p, k).len() == (if p * k <= n {
        k
    } else {
        n - (p - 1) * k
    }) by {
        assert((p - 1) * k <= (tp - 1) * k) by (nonlinear_arith)
            requires
                p <= tp,
                k >= 1;
        assert((tp - 1) * k <= n - 1) by (nonlinear_arith)
            requires
                tp == (n - 1) / k + 1,
                k >= 1,
                n >= 1;
        assert(p * k == (p - 1) * k + k) by (nonlinear_arith);
    }
}

} // verus!
