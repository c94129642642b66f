//! Topic naming: one topic per chat room, derived deterministically
//! from the room id.

use vstd::prelude::*;
use crate::codec::chars_to_string;
use crate::numfmt::push_dec_i32;
use crate::numfmt::spec_int_chars;

verus! {

/// The topic a room's messages travel on: `chat:` followed by the room id.
pub open spec fn spec_topic(chat_id: int) -> Seq<char> {
    seq!['c', 'h', 'a', 't', ':'] + spec_int_chars(chat_id)
}

/// Builds the topic name of a room.
pub fn topic_for_room(chat_id: i32) -> (r: String)
    ensures
        r@ == spec_topic(chat_id as int),
{
    let mut out: Vec<char> = Vec::new();
    out.push('c');
    out.push('h');
    out.push('a');
    out.push('t');
    out.push(':');
    push_dec_i32(&mut out, chat_id);
    proof {
        assert(out@ =~= spec_topic(chat_id as int));
    }
    chars_to_string(&out)
}

/// Distinct rooms have distinct topics: room isolation holds at the
/// level of topic names as well.
pub proof fn lemma_topic_injective(a: int, b: int)
    requires
        -2147483648 <= a <= 2147483647,
        -2147483648 <= b <= 2147483647,
        spec_topic(a) == spec_topic(b),
    ensures
        a == b,
{
    let ta = spec_topic(a);
    let tb = spec_topic(b);
    assert(ta.subrange(5, ta.len() as int) =~= spec_int_chars(a));
    assert(tb.subrange(5, tb.len() as int) =~= spec_int_chars(b));
    crate::numfmt::lemma_int_chars_injective(a, b);
}

} // verus!
