//! The JSON wire format of the relay.
//!
//! Two shapes travel over the wire: the client-submitted frame
//! `{"message": <string>, "user_id": <int>, "chat_id": <int>}` and the
//! persisted message `{"id": .., "text": .., "user_id": .., "chat_id": ..,
//! "timestamp": ..}` that is published on a room's topic. Both are read
//! and written in a canonical form: fields in the order above, no extra
//! whitespace, strings escaped as in `esc_char`. A frame that deviates
//! from the canonical form fails to decode; for inbound frames that is
//! session-fatal, for bus payloads the forwarder skips the frame.
//!
//! `spec_json_message`/`spec_json_request` define the encodings;
//! `spec_decode_message`/`spec_decode_request` the parses. The
//! `lemma_decode_encode_*` lemmas prove that decoding inverts encoding.

use vstd::prelude::*;
use vstd::string::StrSliceExecFns;
use crate::numfmt::digit_char;
use crate::numfmt::lemma_digits_end_of;
use crate::numfmt::lemma_digits_val_bound;
use crate::numfmt::lemma_pow10_mono;
use crate::numfmt::pow10;
use crate::numfmt::push_dec_i32;
use crate::types::Message;
use crate::types::MessageRequest;
use crate::numfmt::digit_val;
use crate::numfmt::digits_val;
use crate::numfmt::is_digit;
use crate::numfmt::lemma_parse_int_of_chars;
use crate::numfmt::spec_int_chars;
use crate::numfmt::spec_parse_int;
use crate::types::MessageView;
use crate::types::MessageRequestView;

verus! {

/// Lowercase hexadecimal digit character for `d` (meaningful for `0 <= d <= 15`).
pub open spec fn hex_char(d: int) -> char {
    if d < 10 {
        digit_char(d)
    } else {
        (87 + d) as char
    }
}

pub open spec fn is_lhex(c: char) -> bool {
    is_digit(c) || ('a' <= c && c <= 'f')
}

/// Numeric value of a lowercase hexadecimal digit character.
pub open spec fn hex_val(c: char) -> int {
    if is_digit(c) {
        digit_val(c)
    } else {
        c as int - 87
    }
}

/// JSON escape of one character: quotes and backslashes get a backslash,
/// control characters a `\u00..` form, everything else stands as itself.
pub open spec fn esc_char(c: char) -> Seq<char> {
    if c == '"' {
        seq!['\\', '"']
    } else if c == '\\' {
        seq!['\\', '\\']
    } else if (c as u32) < 32 {
        seq!['\\', 'u', '0', '0', hex_char((c as u32 / 16) as int), hex_char((c as u32 % 16) as int)]
    } else {
        seq![c]
    }
}

/// JSON escape of a whole string body.
pub open spec fn spec_escape(t: Seq<char>) -> Seq<char>
    decreases t.len(),
{
    if t.len() == 0 {
        Seq::empty()
    } else {
        esc_char(t[0]) + spec_escape(t.drop_first())
    }
}

pub proof fn lemma_escape_snoc(t: Seq<char>, c: char)
    ensures
        spec_escape(t.push(c)) == spec_escape(t) + esc_char(c),
    decreases t.len(),
{
    if t.len() == 0 {
        assert(t.push(c)[0] == c);
        assert(t.push(c).drop_first() =~= Seq::<char>::empty());
        assert(spec_escape(Seq::<char>::empty()) == Seq::<char>::empty());
        assert(spec_escape(t.push(c)) =~= spec_escape(t) + esc_char(c));
    } else {
        assert(t.push(c)[0] == t[0]);
        assert(t.push(c).drop_first() =~= t.drop_first().push(c));
        lemma_escape_snoc(t.drop_first(), c);
        assert(spec_escape(t.push(c)) =~= spec_escape(t) + esc_char(c));
    }
}

/// Matches the fixed characters `lit` at index `i`; yields the index past them.
pub open spec fn spec_match_lit(s: Seq<char>, i: int, lit: Seq<char>) -> Option<int> {
    if 0 <= i && i + lit.len() <= s.len() && s.subrange(i, i + lit.len() as int) == lit {
        Some(i + lit.len() as int)
    } else {
        None
    }
}

/// Prepends `c` to the content of a string-parse result.
pub open spec fn jstring_cons(c: char, r: Option<(Seq<char>, int)>) -> Option<(Seq<char>, int)> {
    match r {
        Some((t, j)) => Some((seq![c] + t, j)),
        None => None,
    }
}

/// Parses an escaped JSON string body starting at `i`, up to and including
/// the closing quote. Yields the unescaped content and the index past the
/// closing quote.
pub open spec fn spec_parse_jstring(s: Seq<char>, i: int) -> Option<(Seq<char>, int)>
    decreases s.len() - i,
{
    if i < 0 || i >= s.len() {
        None
    } else if s[i] == '"' {
        Some((Seq::empty(), i + 1))
    } else if s[i] == '\\' {
        if i + 1 < s.len() {
            if s[i + 1] == '"' {
                jstring_cons('"', spec_parse_jstring(s, i + 2))
            } else if s[i + 1] == '\\' {
                jstring_cons('\\', spec_parse_jstring(s, i + 2))
            } else if s[i + 1] == 'u' {
                if i + 5 < s.len() && s[i + 2] == '0' && s[i + 3] == '0' && is_lhex(s[i + 4])
                    && is_lhex(s[i + 5]) && hex_val(s[i + 4]) * 16 + hex_val(s[i + 5]) < 32 {
                    jstring_cons(
                        (hex_val(s[i + 4]) * 16 + hex_val(s[i + 5])) as char,
                        spec_parse_jstring(s, i + 6),
                    )
                } else {
                    None
                }
            } else {
                None
            }
        } else {
            None
        }
    } else if (s[i] as u32) < 32 {
        None
    } else {
        jstring_cons(s[i], spec_parse_jstring(s, i + 1))
    }
}

pub open spec fn lit_msg_head() -> Seq<char> {
    seq!['{', '"', 'i', 'd', '"', ':']
}

pub open spec fn lit_text() -> Seq<char> {
    seq![',', '"', 't', 'e', 'x', 't', '"', ':', '"']
}

pub open spec fn lit_user_id() -> Seq<char> {
    seq![',', '"', 'u', 's', 'e', 'r', '_', 'i', 'd', '"', ':']
}

pub open spec fn lit_chat_id() -> Seq<char> {
    seq![',', '"', 'c', 'h', 'a', 't', '_', 'i', 'd', '"', ':']
}

pub open spec fn lit_timestamp() -> Seq<char> {
    seq![',', '"', 't', 'i', 'm', 'e', 's', 't', 'a', 'm', 'p', '"', ':']
}

pub open spec fn lit_req_head() -> Seq<char> {
    seq!['{', '"', 'm', 'e', 's', 's', 'a', 'g', 'e', '"', ':', '"']
}

pub open spec fn lit_close() -> Seq<char> {
    seq!['}']
}

/// Canonical wire form of a persisted message.
pub open spec fn spec_json_message(m: MessageView) -> Seq<char> {
    lit_msg_head() + (spec_int_chars(m.id) + (lit_text() + ((spec_escape(m.text) + seq!['"'])
        + (lit_user_id() + (spec_int_chars(m.user_id) + (lit_chat_id() + (spec_int_chars(m.chat_id)
        + (lit_timestamp() + (spec_int_chars(m.timestamp) + lit_close())))))))))
}

/// Canonical wire form of a client frame.
pub open spec fn spec_json_request(q: MessageRequestView) -> Seq<char> {
    lit_req_head() + ((spec_escape(q.message) + seq!['"']) + (lit_user_id()
        + (spec_int_chars(q.user_id) + (lit_chat_id() + (spec_int_chars(q.chat_id) + lit_close())))))
}

/// Parses a whole persisted-message payload. `None` on any deviation
/// from the canonical form.
pub open spec fn spec_decode_message(s: Seq<char>) -> Option<MessageView> {
    match spec_match_lit(s, 0, lit_msg_head()) {
        None => None,
        Some(i1) => match spec_parse_int(s, i1) {
            None => None,
            Some((id, i2)) => match spec_match_lit(s, i2, lit_text()) {
                None => None,
                Some(i3) => match spec_parse_jstring(s, i3) {
                    None => None,
                    Some((text, i4)) => match spec_match_lit(s, i4, lit_user_id()) {
                        None => None,
                        Some(i5) => match spec_parse_int(s, i5) {
                            None => None,
                            Some((user_id, i6)) => match spec_match_lit(s, i6, lit_chat_id()) {
                                None => None,
                                Some(i7) => match spec_parse_int(s, i7) {
                                    None => None,
                                    Some((chat_id, i8)) => match spec_match_lit(s, i8, lit_timestamp()) {
                                        None => None,
                                        Some(i9) => match spec_parse_int(s, i9) {
                                            None => None,
                                            Some((timestamp, i10)) => match spec_match_lit(s, i10, lit_close()) {
                                                None => None,
                                                Some(i11) => if i11 == s.len() {
                                                    Some(MessageView { id, text, user_id, chat_id, timestamp })
                                                } else {
                                                    None
                                                },
                                            },
                                        },
                                    },
                                },
                            },
                        },
                    },
                },
            },
        },
    }
}

/// Parses a whole client frame. `None` on any deviation from the
/// canonical form.
pub open spec fn spec_decode_request(s: Seq<char>) -> Option<MessageRequestView> {
    match spec_match_lit(s, 0, lit_req_head()) {
        None => None,
        Some(i1) => match spec_parse_jstring(s, i1) {
            None => None,
            Some((message, i2)) => match spec_match_lit(s, i2, lit_user_id()) {
                None => None,
                Some(i3) => match spec_parse_int(s, i3) {
                    None => None,
                    Some((user_id, i4)) => match spec_match_lit(s, i4, lit_chat_id()) {
                        None => None,
                        Some(i5) => match spec_parse_int(s, i5) {
                            None => None,
                            Some((chat_id, i6)) => match spec_match_lit(s, i6, lit_close()) {
                                None => None,
                                Some(i7) => if i7 == s.len() {
                                    Some(MessageRequestView { message, user_id, chat_id })
                                } else {
                                    None
                                },
                            },
                        },
                    },
                },
            },
        },
    }
}

/// Splits knowledge of a concatenation standing in `s` into its two halves.
proof fn lemma_subrange_split(s: Seq<char>, i: int, a: Seq<char>, b: Seq<char>)
    requires
        0 <= i,
        i + a.len() + b.len() <= s.len(),
        s.subrange(i, i + a.len() + b.len()) == a + b,
    ensures
        s.subrange(i, i + a.len() as int) == a,
        s.subrange(i + a.len() as int, i + a.len() + b.len()) == b,
{
    let l = i + a.len() + b.len();
    assert forall|k: int| 0 <= k < a.len() implies s.subrange(i, i + a.len() as int)[k] == a[k] by {
        assert(s.subrange(i, l)[k] == (a + b)[k]);
    }
    assert(s.subrange(i, i + a.len() as int) =~= a);
    assert forall|k: int| 0 <= k < b.len() implies s.subrange(
        i + a.len() as int,
        i + a.len() + b.len(),
    )[k] == b[k] by {
        assert(s.subrange(i, l)[k + a.len()] == (a + b)[k + a.len()]);
    }
    assert(s.subrange(i + a.len() as int, i + a.len() + b.len()) =~= b);
}

/// Parsing a string body inverts escaping: the escaped content followed by
/// a closing quote reads back as the content.
proof fn lemma_parse_jstring_of(s: Seq<char>, i: int, t: Seq<char>)
    requires
        0 <= i,
        i + spec_escape(t).len() + 1 <= s.len(),
        s.subrange(i, i + spec_escape(t).len() as int) == spec_escape(t),
        s[i + spec_escape(t).len()] == '"',
    ensures
        spec_parse_jstring(s, i) == Some((t, i + spec_escape(t).len() + 1)),
    decreases t.len(),
{
    let e = spec_escape(t);
    if t.len() == 0 {
        assert(e.len() == 0);
        assert(s[i] == '"');
    } else {
        let c = t[0];
        let t1 = t.drop_first();
        let ec = esc_char(c);
        let e1 = spec_escape(t1);
        assert(e == ec + e1);
        lemma_subrange_split(s, i, ec, e1);
        let sub = s.subrange(i, i + ec.len() as int);
        assert(sub == ec);
        let i1 = i + ec.len() as int;
        assert(s[i1 + e1.len()] == '"');
        lemma_parse_jstring_of(s, i1, t1);
        assert(t =~= seq![c] + t1);
        if c == '"' {
            assert(sub[0] == s[i] && sub[1] == s[i + 1]);
            assert(s[i] == '\\' && s[i + 1] == '"');
            assert(spec_parse_jstring(s, i) == jstring_cons('"', spec_parse_jstring(s, i + 2)));
        } else if c == '\\' {
            assert(sub[0] == s[i] && sub[1] == s[i + 1]);
            assert(s[i] == '\\' && s[i + 1] == '\\');
            assert(spec_parse_jstring(s, i) == jstring_cons('\\', spec_parse_jstring(s, i + 2)));
        } else if (c as u32) < 32 {
            assert(sub[0] == s[i] && sub[1] == s[i + 1] && sub[2] == s[i + 2] && sub[3] == s[i + 3]
                && sub[4] == s[i + 4] && sub[5] == s[i + 5]);
            assert(s[i] == '\\' && s[i + 1] == 'u' && s[i + 2] == '0' && s[i + 3] == '0');
            let v = c as u32;
            let h1 = hex_char((v / 16) as int);
            let h2 = hex_char((v % 16) as int);
            assert(s[i + 4] == h1 && s[i + 5] == h2);
            assert(0 <= v / 16 < 2 && 0 <= v % 16 < 16) by (nonlinear_arith)
                requires
                    v < 32;
            assert(is_lhex(h1) && hex_val(h1) == v / 16);
            assert(is_lhex(h2) && hex_val(h2) == v % 16);
            assert(hex_val(h1) * 16 + hex_val(h2) == v) by {
                assert((v / 16) * 16 + v % 16 == v) by (nonlinear_arith);
            }
            vstd::utf8::char_u32_cast(c, v);
            assert(((hex_val(h1) * 16 + hex_val(h2)) as char) == c);
            assert(i + 5 < s.len());
            assert(spec_parse_jstring(s, i) == jstring_cons(c, spec_parse_jstring(s, i + 6)));
        } else {
            assert(sub[0] == s[i]);
            assert(s[i] == c);
            assert(spec_parse_jstring(s, i) == jstring_cons(c, spec_parse_jstring(s, i + 1)));
        }
    }
}

/// `i32` bounds of every numeric field of a message view.
pub open spec fn msg_fields_i32(m: MessageView) -> bool {
    &&& -2147483648 <= m.id <= 2147483647
    &&& -2147483648 <= m.user_id <= 2147483647
    &&& -2147483648 <= m.chat_id <= 2147483647
    &&& -2147483648 <= m.timestamp <= 2147483647
}

/// `i32` bounds of every numeric field of a request view.
pub open spec fn req_fields_i32(q: MessageRequestView) -> bool {
    &&& -2147483648 <= q.user_id <= 2147483647
    &&& -2147483648 <= q.chat_id <= 2147483647
}

// Offsets of the pieces of an encoded message, in order of appearance.
spec fn msg_off1(m: MessageView) -> int {
    lit_msg_head().len() as int
}

spec fn msg_off2(m: MessageView) -> int {
    msg_off1(m) + spec_int_chars(m.id).len()
}

spec fn msg_off3(m: MessageView) -> int {
    msg_off2(m) + lit_text().len()
}

/// Offset of the quote closing the text field.
spec fn msg_offq(m: MessageView) -> int {
    msg_off3(m) + spec_escape(m.text).len()
}

spec fn msg_off4(m: MessageView) -> int {
    msg_offq(m) + 1
}

spec fn msg_off5(m: MessageView) -> int {
    msg_off4(m) + lit_user_id().len()
}

spec fn msg_off6(m: MessageView) -> int {
    msg_off5(m) + spec_int_chars(m.user_id).len()
}

spec fn msg_off7(m: MessageView) -> int {
    msg_off6(m) + lit_chat_id().len()
}

spec fn msg_off8(m: MessageView) -> int {
    msg_off7(m) + spec_int_chars(m.chat_id).len()
}

spec fn msg_off9(m: MessageView) -> int {
    msg_off8(m) + lit_timestamp().len()
}

spec fn msg_off10(m: MessageView) -> int {
    msg_off9(m) + spec_int_chars(m.timestamp).len()
}

/// The identifier fields and closing brace of an encoded message.
spec fn msg_tail(m: MessageView) -> Seq<char> {
    lit_user_id() + (spec_int_chars(m.user_id) + (lit_chat_id() + (spec_int_chars(m.chat_id)
        + (lit_timestamp() + (spec_int_chars(m.timestamp) + lit_close())))))
}

/// Where each piece of the first half of an encoded message stands.
#[verifier::rlimit(100)]
proof fn lemma_msg_layout_head(m: MessageView, s: Seq<char>)
    requires
        s == spec_json_message(m),
    ensures
        s.subrange(0, msg_off1(m)) == lit_msg_head(),
        s.subrange(msg_off1(m), msg_off2(m)) == spec_int_chars(m.id),
        s.subrange(msg_off2(m), msg_off3(m)) == lit_text(),
        s.subrange(msg_off3(m), msg_offq(m)) == spec_escape(m.text),
        s[msg_offq(m)] == '"',
        s.subrange(msg_off4(m), s.len() as int) == msg_tail(m),
        msg_off4(m) + msg_tail(m).len() == s.len(),
{
    let p0 = lit_msg_head();
    let p1 = spec_int_chars(m.id);
    let p2 = lit_text();
    let p3 = spec_escape(m.text) + seq!['"'];
    let rest = msg_tail(m);
    assert(s.subrange(0, s.len() as int) =~= s);
    lemma_subrange_split(s, 0, p0, p1 + (p2 + (p3 + rest)));
    lemma_subrange_split(s, msg_off1(m), p1, p2 + (p3 + rest));
    lemma_subrange_split(s, msg_off2(m), p2, p3 + rest);
    lemma_subrange_split(s, msg_off3(m), p3, rest);
    lemma_subrange_split(s, msg_off3(m), spec_escape(m.text), seq!['"']);
    assert(s.subrange(msg_offq(m), msg_off4(m))[0] == s[msg_offq(m)]);
}

/// Where each piece of the second half of an encoded message stands.
#[verifier::rlimit(100)]
proof fn lemma_msg_layout_tail(m: MessageView, s: Seq<char>)
    requires
        0 <= msg_off4(m),
        s.subrange(msg_off4(m), s.len() as int) == msg_tail(m),
        msg_off4(m) + msg_tail(m).len() == s.len(),
    ensures
        s.subrange(msg_off4(m), msg_off5(m)) == lit_user_id(),
        s.subrange(msg_off5(m), msg_off6(m)) == spec_int_chars(m.user_id),
        s.subrange(msg_off6(m), msg_off7(m)) == lit_chat_id(),
        s.subrange(msg_off7(m), msg_off8(m)) == spec_int_chars(m.chat_id),
        s.subrange(msg_off8(m), msg_off9(m)) == lit_timestamp(),
        s.subrange(msg_off9(m), msg_off10(m)) == spec_int_chars(m.timestamp),
        s.subrange(msg_off10(m), msg_off10(m) + 1) == lit_close(),
        msg_off10(m) + 1 == s.len(),
{
    let p4 = lit_user_id();
    let p5 = spec_int_chars(m.user_id);
    let p6 = lit_chat_id();
    let p7 = spec_int_chars(m.chat_id);
    let p8 = lit_timestamp();
    let p9 = spec_int_chars(m.timestamp);
    let p10 = lit_close();
    lemma_subrange_split(s, msg_off4(m), p4, p5 + (p6 + (p7 + (p8 + (p9 + p10)))));
    lemma_subrange_split(s, msg_off5(m), p5, p6 + (p7 + (p8 + (p9 + p10))));
    lemma_subrange_split(s, msg_off6(m), p6, p7 + (p8 + (p9 + p10)));
    lemma_subrange_split(s, msg_off7(m), p7, p8 + (p9 + p10));
    lemma_subrange_split(s, msg_off8(m), p8, p9 + p10);
    lemma_subrange_split(s, msg_off9(m), p9, p10);
}

/// The first pieces of an encoded message parse back to the fields they encode.
#[verifier::rlimit(100)]
proof fn lemma_msg_parses_head(m: MessageView, s: Seq<char>)
    requires
        msg_fields_i32(m),
        s == spec_json_message(m),
    ensures
        spec_match_lit(s, 0, lit_msg_head()) == Some(msg_off1(m)),
        spec_parse_int(s, msg_off1(m)) == Some((m.id, msg_off2(m))),
        spec_match_lit(s, msg_off2(m), lit_text()) == Some(msg_off3(m)),
        spec_parse_jstring(s, msg_off3(m)) == Some((m.text, msg_off4(m))),
{
    lemma_msg_layout_head(m, s);
    lemma_msg_layout_tail(m, s);
    let i1 = msg_off1(m);
    let i2 = msg_off2(m);
    let i3 = msg_off3(m);
    assert(spec_match_lit(s, 0, lit_msg_head()) == Some(i1));
    assert(spec_match_lit(s, i2, lit_text()) == Some(i3));
    // The id is followed by a non-digit.
    assert(s.subrange(i2, i3)[0] == s[i2]);
    assert(s[i2] == ',');
    lemma_parse_int_of_chars(s, i1, m.id);
    lemma_parse_jstring_of(s, i3, m.text);
}

/// The identifier pieces of an encoded message parse back to the fields
/// they encode.
#[verifier::rlimit(100)]
proof fn lemma_msg_parses_ids(m: MessageView, s: Seq<char>)
    requires
        msg_fields_i32(m),
        s == spec_json_message(m),
    ensures
        spec_match_lit(s, msg_off4(m), lit_user_id()) == Some(msg_off5(m)),
        spec_parse_int(s, msg_off5(m)) == Some((m.user_id, msg_off6(m))),
        spec_match_lit(s, msg_off6(m), lit_chat_id()) == Some(msg_off7(m)),
        spec_parse_int(s, msg_off7(m)) == Some((m.chat_id, msg_off8(m))),
{
    lemma_msg_layout_head(m, s);
    lemma_msg_layout_tail(m, s);
    let i4 = msg_off4(m);
    let i5 = msg_off5(m);
    let i6 = msg_off6(m);
    let i7 = msg_off7(m);
    let i8 = msg_off8(m);
    let i9 = msg_off9(m);
    assert(spec_match_lit(s, i4, lit_user_id()) == Some(i5));
    assert(spec_match_lit(s, i6, lit_chat_id()) == Some(i7));
    // Each number is followed by a non-digit.
    assert(s.subrange(i6, i7)[0] == s[i6]);
    assert(s[i6] == ',');
    lemma_parse_int_of_chars(s, i5, m.user_id);
    assert(s.subrange(i8, i9)[0] == s[i8]);
    assert(s[i8] == ',');
    lemma_parse_int_of_chars(s, i7, m.chat_id);
}

/// The timestamp and closing brace of an encoded message parse back, and
/// nothing follows them.
#[verifier::rlimit(100)]
proof fn lemma_msg_parses_end(m: MessageView, s: Seq<char>)
    requires
        msg_fields_i32(m),
        s == spec_json_message(m),
    ensures
        spec_match_lit(s, msg_off8(m), lit_timestamp()) == Some(msg_off9(m)),
        spec_parse_int(s, msg_off9(m)) == Some((m.timestamp, msg_off10(m))),
        spec_match_lit(s, msg_off10(m), lit_close()) == Some(msg_off10(m) + 1),
        msg_off10(m) + 1 == s.len(),
{
    lemma_msg_layout_head(m, s);
    lemma_msg_layout_tail(m, s);
    let i8 = msg_off8(m);
    let i9 = msg_off9(m);
    let i10 = msg_off10(m);
    assert(spec_match_lit(s, i8, lit_timestamp()) == Some(i9));
    assert(spec_match_lit(s, i10, lit_close()) == Some(i10 + 1));
    assert(s.subrange(i10, i10 + 1)[0] == s[i10]);
    assert(s[i10] == '}');
    lemma_parse_int_of_chars(s, i9, m.timestamp);
    assert(i10 + 1 == s.len());
}

/// Decoding inverts encoding for persisted messages.
#[verifier::rlimit(100)]
pub proof fn lemma_decode_encode_message(m: MessageView)
    requires
        msg_fields_i32(m),
    ensures
        spec_decode_message(spec_json_message(m)) == Some(m),
{
    let s = spec_json_message(m);
    lemma_msg_parses_head(m, s);
    lemma_msg_parses_ids(m, s);
    lemma_msg_parses_end(m, s);
}

// Offsets of the pieces of an encoded client frame, in order of appearance.
spec fn req_off1(q: MessageRequestView) -> int {
    lit_req_head().len() as int
}

/// Offset of the quote closing the message field.
spec fn req_offq(q: MessageRequestView) -> int {
    req_off1(q) + spec_escape(q.message).len()
}

spec fn req_off2(q: MessageRequestView) -> int {
    req_offq(q) + 1
}

spec fn req_off3(q: MessageRequestView) -> int {
    req_off2(q) + lit_user_id().len()
}

spec fn req_off4(q: MessageRequestView) -> int {
    req_off3(q) + spec_int_chars(q.user_id).len()
}

spec fn req_off5(q: MessageRequestView) -> int {
    req_off4(q) + lit_chat_id().len()
}

spec fn req_off6(q: MessageRequestView) -> int {
    req_off5(q) + spec_int_chars(q.chat_id).len()
}

/// Where each piece of an encoded client frame stands.
#[verifier::rlimit(100)]
proof fn lemma_req_layout(q: MessageRequestView, s: Seq<char>)
    requires
        s == spec_json_request(q),
    ensures
        s.subrange(0, req_off1(q)) == lit_req_head(),
        s.subrange(req_off1(q), req_offq(q)) == spec_escape(q.message),
        s[req_offq(q)] == '"',
        s.subrange(req_off2(q), req_off3(q)) == lit_user_id(),
        s.subrange(req_off3(q), req_off4(q)) == spec_int_chars(q.user_id),
        s.subrange(req_off4(q), req_off5(q)) == lit_chat_id(),
        s.subrange(req_off5(q), req_off6(q)) == spec_int_chars(q.chat_id),
        s.subrange(req_off6(q), req_off6(q) + 1) == lit_close(),
        req_off6(q) + 1 == s.len(),
{
    let p0 = lit_req_head();
    let p1 = spec_escape(q.message) + seq!['"'];
    let p2 = lit_user_id();
    let p3 = spec_int_chars(q.user_id);
    let p4 = lit_chat_id();
    let p5 = spec_int_chars(q.chat_id);
    let p6 = lit_close();
    assert(s.subrange(0, s.len() as int) =~= s);
    lemma_subrange_split(s, 0, p0, p1 + (p2 + (p3 + (p4 + (p5 + p6)))));
    lemma_subrange_split(s, req_off1(q), p1, p2 + (p3 + (p4 + (p5 + p6))));
    lemma_subrange_split(s, req_off2(q), p2, p3 + (p4 + (p5 + p6)));
    lemma_subrange_split(s, req_off3(q), p3, p4 + (p5 + p6));
    lemma_subrange_split(s, req_off4(q), p4, p5 + p6);
    lemma_subrange_split(s, req_off5(q), p5, p6);
    lemma_subrange_split(s, req_off1(q), spec_escape(q.message), seq!['"']);
    assert(s.subrange(req_offq(q), req_off2(q))[0] == s[req_offq(q)]);
}

/// Every piece of an encoded client frame parses back to the field it encodes.
#[verifier::rlimit(100)]
proof fn lemma_req_parses(q: MessageRequestView, s: Seq<char>)
    requires
        req_fields_i32(q),
        s == spec_json_request(q),
    ensures
        spec_match_lit(s, 0, lit_req_head()) == Some(req_off1(q)),
        spec_parse_jstring(s, req_off1(q)) == Some((q.message, req_off2(q))),
        spec_match_lit(s, req_off2(q), lit_user_id()) == Some(req_off3(q)),
        spec_parse_int(s, req_off3(q)) == Some((q.user_id, req_off4(q))),
        spec_match_lit(s, req_off4(q), lit_chat_id()) == Some(req_off5(q)),
        spec_parse_int(s, req_off5(q)) == Some((q.chat_id, req_off6(q))),
        spec_match_lit(s, req_off6(q), lit_close()) == Some(req_off6(q) + 1),
        req_off6(q) + 1 == s.len(),
{
    lemma_req_layout(q, s);
    let i1 = req_off1(q);
    let i2 = req_off2(q);
    let i3 = req_off3(q);
    let i4 = req_off4(q);
    let i5 = req_off5(q);
    let i6 = req_off6(q);
    assert(spec_match_lit(s, 0, lit_req_head()) == Some(i1));
    assert(spec_match_lit(s, i2, lit_user_id()) == Some(i3));
    assert(spec_match_lit(s, i4, lit_chat_id()) == Some(i5));
    assert(spec_match_lit(s, i6, lit_close()) == Some(i6 + 1));
    assert(s.subrange(i2, i3)[0] == s[i2]);
    assert(s[i2] == ',');
    lemma_parse_int_of_chars(s, i3, q.user_id);
    assert(s.subrange(i4, i5)[0] == s[i4]);
    assert(s[i4] == ',');
    lemma_parse_int_of_chars(s, i5, q.chat_id);
    assert(s.subrange(i6, i6 + 1)[0] == s[i6]);
    assert(s[i6] == '}');
    lemma_parse_jstring_of(s, i1, q.message);
    assert(i6 + 1 == s.len());
}

/// Decoding inverts encoding for client frames.
#[verifier::rlimit(100)]
pub proof fn lemma_decode_encode_request(q: MessageRequestView)
    requires
        req_fields_i32(q),
    ensures
        spec_decode_request(spec_json_request(q)) == Some(q),
{
    let s = spec_json_request(q);
    lemma_req_parses(q, s);
}

/// Relies on String::push: appends one character to the string.
#[verifier::external_body]
fn push_char(s: &mut String, c: char)
    ensures
        final(s)@ == old(s)@.push(c),
{
    s.push(c);
}

/// Builds a string holding exactly the given characters.
pub fn chars_to_string(v: &Vec<char>) -> (s: String)
    ensures
        s@ == v@,
{
    let mut s = String::new();
    let mut k: usize = 0;
    while k < v.len()
        invariant
            k <= v@.len(),
            s@ == v@.take(k as int),
        decreases v@.len() - k,
    {
        push_char(&mut s, v[k]);
        proof {
            assert(v@.take((k + 1) as int) =~= v@.take(k as int).push(v@[k as int]));
        }
        k = k + 1;
    }
    proof {
        assert(v@.take(v@.len() as int) =~= v@);
    }
    s
}

/// Appends the characters of `lit` to `out`.
fn push_lit(out: &mut Vec<char>, lit: &str)
    ensures
        final(out)@ == old(out)@ + lit@,
{
    let n = lit.unicode_len();
    let mut k: usize = 0;
    while k < n
        invariant
            k <= n,
            n == lit@.len(),
            out@ == old(out)@ + lit@.take(k as int),
        decreases n - k,
    {
        let c = lit.get_char(k);
        out.push(c);
        proof {
            assert(lit@.take((k + 1) as int) =~= lit@.take(k as int).push(lit@[k as int]));
            assert(out@ =~= old(out)@ + lit@.take((k + 1) as int));
        }
        k = k + 1;
    }
    proof {
        assert(lit@.take(n as int) =~= lit@);
    }
}

fn hex_char_of(d: u32) -> (r: char)
    requires
        d < 16,
    ensures
        r == hex_char(d as int),
{
    if d < 10 {
        (48 + d as u8) as char
    } else {
        (87 + d as u8) as char
    }
}

/// Appends the JSON escape of `t` to `out`.
fn push_escaped(out: &mut Vec<char>, t: &str)
    ensures
        final(out)@ == old(out)@ + spec_escape(t@),
{
    let n = t.unicode_len();
    let mut k: usize = 0;
    while k < n
        invariant
            k <= n,
            n == t@.len(),
            out@ == old(out)@ + spec_escape(t@.take(k as int)),
        decreases n - k,
    {
        let c = t.get_char(k);
        proof {
            lemma_escape_snoc(t@.take(k as int), c);
            assert(t@.take((k + 1) as int) =~= t@.take(k as int).push(c));
        }
        if c == '"' {
            out.push('\\');
            out.push('"');
        } else if c == '\\' {
            out.push('\\');
            out.push('\\');
        } else if (c as u32) < 32 {
            out.push('\\');
            out.push('u');
            out.push('0');
            out.push('0');
            let hi = (c as u32) / 16;
            let lo = (c as u32) % 16;
            out.push(hex_char_of(hi));
            out.push(hex_char_of(lo));
        } else {
            out.push(c);
        }
        proof {
            assert(out@ =~= old(out)@ + spec_escape(t@.take((k + 1) as int)));
        }
        k = k + 1;
    }
    proof {
        assert(t@.take(n as int) =~= t@);
    }
}

/// Writes a persisted message in its canonical wire form.
#[verifier::rlimit(100)]
pub fn encode_message(m: &Message) -> (r: String)
    ensures
        r@ == spec_json_message(m@),
{
    proof {
        reveal_strlit("{\"id\":");
        reveal_strlit(",\"text\":\"");
        reveal_strlit(",\"user_id\":");
        reveal_strlit(",\"chat_id\":");
        reveal_strlit(",\"timestamp\":");
        assert("{\"id\":"@ =~= lit_msg_head());
        assert(",\"text\":\""@ =~= lit_text());
        assert(",\"user_id\":"@ =~= lit_user_id());
        assert(",\"chat_id\":"@ =~= lit_chat_id());
        assert(",\"timestamp\":"@ =~= lit_timestamp());
    }
    let mut out: Vec<char> = Vec::new();
    push_lit(&mut out, "{\"id\":");
    push_dec_i32(&mut out, m.id);
    push_lit(&mut out, ",\"text\":\"");
    push_escaped(&mut out, m.text.as_str());
    out.push('"');
    push_lit(&mut out, ",\"user_id\":");
    push_dec_i32(&mut out, m.user_id);
    push_lit(&mut out, ",\"chat_id\":");
    push_dec_i32(&mut out, m.chat_id);
    push_lit(&mut out, ",\"timestamp\":");
    push_dec_i32(&mut out, m.timestamp);
    out.push('}');
    proof {
        assert(out@ =~= spec_json_message(m@));
    }
    chars_to_string(&out)
}

/// Writes a client frame in its canonical wire form.
#[verifier::rlimit(100)]
pub fn encode_request(q: &MessageRequest) -> (r: String)
    ensures
        r@ == spec_json_request(q@),
{
    proof {
        reveal_strlit("{\"message\":\"");
        reveal_strlit(",\"user_id\":");
        reveal_strlit(",\"chat_id\":");
        assert("{\"message\":\""@ =~= lit_req_head());
        assert(",\"user_id\":"@ =~= lit_user_id());
        assert(",\"chat_id\":"@ =~= lit_chat_id());
    }
    let mut out: Vec<char> = Vec::new();
    push_lit(&mut out, "{\"message\":\"");
    push_escaped(&mut out, q.message.as_str());
    out.push('"');
    push_lit(&mut out, ",\"user_id\":");
    push_dec_i32(&mut out, q.user_id);
    push_lit(&mut out, ",\"chat_id\":");
    push_dec_i32(&mut out, q.chat_id);
    out.push('}');
    proof {
        assert(out@ =~= spec_json_request(q@));
    }
    chars_to_string(&out)
}

/// Compares the characters of `lit` against `s` at `i`.
fn match_lit(s: &str, i: usize, lit: &str) -> (r: Option<usize>)
    requires
        i <= s@.len(),
    ensures
        match r {
            Some(j) => spec_match_lit(s@, i as int, lit@) == Some(j as int) && i <= j <= s@.len(),
            None => spec_match_lit(s@, i as int, lit@) is None,
        },
{
    let n = lit.unicode_len();
    let slen = s.unicode_len();
    if n > slen - i {
        return None;
    }
    let mut k: usize = 0;
    while k < n
        invariant
            k <= n,
            i + n <= slen,
            slen == s@.len(),
            n == lit@.len(),
            forall|t: int| 0 <= t < k ==> s@[i + t] == lit@[t],
        decreases n - k,
    {
        let a = s.get_char(i + k);
        let b = lit.get_char(k);
        if a != b {
            proof {
                let sub = s@.subrange(i as int, i as int + lit@.len() as int);
                assert(sub[k as int] == s@[i + k]);
                assert(sub != lit@);
            }
            return None;
        }
        k = k + 1;
    }
    proof {
        assert(s@.subrange(i as int, i as int + lit@.len() as int) =~= lit@);
    }
    Some(i + n)
}

/// Reads a canonical `i32` at `i`, as `spec_parse_int` describes.
#[verifier::rlimit(100)]
fn parse_int_at(s: &str, i: usize) -> (r: Option<(i32, usize)>)
    requires
        i <= s@.len(),
    ensures
        match r {
            Some((v, j)) => spec_parse_int(s@, i as int) == Some((v as int, j as int)) && i < j
                <= s@.len(),
            None => spec_parse_int(s@, i as int) is None,
        },
{
    let slen = s.unicode_len();
    let neg = i < slen && s.get_char(i) == '-';
    let start = if neg { i + 1 } else { i };
    let mut e = start;
    loop
        invariant
            start <= e <= slen,
            slen == s@.len(),
            start == if neg { i + 1int } else { i as int },
            i <= start,
            forall|t: int| start <= t < e ==> is_digit(#[trigger] s@[t]),
        ensures
            start <= e <= slen,
            forall|t: int| start <= t < e ==> is_digit(#[trigger] s@[t]),
            e == slen || !is_digit(s@[e as int]),
        decreases slen - e,
    {
        if e >= slen {
            break;
        }
        let c = s.get_char(e);
        if (c as u32) < 48 || (c as u32) > 57 {
            break;
        }
        e = e + 1;
    }
    proof {
        lemma_digits_end_of(s@, start as int, e as int);
    }
    if e == start {
        return None;
    }
    if e - start > 10 {
        return None;
    }
    let first = s.get_char(start);
    if first == '0' && e > start + 1 {
        return None;
    }
    let mut acc: u64 = 0;
    let mut k = start;
    while k < e
        invariant
            start <= k <= e <= slen,
            slen == s@.len(),
            e - start <= 10,
            forall|t: int| start <= t < e ==> is_digit(#[trigger] s@[t]),
            acc == digits_val(s@, start as int, k as int),
            acc < 10000000000,
        decreases e - k,
    {
        proof {
            lemma_digits_val_bound(s@, start as int, k as int);
            lemma_pow10_mono((k - start) as nat, 9);
            assert(pow10(9) == 1000000000) by {
                reveal_with_fuel(pow10, 10);
            }
        }
        let c = s.get_char(k);
        let d = (c as u32) - 48;
        acc = acc * 10 + d as u64;
        k = k + 1;
        proof {
            lemma_digits_val_bound(s@, start as int, k as int);
            lemma_pow10_mono((k - start) as nat, 10);
            assert(pow10(10) == 10000000000) by {
                reveal_with_fuel(pow10, 11);
            }
        }
    }
    if neg {
        if 1 <= acc && acc <= 2147483648 {
            let vi: i64 = -(acc as i64);
            Some((vi as i32, e))
        } else {
            None
        }
    } else {
        if acc <= 2147483647 {
            Some((acc as i32, e))
        } else {
            None
        }
    }
}

/// Reads an escaped string body at `i`, as `spec_parse_jstring` describes,
/// appending the unescaped content to `out`.
#[verifier::rlimit(100)]
fn parse_jstring_at(s: &str, i: usize, out: &mut Vec<char>) -> (r: Option<usize>)
    requires
        i <= s@.len(),
    ensures
        match r {
            Some(j) => ({
                &&& i < j <= s@.len()
                &&& match spec_parse_jstring(s@, i as int) {
                    Some((t, jj)) => jj == j as int && final(out)@ == old(out)@ + t,
                    None => false,
                }
            }),
            None => spec_parse_jstring(s@, i as int) is None,
        },
    decreases s@.len() - i,
{
    let slen = s.unicode_len();
    if i >= slen {
        return None;
    }
    let c = s.get_char(i);
    if c == '"' {
        proof {
            assert(out@ =~= out@ + Seq::<char>::empty());
        }
        return Some(i + 1);
    }
    if c == '\\' {
        if i + 1 >= slen {
            return None;
        }
        let d = s.get_char(i + 1);
        if d == '"' {
            out.push('"');
            let r = parse_jstring_at(s, i + 2, out);
            proof {
                let r2 = spec_parse_jstring(s@, (i + 2) as int);
                if r2 is Some {
                    let t = r2->Some_0.0;
                    assert(old(out)@ + (seq!['"'] + t) =~= old(out)@.push('"') + t);
                }
            }
            return r;
        } else if d == '\\' {
            out.push('\\');
            let r = parse_jstring_at(s, i + 2, out);
            proof {
                let r2 = spec_parse_jstring(s@, (i + 2) as int);
                if r2 is Some {
                    let t = r2->Some_0.0;
                    assert(old(out)@ + (seq!['\\'] + t) =~= old(out)@.push('\\') + t);
                }
            }
            return r;
        } else if d == 'u' {
            if slen - i <= 5 {
                return None;
            }
            let z0 = s.get_char(i + 2);
            let z1 = s.get_char(i + 3);
            if z0 != '0' || z1 != '0' {
                return None;
            }
            let h1 = s.get_char(i + 4);
            let h2 = s.get_char(i + 5);
            let v1 = hex_val_of(h1);
            let v2 = hex_val_of(h2);
            match (v1, v2) {
                (Some(a), Some(b)) => {
                    let v = a * 16 + b;
                    if v >= 32 {
                        return None;
                    }
                    let ch = (v as u8) as char;
                    out.push(ch);
                    let r = parse_jstring_at(s, i + 6, out);
                    proof {
                        let r2 = spec_parse_jstring(s@, (i + 6) as int);
                        if r2 is Some {
                            let t = r2->Some_0.0;
                            assert(old(out)@ + (seq![ch] + t) =~= old(out)@.push(ch) + t);
                        }
                    }
                    return r;
                },
                _ => {
                    return None;
                },
            }
        } else {
            return None;
        }
    }
    if (c as u32) < 32 {
        return None;
    }
    out.push(c);
    let r = parse_jstring_at(s, i + 1, out);
    proof {
        let r2 = spec_parse_jstring(s@, (i + 1) as int);
        if r2 is Some {
            let t = r2->Some_0.0;
            assert(old(out)@ + (seq![c] + t) =~= old(out)@.push(c) + t);
        }
    }
    r
}

/// The value of a lowercase hexadecimal digit character, `None` for any
/// other character.
fn hex_val_of(c: char) -> (r: Option<u32>)
    ensures
        match r {
            Some(v) => is_lhex(c) && v == hex_val(c) && v < 16,
            None => !is_lhex(c),
        },
{
    let u = c as u32;
    if 48 <= u && u <= 57 {
        Some(u - 48)
    } else if 97 <= u && u <= 102 {
        Some(u - 87)
    } else {
        None
    }
}

/// Reads a persisted message from its canonical wire form; `None` on any
/// deviation from it.
#[verifier::rlimit(100)]
pub fn decode_message(s: &str) -> (r: Option<Message>)
    ensures
        match r {
            Some(m) => spec_decode_message(s@) == Some(m@),
            None => spec_decode_message(s@) is None,
        },
{
    proof {
        reveal_strlit("{\"id\":");
        reveal_strlit(",\"text\":\"");
        reveal_strlit(",\"user_id\":");
        reveal_strlit(",\"chat_id\":");
        reveal_strlit(",\"timestamp\":");
        reveal_strlit("}");
        assert("{\"id\":"@ =~= lit_msg_head());
        assert(",\"text\":\""@ =~= lit_text());
        assert(",\"user_id\":"@ =~= lit_user_id());
        assert(",\"chat_id\":"@ =~= lit_chat_id());
        assert(",\"timestamp\":"@ =~= lit_timestamp());
        assert("}"@ =~= lit_close());
    }
    let i1 = match match_lit(s, 0, "{\"id\":") {
        Some(j) => j,
        None => {
            return None;
        },
    };
    let (id, i2) = match parse_int_at(s, i1) {
        Some(p) => p,
        None => {
            return None;
        },
    };
    let i3 = match match_lit(s, i2, ",\"text\":\"") {
        Some(j) => j,
        None => {
            return None;
        },
    };
    let mut text_chars: Vec<char> = Vec::new();
    let i4 = match parse_jstring_at(s, i3, &mut text_chars) {
        Some(j) => j,
        None => {
            return None;
        },
    };
    let i5 = match match_lit(s, i4, ",\"user_id\":") {
        Some(j) => j,
        None => {
            return None;
        },
    };
    let (user_id, i6) = match parse_int_at(s, i5) {
        Some(p) => p,
        None => {
            return None;
        },
    };
    let i7 = match match_lit(s, i6, ",\"chat_id\":") {
        Some(j) => j,
        None => {
            return None;
        },
    };
    let (chat_id, i8) = match parse_int_at(s, i7) {
        Some(p) => p,
        None => {
            return None;
        },
    };
    let i9 = match match_lit(s, i8, ",\"timestamp\":") {
        Some(j) => j,
        None => {
            return None;
        },
    };
    let (timestamp, i10) = match parse_int_at(s, i9) {
        Some(p) => p,
        None => {
            return None;
        },
    };
    let i11 = match match_lit(s, i10, "}") {
        Some(j) => j,
        None => {
            return None;
        },
    };
    if i11 != s.unicode_len() {
        return None;
    }
    let text = chars_to_string(&text_chars);
    Some(Message { id, text, user_id, chat_id, timestamp })
}

/// Reads a client frame from its canonical wire form; `None` on any
/// deviation from it.
#[verifier::rlimit(100)]
pub fn decode_request(s: &str) -> (r: Option<MessageRequest>)
    ensures
        match r {
            Some(q) => spec_decode_request(s@) == Some(q@),
            None => spec_decode_request(s@) is None,
        },
{
    proof {
        reveal_strlit("{\"message\":\"");
        reveal_strlit(",\"user_id\":");
        reveal_strlit(",\"chat_id\":");
        reveal_strlit("}");
        assert("{\"message\":\""@ =~= lit_req_head());
        assert(",\"user_id\":"@ =~= lit_user_id());
        assert(",\"chat_id\":"@ =~= lit_chat_id());
        assert("}"@ =~= lit_close());
    }
    let i1 = match match_lit(s, 0, "{\"message\":\"") {
        Some(j) => j,
        None => {
            return None;
        },
    };
    let mut msg_chars: Vec<char> = Vec::new();
    let i2 = match parse_jstring_at(s, i1, &mut msg_chars) {
        Some(j) => j,
        None => {
            return None;
        },
    };
    let i3 = match match_lit(s, i2, ",\"user_id\":") {
        Some(j) => j,
        None => {
            return None;
        },
    };
    let (user_id, i4) = match parse_int_at(s, i3) {
        Some(p) => p,
        None => {
            return None;
        },
    };
    let i5 = match match_lit(s, i4, ",\"chat_id\":") {
        Some(j) => j,
        None => {
            return None;
        },
    };
    let (chat_id, i6) = match parse_int_at(s, i5) {
        Some(p) => p,
        None => {
            return None;
        },
    };
    let i7 = match match_lit(s, i6, "}") {
        Some(j) => j,
        None => {
            return None;
        },
    };
    if i7 != s.unicode_len() {
        return None;
    }
    let message = chars_to_string(&msg_chars);
    Some(MessageRequest { message, user_id, chat_id })
}

} // verus!
