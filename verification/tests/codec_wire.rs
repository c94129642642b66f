use webserver::codec::{decode_message, decode_request, encode_message, encode_request};
use webserver::topic::topic_for_room;
use webserver::types::{Message, MessageRequest};

fn message(id: i32, text: &str, user_id: i32, chat_id: i32, timestamp: i32) -> Message {
    Message { id, text: text.to_string(), user_id, chat_id, timestamp }
}

#[test]
fn encode_message_exact() {
    let m = message(1, "hi", 2, 3, 45);
    assert_eq!(
        encode_message(&m),
        "{\"id\":1,\"text\":\"hi\",\"user_id\":2,\"chat_id\":3,\"timestamp\":45}"
    );
}

#[test]
fn encode_message_negative_numbers() {
    let m = message(-12, "x", -1, -2147483648, 0);
    assert_eq!(
        encode_message(&m),
        "{\"id\":-12,\"text\":\"x\",\"user_id\":-1,\"chat_id\":-2147483648,\"timestamp\":0}"
    );
}

#[test]
fn encode_request_exact() {
    let q = MessageRequest { message: "hi".to_string(), user_id: 1, chat_id: 1 };
    assert_eq!(encode_request(&q), "{\"message\":\"hi\",\"user_id\":1,\"chat_id\":1}");
}

#[test]
fn encode_escapes_specials() {
    let m = message(7, "a\"b\\c\nd", 1, 1, 9);
    assert_eq!(
        encode_message(&m),
        "{\"id\":7,\"text\":\"a\\\"b\\\\c\\u000ad\",\"user_id\":1,\"chat_id\":1,\"timestamp\":9}"
    );
}

#[test]
fn decode_message_fields() {
    let s = "{\"id\":10,\"text\":\"hello\",\"user_id\":4,\"chat_id\":5,\"timestamp\":600}";
    let m = decode_message(s).expect("canonical payload must decode");
    assert_eq!(m.id, 10);
    assert_eq!(m.text, "hello");
    assert_eq!(m.user_id, 4);
    assert_eq!(m.chat_id, 5);
    assert_eq!(m.timestamp, 600);
}

#[test]
fn round_trip_message() {
    let cases = [
        message(1, "", 0, 0, 0),
        message(2147483647, "plain", -2147483648, 7, 1700000000),
        message(3, "quotes \" and \\ back", 1, 2, 3),
        message(4, "control\tchars\r\n\u{1}", 1, 2, 3),
        message(5, "unicode: héllo wörld ☺", 9, 9, 9),
    ];
    for m in cases {
        let encoded = encode_message(&m);
        let back = decode_message(&encoded).expect("own encoding must decode");
        assert_eq!(back.id, m.id);
        assert_eq!(back.text, m.text);
        assert_eq!(back.user_id, m.user_id);
        assert_eq!(back.chat_id, m.chat_id);
        assert_eq!(back.timestamp, m.timestamp);
    }
}

#[test]
fn round_trip_request() {
    let q = MessageRequest { message: "hi there\n".to_string(), user_id: 12, chat_id: -3 };
    let encoded = encode_request(&q);
    let back = decode_request(&encoded).expect("own encoding must decode");
    assert_eq!(back.message, q.message);
    assert_eq!(back.user_id, q.user_id);
    assert_eq!(back.chat_id, q.chat_id);
}

#[test]
fn decode_rejects_malformed() {
    let bad = [
        "",
        "not json at all",
        "{\"id\":1}",
        // leading zero is not canonical
        "{\"id\":01,\"text\":\"a\",\"user_id\":1,\"chat_id\":1,\"timestamp\":1}",
        // number out of range
        "{\"id\":99999999999,\"text\":\"a\",\"user_id\":1,\"chat_id\":1,\"timestamp\":1}",
        // unescaped control character in the text
        "{\"id\":1,\"text\":\"a\nb\",\"user_id\":1,\"chat_id\":1,\"timestamp\":1}",
        // trailing bytes after the closing brace
        "{\"id\":1,\"text\":\"a\",\"user_id\":1,\"chat_id\":1,\"timestamp\":1}x",
        // unterminated string
        "{\"id\":1,\"text\":\"a,\"user_id\":1,\"chat_id\":1,\"timestamp\":1}",
        // minus without digits
        "{\"id\":-,\"text\":\"a\",\"user_id\":1,\"chat_id\":1,\"timestamp\":1}",
    ];
    for s in bad {
        assert!(decode_message(s).is_none(), "must reject: {}", s);
    }
    assert!(decode_request("{\"message\":\"a\"}").is_none());
}

#[test]
fn encoded_message_is_valid_json() {
    let m = message(8, "tricky \"text\"\\ with\u{2} bytes", -5, 11, 42);
    let encoded = encode_message(&m);
    let v: serde_json::Value = serde_json::from_str(&encoded).expect("must be valid JSON");
    assert_eq!(v["id"].as_i64().unwrap(), 8);
    assert_eq!(v["text"].as_str().unwrap(), m.text);
    assert_eq!(v["user_id"].as_i64().unwrap(), -5);
    assert_eq!(v["chat_id"].as_i64().unwrap(), 11);
    assert_eq!(v["timestamp"].as_i64().unwrap(), 42);
}

#[test]
fn encoded_request_is_valid_json() {
    let q = MessageRequest { message: "line\nbreak \"x\"".to_string(), user_id: 3, chat_id: 4 };
    let encoded = encode_request(&q);
    let v: serde_json::Value = serde_json::from_str(&encoded).expect("must be valid JSON");
    assert_eq!(v["message"].as_str().unwrap(), q.message);
    assert_eq!(v["user_id"].as_i64().unwrap(), 3);
    assert_eq!(v["chat_id"].as_i64().unwrap(), 4);
}

#[test]
fn topic_names() {
    assert_eq!(topic_for_room(7), "chat:7");
    assert_eq!(topic_for_room(0), "chat:0");
    assert_eq!(topic_for_room(-3), "chat:-3");
    assert_eq!(topic_for_room(2147483647), "chat:2147483647");
}
