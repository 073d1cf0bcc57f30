//! Behaviour of the wire codec: exact frame texts, round trips, and
//! rejection of malformed input.

use chat_client::codec::{decode, decode_chat, encode, encode_chat};
use chat_client::envelope::{ChatMessage, Envelope, MsgTypes, WireError};

fn users_envelope(names: &[&str]) -> Envelope {
    Envelope::Users(names.iter().map(|n| n.to_string()).collect())
}

#[test]
fn encode_register_exact_text() {
    let e = Envelope::Register("alice".to_string());
    assert_eq!(encode(&e), "{\"messageType\":\"register\",\"data\":\"alice\"}");
}

#[test]
fn encode_users_exact_text() {
    let e = users_envelope(&["alice", "bob"]);
    assert_eq!(
        encode(&e),
        "{\"messageType\":\"users\",\"dataArray\":[\"alice\",\"bob\"]}"
    );
}

#[test]
fn encode_empty_users_exact_text() {
    let e = users_envelope(&[]);
    assert_eq!(encode(&e), "{\"messageType\":\"users\",\"dataArray\":[]}");
}

#[test]
fn encode_chat_exact_text() {
    let m = ChatMessage { sender: "bob".to_string(), body: "hi".to_string() };
    assert_eq!(encode_chat(&m), "{\"from\":\"bob\",\"message\":\"hi\"}");
}

#[test]
fn encode_escapes_quotes_and_backslashes() {
    let e = Envelope::Message("a\"b\\c".to_string());
    assert_eq!(
        encode(&e),
        "{\"messageType\":\"message\",\"data\":\"a\\\"b\\\\c\"}"
    );
}

#[test]
fn round_trip_register() {
    let e = Envelope::Register("alice".to_string());
    assert_eq!(decode(&encode(&e)), Ok(e));
}

#[test]
fn round_trip_users() {
    let e = users_envelope(&["alice", "bob", "carol"]);
    assert_eq!(decode(&encode(&e)), Ok(e));
}

#[test]
fn round_trip_empty_users() {
    let e = users_envelope(&[]);
    assert_eq!(decode(&encode(&e)), Ok(e));
}

#[test]
fn round_trip_message_with_nested_payload() {
    let inner = ChatMessage { sender: "bob".to_string(), body: "hi \"all\"\n".to_string() };
    let e = Envelope::Message(encode_chat(&inner));
    let decoded = decode(&encode(&e)).expect("a frame this codec wrote decodes");
    assert_eq!(decoded, e);
    match decoded {
        Envelope::Message(data) => {
            assert_eq!(decode_chat(&data), Ok(inner));
        },
        _ => panic!("expected a message envelope"),
    }
}

#[test]
fn round_trip_chat_payload_with_escapes() {
    let m = ChatMessage {
        sender: "b\\o\"b".to_string(),
        body: "line one\nline\ttwo\r".to_string(),
    };
    assert_eq!(decode_chat(&encode_chat(&m)), Ok(m));
}

#[test]
fn decode_rejects_invalid_json() {
    assert_eq!(decode("not json"), Err(WireError::MalformedEnvelope));
    assert_eq!(decode(""), Err(WireError::MalformedEnvelope));
    assert_eq!(decode("{"), Err(WireError::MalformedEnvelope));
    assert_eq!(decode("[1,2,3]"), Err(WireError::MalformedEnvelope));
}

#[test]
fn decode_rejects_unrecognized_message_type() {
    assert_eq!(
        decode("{\"messageType\":\"bogus\",\"data\":\"x\"}"),
        Err(WireError::MalformedEnvelope)
    );
    assert_eq!(decode("{\"data\":\"x\"}"), Err(WireError::MalformedEnvelope));
}

#[test]
fn decode_rejects_trailing_text() {
    assert_eq!(
        decode("{\"messageType\":\"register\",\"data\":\"alice\"}x"),
        Err(WireError::MalformedEnvelope)
    );
}

#[test]
fn decode_users_without_data_array_gives_empty_roster() {
    assert_eq!(decode("{\"messageType\":\"users\"}"), Ok(users_envelope(&[])));
    assert_eq!(
        decode("{\"messageType\":\"users\",\"dataArray\":null}"),
        Ok(users_envelope(&[]))
    );
}

#[test]
fn decode_accepts_frames_with_explicit_nulls() {
    // A peer that always writes all three keys, with null for the absent
    // ones, is understood as well.
    assert_eq!(
        decode("{\"messageType\":\"users\",\"dataArray\":[\"a\"],\"data\":null}"),
        Ok(users_envelope(&["a"]))
    );
    assert_eq!(
        decode("{\"messageType\":\"message\",\"dataArray\":null,\"data\":\"hi\"}"),
        Ok(Envelope::Message("hi".to_string()))
    );
    assert_eq!(
        decode("{\"messageType\":\"register\",\"dataArray\":null,\"data\":\"alice\"}"),
        Ok(Envelope::Register("alice".to_string()))
    );
}

#[test]
fn decode_register_requires_data() {
    assert_eq!(
        decode("{\"messageType\":\"register\"}"),
        Err(WireError::MalformedEnvelope)
    );
    assert_eq!(
        decode("{\"messageType\":\"register\",\"data\":null}"),
        Err(WireError::MalformedEnvelope)
    );
}

#[test]
fn decode_chat_rejects_invalid_payload() {
    assert_eq!(decode_chat("not-json"), Err(WireError::MalformedChatPayload));
    assert_eq!(decode_chat("{\"from\":\"bob\"}"), Err(WireError::MalformedChatPayload));
    assert_eq!(decode_chat(""), Err(WireError::MalformedChatPayload));
}

#[test]
fn message_type_tags() {
    assert_eq!(users_envelope(&[]).message_type(), MsgTypes::Users);
    assert_eq!(Envelope::Register("a".to_string()).message_type(), MsgTypes::Register);
    assert_eq!(Envelope::Message("b".to_string()).message_type(), MsgTypes::Message);
}
