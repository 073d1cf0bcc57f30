//! Behaviour of the client state machine: bootstrap, the inbound reducer,
//! the outbound composer, and the view projections.

use chat_client::chat::{avatar_url, is_image_payload, Chat, Msg};
use chat_client::envelope::{ChatMessage, WireError};

fn new_chat(username: &str) -> Chat {
    let (chat, _register) = Chat::create(username.to_string());
    chat
}

fn handle(chat: &mut Chat, frame: &str) -> chat_client::chat::UpdateResult {
    chat.update(Msg::HandleMsg(frame.to_string()))
}

#[test]
fn bootstrap_sends_one_register_frame_with_username() {
    let (chat, register) = Chat::create("alice".to_string());
    assert_eq!(register, "{\"messageType\":\"register\",\"data\":\"alice\"}");
    assert_eq!(chat.username, "alice");
    assert!(chat.users.is_empty());
    assert!(chat.messages.is_empty());
}

#[test]
fn users_envelope_builds_roster_in_order() {
    let mut chat = new_chat("me");
    let r = handle(&mut chat, "{\"messageType\":\"users\",\"dataArray\":[\"alice\",\"bob\"]}");
    assert!(r.changed);
    assert!(r.error.is_none());
    assert!(r.outbound.is_none());
    assert_eq!(chat.users.len(), 2);
    assert_eq!(chat.users[0].name, "alice");
    assert_eq!(chat.users[1].name, "bob");
    assert_eq!(chat.users[0].avatar, avatar_url("alice"));
    assert_eq!(chat.users[1].avatar, avatar_url("bob"));
    assert_eq!(
        chat.users[0].avatar,
        "https://avatars.dicebear.com/api/adventurer-neutral/alice.svg"
    );
}

#[test]
fn users_envelope_replaces_roster_wholesale() {
    let mut chat = new_chat("me");
    handle(&mut chat, "{\"messageType\":\"users\",\"dataArray\":[\"a\",\"b\",\"c\"]}");
    assert_eq!(chat.users.len(), 3);
    let r = handle(&mut chat, "{\"messageType\":\"users\",\"dataArray\":[\"carol\"]}");
    assert!(r.changed);
    assert_eq!(chat.users.len(), 1);
    assert_eq!(chat.users[0].name, "carol");
}

#[test]
fn message_envelope_appends_to_log() {
    let mut chat = new_chat("me");
    handle(&mut chat, "{\"messageType\":\"users\",\"dataArray\":[\"bob\"]}");
    let r = handle(
        &mut chat,
        "{\"messageType\":\"message\",\"data\":\"{\\\"from\\\":\\\"bob\\\",\\\"message\\\":\\\"hi\\\"}\"}",
    );
    assert!(r.changed);
    assert!(r.error.is_none());
    assert_eq!(chat.messages.len(), 1);
    assert_eq!(chat.messages[0].sender, "bob");
    assert_eq!(chat.messages[0].body, "hi");
    // the roster is untouched by a message
    assert_eq!(chat.users.len(), 1);
}

#[test]
fn malformed_chat_payload_leaves_log_unchanged() {
    let mut chat = new_chat("me");
    let r = handle(&mut chat, "{\"messageType\":\"message\",\"data\":\"not-json\"}");
    assert!(!r.changed);
    assert_eq!(r.error, Some(WireError::MalformedChatPayload));
    assert!(chat.messages.is_empty());
}

#[test]
fn malformed_envelope_is_reported_and_ignored() {
    let mut chat = new_chat("me");
    let r = handle(&mut chat, "garbage");
    assert!(!r.changed);
    assert_eq!(r.error, Some(WireError::MalformedEnvelope));
    assert!(chat.users.is_empty());
    assert!(chat.messages.is_empty());
}

#[test]
fn inbound_register_is_ignored_without_error() {
    let mut chat = new_chat("me");
    let r = handle(&mut chat, "{\"messageType\":\"register\",\"data\":\"bob\"}");
    assert!(!r.changed);
    assert!(r.error.is_none());
    assert!(chat.users.is_empty());
    assert!(chat.messages.is_empty());
}

#[test]
fn blank_input_produces_no_outbound_frame() {
    let mut chat = new_chat("me");
    for blank in ["", " ", "   ", "\t", " \t\r\n "] {
        let r = chat.update(Msg::SubmitMessage(blank.to_string()));
        assert!(r.outbound.is_none(), "blank input must not be sent");
        assert!(!r.changed);
        assert!(r.error.is_none());
    }
}

#[test]
fn submitted_text_is_framed_as_message_envelope() {
    let mut chat = new_chat("me");
    let r = chat.update(Msg::SubmitMessage("hello there".to_string()));
    assert_eq!(
        r.outbound.as_deref(),
        Some("{\"messageType\":\"message\",\"data\":\"hello there\"}")
    );
    assert!(!r.changed);
    assert!(r.error.is_none());
}

#[test]
fn is_self_compares_exactly_and_case_sensitively() {
    let chat = new_chat("alice");
    let from_alice = ChatMessage { sender: "alice".to_string(), body: "x".to_string() };
    let from_upper = ChatMessage { sender: "Alice".to_string(), body: "x".to_string() };
    let from_bob = ChatMessage { sender: "bob".to_string(), body: "x".to_string() };
    assert!(chat.is_self(&from_alice));
    assert!(!chat.is_self(&from_upper));
    assert!(!chat.is_self(&from_bob));
}

#[test]
fn avatar_for_finds_current_roster_members_only() {
    let mut chat = new_chat("me");
    handle(&mut chat, "{\"messageType\":\"users\",\"dataArray\":[\"alice\",\"bob\"]}");
    assert_eq!(chat.avatar_for("bob"), Some(avatar_url("bob")));
    assert_eq!(chat.avatar_for("carol"), None);
}

#[test]
fn image_payloads_end_in_gif_case_sensitively() {
    assert!(is_image_payload("party.gif"));
    assert!(!is_image_payload("party.gif.txt"));
    assert!(!is_image_payload("PARTY.GIF"));
    assert!(!is_image_payload("gif"));
    assert!(is_image_payload(".gif"));
}
