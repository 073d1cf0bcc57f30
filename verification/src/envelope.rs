//! Wire data model: the envelope, the chat message, the user profile, and
//! the error taxonomy.

use vstd::prelude::*;

verus! {

/// The three message kinds that can appear on the wire.
#[derive(Clone, Copy, Debug, PartialEq, Eq, Structural)]
pub enum MsgTypes {
    Users,
    Register,
    Message,
}

/// The wire unit. Exactly one payload shape is meaningful per kind: a
/// `Users` envelope carries the full roster as an ordered list of names, a
/// `Register` envelope carries the local username, and a `Message` envelope
/// carries the nested chat payload as JSON text.
#[derive(Clone, Debug, PartialEq, Eq)]
pub enum Envelope {
    Users(Vec<String>),
    Register(String),
    Message(String),
}

/// Mathematical value of an [`Envelope`]: the same three cases over
/// character sequences.
pub enum EnvelopeView {
    Users(Seq<Seq<char>>),
    Register(Seq<char>),
    Message(Seq<char>),
}

impl View for Envelope {
    type V = EnvelopeView;

    open spec fn view(&self) -> EnvelopeView {
        match self {
            Envelope::Users(names) => EnvelopeView::Users(names.deep_view()),
            Envelope::Register(name) => EnvelopeView::Register(name.view()),
            Envelope::Message(body) => EnvelopeView::Message(body.view()),
        }
    }
}

impl Envelope {
    /// The kind tag of this envelope.
    pub fn message_type(&self) -> (r: MsgTypes)
        ensures
            r == (match self {
                Envelope::Users(_) => MsgTypes::Users,
                Envelope::Register(_) => MsgTypes::Register,
                Envelope::Message(_) => MsgTypes::Message,
            }),
    {
        match self {
            Envelope::Users(_) => MsgTypes::Users,
            Envelope::Register(_) => MsgTypes::Register,
            Envelope::Message(_) => MsgTypes::Message,
        }
    }
}

/// One chat line: who said it and what was said.
#[derive(Clone, Debug, PartialEq, Eq)]
pub struct ChatMessage {
    pub sender: String,
    pub body: String,
}

/// Mathematical value of a [`ChatMessage`].
pub struct ChatMessageView {
    pub sender: Seq<char>,
    pub body: Seq<char>,
}

impl View for ChatMessage {
    type V = ChatMessageView;

    open spec fn view(&self) -> ChatMessageView {
        ChatMessageView { sender: self.sender.view(), body: self.body.view() }
    }
}

impl DeepView for ChatMessage {
    type V = ChatMessageView;

    open spec fn deep_view(&self) -> ChatMessageView {
        self.view()
    }
}

/// One roster entry: a user's name and the avatar URL derived from it.
#[derive(Clone, Debug, PartialEq, Eq)]
pub struct UserProfile {
    pub name: String,
    pub avatar: String,
}

/// Mathematical value of a [`UserProfile`].
pub struct UserProfileView {
    pub name: Seq<char>,
    pub avatar: Seq<char>,
}

impl View for UserProfile {
    type V = UserProfileView;

    open spec fn view(&self) -> UserProfileView {
        UserProfileView { name: self.name.view(), avatar: self.avatar.view() }
    }
}

impl DeepView for UserProfile {
    type V = UserProfileView;

    open spec fn deep_view(&self) -> UserProfileView {
        self.view()
    }
}

/// Why a frame was rejected. `MalformedEnvelope` means the frame was not a
/// well-formed wire envelope; `MalformedChatPayload` means the envelope was
/// fine but the nested chat payload inside a `Message` was not.
#[derive(Clone, Copy, Debug, PartialEq, Eq, Structural)]
pub enum WireError {
    MalformedEnvelope,
    MalformedChatPayload,
}

} // verus!
