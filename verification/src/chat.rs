//! The client state machine: session bootstrap, the inbound reducer that
//! folds decoded envelopes into the roster and the message log, the
//! outbound composer, and the pure view projections the rendering layer
//! reads.

use vstd::prelude::*;

use crate::codec::{
    decode, decode_chat, encode, spec_decode, spec_decode_chat, spec_encode,
};
use crate::envelope::{
    ChatMessage, ChatMessageView, Envelope, EnvelopeView, UserProfile, UserProfileView, WireError,
};
use crate::json::str_eq;

verus! {

// ---------------------------------------------------------------------------
// Avatars
// ---------------------------------------------------------------------------

/// The avatar URL derived from a username: a fixed template around the
/// name.
pub open spec fn avatar_text(name: Seq<char>) -> Seq<char> {
    "https://avatars.dicebear.com/api/adventurer-neutral/".view() + name + ".svg".view()
}

/// Builds the avatar URL for a username.
pub fn avatar_url(name: &str) -> (r: String)
    ensures
        r.view() == avatar_text(name.view()),
{
    let mut out = String::new();
    out.append("https://avatars.dicebear.com/api/adventurer-neutral/");
    out.append(name);
    out.append(".svg");
    proof {
        assert(out.view() =~= avatar_text(name.view()));
    }
    out
}

// ---------------------------------------------------------------------------
// The roster
// ---------------------------------------------------------------------------

/// The roster that a `Users` list gives rise to: one profile per name, in
/// list order, each with the avatar URL derived from its name.
pub open spec fn is_roster_for(users: Seq<UserProfileView>, names: Seq<Seq<char>>) -> bool {
    &&& users.len() == names.len()
    &&& forall|i: int|
        0 <= i < names.len() ==> (#[trigger] users[i]).name == names[i] && users[i].avatar
            == avatar_text(names[i])
}

/// Builds the roster for a list of names.
fn build_roster(names: &Vec<String>) -> (r: Vec<UserProfile>)
    ensures
        is_roster_for(r.deep_view(), names.deep_view()),
{
    let mut users: Vec<UserProfile> = Vec::new();
    let mut k: usize = 0;
    while k < names.len()
        invariant
            k <= names.len(),
            users.deep_view().len() == k,
            forall|x: int|
                0 <= x < k ==> (#[trigger] users.deep_view()[x]).name == names.deep_view()[x]
                    && users.deep_view()[x].avatar == avatar_text(names.deep_view()[x]),
        decreases names.len() - k,
    {
        let name = names[k].clone();
        let avatar = avatar_url(names[k].as_str());
        let ghost pv = UserProfileView { name: name.view(), avatar: avatar.view() };
        let ghost dv_old = users.deep_view();
        users.push(UserProfile { name, avatar });
        proof {
            assert(users.deep_view() =~= dv_old.push(pv));
        }
        k += 1;
    }
    users
}

/// The avatar of the first roster entry whose name is `name`, if any.
pub open spec fn find_avatar(users: Seq<UserProfileView>, name: Seq<char>) -> Option<Seq<char>>
    decreases users.len(),
{
    if users.len() == 0 {
        None
    } else if users[0].name == name {
        Some(users[0].avatar)
    } else {
        find_avatar(users.skip(1), name)
    }
}

// ---------------------------------------------------------------------------
// Blank input
// ---------------------------------------------------------------------------

/// Whitespace, for the purpose of rejecting blank input.
pub open spec fn is_space(c: char) -> bool {
    c == ' ' || c == '\t' || c == '\n' || c == '\r'
}

/// A text that is empty or entirely whitespace.
pub open spec fn all_space(s: Seq<char>) -> bool {
    forall|i: int| 0 <= i < s.len() ==> is_space(#[trigger] s[i])
}

/// Whether the input is empty or entirely whitespace.
pub fn is_blank(s: &str) -> (r: bool)
    ensures
        r == all_space(s.view()),
{
    let n = s.unicode_len();
    let mut k: usize = 0;
    while k < n
        invariant
            n == s.view().len(),
            k <= n,
            forall|x: int| 0 <= x < k ==> is_space(#[trigger] s.view()[x]),
        decreases n - k,
    {
        let c = s.get_char(k);
        if !(c == ' ' || c == '\t' || c == '\n' || c == '\r') {
            proof {
                assert(!is_space(s.view()[k as int]));
            }
            return false;
        }
        k += 1;
    }
    true
}

// ---------------------------------------------------------------------------
// The client
// ---------------------------------------------------------------------------

/// An event the client reacts to: an inbound frame arrived, or the user
/// submitted input text.
pub enum Msg {
    HandleMsg(String),
    SubmitMessage(String),
}

/// What one step of the client did: whether the visible state changed,
/// the frame to send out (if any), and the error observed (if any).
pub struct UpdateResult {
    pub changed: bool,
    pub outbound: Option<String>,
    pub error: Option<WireError>,
}

/// The client's state: the local username (immutable for the client's
/// lifetime), the roster derived from the last `Users` envelope, and the
/// append-only message log in arrival order.
pub struct Chat {
    pub username: String,
    pub users: Vec<UserProfile>,
    pub messages: Vec<ChatMessage>,
}

impl Chat {
    /// Every roster entry's avatar URL is the one derived from its name.
    /// Holds from creation on and is preserved by every step.
    pub open spec fn wf(self) -> bool {
        forall|i: int|
            0 <= i < self.users.deep_view().len() ==> (#[trigger] self.users.deep_view()[
                i
            ]).avatar == avatar_text(self.users.deep_view()[i].name)
    }

    /// Creates a client for `username` with an empty roster and log,
    /// together with the single registration frame to send on activation.
    pub fn create(username: String) -> (r: (Chat, String))
        ensures
            r.0.username == username,
            r.0.users.deep_view() == Seq::<UserProfileView>::empty(),
            r.0.messages.deep_view() == Seq::<ChatMessageView>::empty(),
            r.0.wf(),
            r.1.view() == spec_encode(EnvelopeView::Register(username.view())),
    {
        let reg = encode(&Envelope::Register(username.clone()));
        let chat = Chat { username, users: Vec::new(), messages: Vec::new() };
        proof {
            assert(chat.users.deep_view() =~= Seq::<UserProfileView>::empty());
            assert(chat.messages.deep_view() =~= Seq::<ChatMessageView>::empty());
        }
        (chat, reg)
    }

    /// One step of the client.
    ///
    /// An inbound frame is decoded and folded into the state: a `Users`
    /// envelope replaces the roster wholesale, a `Message` envelope whose
    /// nested payload decodes appends one entry to the log, an inbound
    /// `Register` is ignored, and a malformed frame or payload leaves the
    /// state unchanged and reports the error. Submitted input that is
    /// blank produces nothing; otherwise it is framed as a `Message`
    /// envelope to send. No step touches the username.
    pub fn update(&mut self, msg: Msg) -> (r: UpdateResult)
        ensures
            final(self).username == old(self).username,
            old(self).wf() ==> final(self).wf(),
            match msg {
                Msg::HandleMsg(frame) => {
                    &&& r.outbound is None
                    &&& match spec_decode(frame.view()) {
                        None => {
                            &&& *final(self) == *old(self)
                            &&& r.changed == false
                            &&& r.error == Some(WireError::MalformedEnvelope)
                        },
                        Some(EnvelopeView::Users(names)) => {
                            &&& final(self).messages == old(self).messages
                            &&& is_roster_for(final(self).users.deep_view(), names)
                            &&& r.changed == true
                            &&& r.error is None
                        },
                        Some(EnvelopeView::Register(_)) => {
                            &&& *final(self) == *old(self)
                            &&& r.changed == false
                            &&& r.error is None
                        },
                        Some(EnvelopeView::Message(d)) => match spec_decode_chat(d) {
                            Some(fb) => {
                                &&& final(self).users == old(self).users
                                &&& final(self).messages.deep_view() == old(
                                    self,
                                ).messages.deep_view().push(
                                    ChatMessageView { sender: fb.0, body: fb.1 },
                                )
                                &&& r.changed == true
                                &&& r.error is None
                            },
                            None => {
                                &&& *final(self) == *old(self)
                                &&& r.changed == false
                                &&& r.error == Some(WireError::MalformedChatPayload)
                            },
                        },
                    }
                },
                Msg::SubmitMessage(text) => {
                    &&& *final(self) == *old(self)
                    &&& r.changed == false
                    &&& r.error is None
                    &&& if all_space(text.view()) {
                        r.outbound is None
                    } else {
                        match r.outbound {
                            Some(f) => f.view() == spec_encode(EnvelopeView::Message(text.view())),
                            None => false,
                        }
                    }
                },
            },
    {
        match msg {
            Msg::HandleMsg(frame) => match decode(frame.as_str()) {
                Err(e) => UpdateResult { changed: false, outbound: None, error: Some(e) },
                Ok(Envelope::Users(names)) => {
                    self.users = build_roster(&names);
                    UpdateResult { changed: true, outbound: None, error: None }
                },
                Ok(Envelope::Register(_)) => UpdateResult {
                    changed: false,
                    outbound: None,
                    error: None,
                },
                Ok(Envelope::Message(d)) => match decode_chat(d.as_str()) {
                    Ok(cm) => {
                        let ghost log_old = self.messages.deep_view();
                        let ghost cm_view = cm.view();
                        self.messages.push(cm);
                        proof {
                            assert(self.messages.deep_view() =~= log_old.push(cm_view));
                        }
                        UpdateResult { changed: true, outbound: None, error: None }
                    },
                    Err(e) => UpdateResult { changed: false, outbound: None, error: Some(e) },
                },
            },
            Msg::SubmitMessage(text) => {
                if is_blank(text.as_str()) {
                    UpdateResult { changed: false, outbound: None, error: None }
                } else {
                    let frame = encode(&Envelope::Message(text));
                    UpdateResult { changed: false, outbound: Some(frame), error: None }
                }
            },
        }
    }

    /// Whether a logged message was sent by the local user: exact,
    /// case-sensitive equality with the local username.
    pub fn is_self(&self, m: &ChatMessage) -> (r: bool)
        ensures
            r == (m.sender.view() == self.username.view()),
    {
        str_eq(m.sender.as_str(), self.username.as_str())
    }

    /// The avatar URL of the first roster entry named `sender`, or none
    /// if the sender is not currently in the roster.
    pub fn avatar_for(&self, sender: &str) -> (r: Option<String>)
        ensures
            match r {
                Some(a) => find_avatar(self.users.deep_view(), sender.view()) == Some(a.view()),
                None => find_avatar(self.users.deep_view(), sender.view()) is None,
            },
    {
        let mut k: usize = 0;
        proof {
            assert(self.users.deep_view().skip(0) =~= self.users.deep_view());
        }
        while k < self.users.len()
            invariant
                k <= self.users.len(),
                find_avatar(self.users.deep_view(), sender.view()) == find_avatar(
                    self.users.deep_view().skip(k as int),
                    sender.view(),
                ),
            decreases self.users.len() - k,
        {
            proof {
                assert(self.users.deep_view().skip(k as int)[0] == self.users.deep_view()[
                    k as int
                ]);
            }
            if str_eq(self.users[k].name.as_str(), sender) {
                return Some(self.users[k].avatar.clone());
            }
            proof {
                assert(self.users.deep_view().skip(k as int).skip(1) =~= self.users.deep_view()
                    .skip(k as int + 1));
            }
            k += 1;
        }
        proof {
            assert(self.users.deep_view().skip(self.users.len() as int)
                =~= Seq::<UserProfileView>::empty());
        }
        None
    }
}

/// Whether a message body names an image to render: it ends in `.gif`,
/// case-sensitively.
pub open spec fn is_image(s: Seq<char>) -> bool {
    s.len() >= 4 && s.subrange(s.len() - 4, s.len() as int) == ".gif".view()
}

/// Whether a message body names an image to render.
pub fn is_image_payload(body: &str) -> (r: bool)
    ensures
        r == is_image(body.view()),
{
    let n = body.unicode_len();
    if n < 4 {
        return false;
    }
    let c1 = body.get_char(n - 4);
    let c2 = body.get_char(n - 3);
    let c3 = body.get_char(n - 2);
    let c4 = body.get_char(n - 1);
    let r = c1 == '.' && c2 == 'g' && c3 == 'i' && c4 == 'f';
    proof {
        reveal_strlit(".gif");
        let sub = body.view().subrange(n as int - 4, n as int);
        assert(sub[0] == c1 && sub[1] == c2 && sub[2] == c3 && sub[3] == c4);
        if r {
            assert(sub =~= ".gif".view());
        } else {
            if sub == ".gif".view() {
                assert(c1 == '.' && c2 == 'g' && c3 == 'i' && c4 == 'f');
            }
        }
    }
    r
}

} // verus!


