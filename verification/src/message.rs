//! The message envelope model: `Message`, `Body`, the payload variants, and
//! reply construction.
//!
//! A message is immutable once constructed; a reply is always a new envelope
//! whose `src`/`dst` are the original's swapped and whose `in_reply_to`
//! carries the original's `id`.

use vstd::prelude::*;

verus! {

/// Initialization data: this node's identifier and the full cluster
/// membership, in the order the harness supplied it.
#[derive(Debug, Clone)]
pub struct Init {
    pub node_id: String,
    pub node_ids: Vec<String>,
}

/// Ghost mirror of [`Init`].
#[verifier::ext_equal]
pub ghost struct InitView {
    pub node_id: Seq<char>,
    pub node_ids: Seq<Seq<char>>,
}

impl View for Init {
    type V = InitView;

    open spec fn view(&self) -> InitView {
        InitView { node_id: self.node_id@, node_ids: self.node_ids.deep_view() }
    }
}

/// The two reserved payload variants owned by the core: the initialization
/// request and its acknowledgment.
#[derive(Debug, Clone)]
pub enum InitPayload {
    Init(Init),
    InitOk,
}

/// The closed set of payload variants this node family speaks: the reserved
/// initialization pair plus the application variants of the echo and
/// unique-id nodes.  The wire codec is verified against exactly this set.
#[derive(Debug, Clone)]
pub enum Payload {
    Init(Init),
    InitOk,
    Echo { echo: String },
    EchoOk { echo: String },
    Generate,
    GenerateOk { guid: String },
}

/// Ghost mirror of [`Payload`].
#[verifier::ext_equal]
pub ghost enum PayloadView {
    Init(InitView),
    InitOk,
    Echo(Seq<char>),
    EchoOk(Seq<char>),
    Generate,
    GenerateOk(Seq<char>),
}

impl View for Payload {
    type V = PayloadView;

    open spec fn view(&self) -> PayloadView {
        match self {
            Payload::Init(init) => PayloadView::Init(init@),
            Payload::InitOk => PayloadView::InitOk,
            Payload::Echo { echo } => PayloadView::Echo(echo@),
            Payload::EchoOk { echo } => PayloadView::EchoOk(echo@),
            Payload::Generate => PayloadView::Generate,
            Payload::GenerateOk { guid } => PayloadView::GenerateOk(guid@),
        }
    }
}

/// Sequence metadata plus the payload.  `id` is the sender-assigned sequence
/// number of this message; `in_reply_to` correlates a reply to the `id` of
/// the message it answers.
#[derive(Debug, Clone)]
pub struct Body {
    pub id: Option<usize>,
    pub in_reply_to: Option<usize>,
    pub payload: Payload,
}

/// Ghost mirror of [`Body`].
#[verifier::ext_equal]
pub ghost struct BodyView {
    pub id: Option<usize>,
    pub in_reply_to: Option<usize>,
    pub payload: PayloadView,
}

impl View for Body {
    type V = BodyView;

    open spec fn view(&self) -> BodyView {
        BodyView { id: self.id, in_reply_to: self.in_reply_to, payload: self.payload@ }
    }
}

/// The wire-level envelope: logical sender, logical receiver, body.
#[derive(Debug, Clone)]
pub struct Message {
    pub src: String,
    pub dst: String,
    pub body: Body,
}

/// Ghost mirror of [`Message`].
#[verifier::ext_equal]
pub ghost struct MessageView {
    pub src: Seq<char>,
    pub dst: Seq<char>,
    pub body: BodyView,
}

impl View for Message {
    type V = MessageView;

    open spec fn view(&self) -> MessageView {
        MessageView { src: self.src@, dst: self.dst@, body: self.body@ }
    }
}

/// A character that may stand unescaped inside a JSON string: anything but
/// the quote, the backslash, and the control range.
pub open spec fn wire_char(c: char) -> bool {
    c != '"' && c != '\\' && c as u32 >= 0x20
}

/// A string that the wire format carries verbatim, with no escaping.
pub open spec fn wire_str(s: Seq<char>) -> bool {
    forall|i: int| 0 <= i < s.len() ==> wire_char(#[trigger] s[i])
}

impl MessageView {
    /// The same envelope with its sequence number replaced.
    pub open spec fn with_id(self, id: usize) -> MessageView {
        MessageView {
            body: BodyView { id: Some(id), ..self.body },
            ..self
        }
    }

    /// The reply shape [`Message::into_reply`] constructs, as a ghost value.
    pub open spec fn reply_with(self, payload: PayloadView) -> MessageView {
        MessageView {
            src: self.dst,
            dst: self.src,
            body: BodyView { id: None, in_reply_to: self.body.id, payload },
        }
    }
}

impl Message {
    /// Construct a reply to this message: `src`/`dst` swapped, correlated to
    /// this message's `id`, carrying the given payload.  The reply's own `id`
    /// is unset; the writer assigns it on send.
    pub fn into_reply(&self, payload: Payload) -> (r: Message)
        ensures
            r@ == self@.reply_with(payload@),
            r@.src == self@.dst,
            r@.dst == self@.src,
            r@.body.in_reply_to == self@.body.id,
            r@.body.id is None,
            r@.body.payload == payload@,
    {
        Message {
            src: self.dst.clone(),
            dst: self.src.clone(),
            body: Body { id: None, in_reply_to: self.body.id, payload },
        }
    }
}

impl Payload {
    /// The handshake's view of a payload: the reserved initialization
    /// variant it carries, if any.
    pub fn as_init(&self) -> (r: Option<InitPayload>)
        ensures
            match r {
                Some(InitPayload::Init(init)) => self@ matches PayloadView::Init(iv) && init@ == iv,
                Some(InitPayload::InitOk) => self@ is InitOk,
                None => !(self@ is Init) && !(self@ is InitOk),
            },
    {
        match self {
            Payload::Init(init) => Some(InitPayload::Init(Init {
                node_id: init.node_id.clone(),
                node_ids: clone_strings(&init.node_ids),
            })),
            Payload::InitOk => Some(InitPayload::InitOk),
            _ => None,
        }
    }
}

/// Element-wise clone of a vector of strings, preserving the view.
pub fn clone_strings(v: &Vec<String>) -> (r: Vec<String>)
    ensures
        r.deep_view() == v.deep_view(),
{
    let mut r: Vec<String> = Vec::new();
    let mut i: usize = 0;
    while i < v.len()
        invariant
            i <= v.len(),
            r.len() == i,
            forall|j: int| 0 <= j < i ==> r.deep_view()[j] == v.deep_view()[j],
        decreases v.len() - i,
    {
        r.push(v[i].clone());
        i += 1;
    }
    assert(r.deep_view() =~= v.deep_view());
    r
}

} // verus!
