//! The rules of the HTTP endpoint: how a request becomes a message to publish
//! or a command to route, and how the outcome of publishing becomes a reply.
use crate::router::CommandMessage;
use vstd::prelude::*;
use vstd::utf8::{decode_utf8, valid_utf8};

verus! {

/// Calls `String::from_utf8`, which takes the bytes as a `String` when they
/// are valid UTF-8 and fails otherwise; the error value is dropped.
#[verifier::external_body]
fn string_from_utf8(bytes: Vec<u8>) -> (r: Option<String>)
    ensures
        r is Some <==> valid_utf8(bytes@),
        r matches Some(s) ==> s@ == decode_utf8(bytes@),
{
    String::from_utf8(bytes).ok()
}

/// A byte that an HTTP header value may hold and still be read as text:
/// visible ASCII or a tab.
pub open spec fn is_visible_ascii(b: u8) -> bool {
    (32 <= b < 127) || b == 9
}

/// Every byte of `b` is visible ASCII or a tab.
pub open spec fn all_visible_ascii(b: Seq<u8>) -> bool {
    forall|i: int| 0 <= i < b.len() ==> is_visible_ascii(#[trigger] b[i])
}

/// The text of a header, given its raw bytes if it is present: the bytes
/// read as text when every one is visible ASCII or a tab, else none.
pub open spec fn header_text(header: Option<Vec<u8>>) -> Option<Seq<char>> {
    match header {
        Some(b) => if all_visible_ascii(b@) {
            Some(decode_utf8(b@))
        } else {
            None
        },
        None => None,
    }
}

/// An optional text taken by view.
pub open spec fn text_view(s: Option<String>) -> Option<Seq<char>> {
    match s {
        Some(t) => Some(t@),
        None => None,
    }
}

/// Bytes below 128 are valid UTF-8, one character each.
proof fn lemma_ascii_is_utf8(b: Seq<u8>)
    requires
        forall|i: int| 0 <= i < b.len() ==> #[trigger] b[i] < 128,
    ensures
        valid_utf8(b),
    decreases b.len(),
{
    if b.len() > 0 {
        let b0 = b[0];
        assert(b0 < 128);
        assert(b0 & 0x7F == b0) by (bit_vector)
            requires
                b0 < 128,
        ;
        let rest = b.subrange(1, b.len() as int);
        assert forall|i: int| 0 <= i < rest.len() implies #[trigger] rest[i] < 128 by {
            assert(rest[i] == b[i + 1]);
        }
        lemma_ascii_is_utf8(rest);
        assert(vstd::utf8::pop_first_scalar(b) =~= rest);
    }
}

/// Bytes below 128 decode to one character each, of the same value.
proof fn lemma_ascii_decodes_bytewise(b: Seq<u8>)
    requires
        forall|i: int| 0 <= i < b.len() ==> #[trigger] b[i] < 128,
    ensures
        valid_utf8(b),
        decode_utf8(b).len() == b.len(),
        forall|i: int| 0 <= i < b.len() ==> #[trigger] decode_utf8(b)[i] == b[i] as char,
    decreases b.len(),
{
    lemma_ascii_is_utf8(b);
    if b.len() > 0 {
        let b0 = b[0];
        assert(b0 < 128);
        assert(b0 & 0x7F == b0) by (bit_vector)
            requires
                b0 < 128,
        ;
        let rest = b.subrange(1, b.len() as int);
        assert forall|i: int| 0 <= i < rest.len() implies #[trigger] rest[i] < 128 by {
            assert(rest[i] == b[i + 1]);
        }
        lemma_ascii_decodes_bytewise(rest);
        assert(vstd::utf8::pop_first_scalar(b) =~= rest);
        let d = decode_utf8(b);
        assert(d == seq![vstd::utf8::decode_first_scalar(b) as char] + decode_utf8(rest));
        assert(vstd::utf8::decode_first_scalar(b) == b0 as u32);
        assert forall|i: int| 0 <= i < b.len() implies #[trigger] decode_utf8(b)[i] == b[i] as char by {
            if i > 0 {
                assert(decode_utf8(b)[i] == decode_utf8(rest)[i - 1]);
                assert(rest[i - 1] == b[i]);
            }
        }
    }
}

/// A header is kept exactly when every one of its bytes is in `32..=126` or
/// is a tab, and then its text has one character per byte, of the byte's
/// value; an absent header gives no text.
pub proof fn law_header_kept_exactly_when_printable(header: Vec<u8>)
    ensures
        header_text(Some(header)) is Some <==> forall|i: int|
            0 <= i < header@.len() ==> (32 <= #[trigger] header@[i] <= 126 || header@[i] == 9),
        header_text(Some(header)) matches Some(t) ==> t.len() == header@.len() && forall|i: int|
            0 <= i < header@.len() ==> #[trigger] t[i] == header@[i] as char,
        header_text(None) is None,
{
    let b = header@;
    if forall|i: int| 0 <= i < b.len() ==> (32 <= #[trigger] b[i] <= 126 || b[i] == 9) {
        assert forall|i: int| 0 <= i < b.len() implies #[trigger] b[i] < 128 by {}
        assert(all_visible_ascii(b));
        lemma_ascii_decodes_bytewise(b);
    } else {
        let i = choose|i: int| 0 <= i < b.len() && !(32 <= #[trigger] b[i] <= 126 || b[i] == 9);
        assert(!is_visible_ascii(b[i]));
    }
}

/// An optional text's view is the view of the text it holds.
pub proof fn law_text_view_keeps_text(s: Option<String>)
    ensures
        s matches Some(t) ==> text_view(s) == Some(t@),
        s is None ==> text_view(s) is None,
{
}

/// The text of a `Content-Type` header from its raw bytes: present when
/// every byte is visible ASCII or a tab, as HTTP header values are read.
pub fn content_type_of(header: Option<Vec<u8>>) -> (r: Option<String>)
    ensures
        r is Some <==> (header matches Some(b) && all_visible_ascii(b@)),
        r matches Some(s) ==> s@ == decode_utf8(header->0@),
        text_view(r) == header_text(header),
{
    match header {
        None => None,
        Some(bytes) => {
            let mut i: usize = 0;
            while i < bytes.len()
                invariant
                    header == Some(bytes),
                    i <= bytes@.len(),
                    forall|j: int| 0 <= j < i ==> is_visible_ascii(#[trigger] bytes@[j]),
                decreases bytes@.len() - i,
            {
                let b = bytes[i];
                if !((32 <= b && b < 127) || b == 9) {
                    assert(!is_visible_ascii(bytes@[i as int]));
                    return None;
                }
                i = i + 1;
            }
            proof {
                assert forall|j: int| 0 <= j < bytes@.len() implies #[trigger] bytes@[j] < 128 by {
                    assert(is_visible_ascii(bytes@[j]));
                }
                lemma_ascii_is_utf8(bytes@);
            }
            let r = string_from_utf8(bytes);
            assert(r is Some);
            r
        },
    }
}

/// Calls `std::str::from_utf8`, which succeeds exactly when the bytes are
/// valid UTF-8; only whether it succeeded is kept.
#[verifier::external_body]
fn utf8_is_valid(bytes: &[u8]) -> (r: bool)
    ensures
        r == valid_utf8(bytes@),
{
    std::str::from_utf8(bytes).is_ok()
}

impl CommandMessage {
    /// Whether a request body can carry a command: it must be valid UTF-8.
    pub fn is_command_body(body: &[u8]) -> (r: bool)
        ensures
            r == valid_utf8(body@),
    {
        utf8_is_valid(body)
    }

    /// The command carried by a request body: the body read as UTF-8 text.
    /// A body that is not UTF-8 carries none; the endpoint fails such a
    /// request before it reaches here.
    pub fn from_body(body: Vec<u8>) -> (r: CommandMessage)
        requires
            valid_utf8(body@),
        ensures
            r@ == decode_utf8(body@),
    {
        CommandMessage(string_from_utf8(body).unwrap())
    }
}

/// The query options of a publish request.
#[derive(Clone, Debug)]
pub struct PublishOptions {
    pub model_id: Option<String>,
}

/// A message to hand to the downstream sender.
#[derive(Clone, Debug)]
pub struct Publish {
    pub channel: String,
    pub device_id: String,
    pub model_id: Option<String>,
    pub content_type: Option<String>,
}

impl Publish {
    /// What a device publishes on a channel: the path names the device and
    /// the channel, the query the model, and the raw `Content-Type` header,
    /// if it can be read as text, the type.
    pub fn for_device(
        device_id: String,
        channel: String,
        opts: PublishOptions,
        content_type: Option<Vec<u8>>,
    ) -> (r: Publish)
        ensures
            r.channel == channel,
            r.device_id == device_id,
            r.model_id == opts.model_id,
            text_view(r.content_type) == header_text(content_type),
    {
        let content_type = content_type_of(content_type);
        Publish { channel, device_id, model_id: opts.model_id, content_type }
    }

    /// Telemetry of `device` for `tenant`: the tenant is the channel, and no
    /// model is named.
    pub fn telemetry(tenant: String, device: String, content_type: Option<Vec<u8>>) -> (r: Publish)
        ensures
            r.channel == tenant,
            r.device_id == device,
            r.model_id is None,
            text_view(r.content_type) == header_text(content_type),
    {
        let content_type = content_type_of(content_type);
        Publish { channel: tenant, device_id: device, model_id: None, content_type }
    }
}

/// What the downstream sender made of a published message.
#[derive(Clone, Copy, Debug)]
pub enum PublishOutcome {
    Accepted,
    Rejected,
}

/// The reply to a publish request.
#[derive(Clone, Debug)]
pub enum Reply {
    /// `200 OK`, streaming back the command that reaches the device.
    CommandStream,
    /// `406 Not Acceptable`, with an empty body.
    NotAcceptable,
    /// `500 Internal Server Error`, with the error as a `text/plain` body.
    InternalError(String),
}

/// The `Content-Type` that each reply sets itself: `text/plain` for an
/// internal error, none for the others.
pub open spec fn reply_content_type(r: Reply) -> Option<Seq<char>> {
    match r {
        Reply::InternalError(_) => Some(seq!['t', 'e', 'x', 't', '/', 'p', 'l', 'a', 'i', 'n']),
        _ => None,
    }
}

/// The HTTP status of each reply.
pub open spec fn reply_status(r: Reply) -> u16 {
    match r {
        Reply::CommandStream => 200,
        Reply::NotAcceptable => 406,
        Reply::InternalError(_) => 500,
    }
}

impl Reply {
    /// The HTTP status code of this reply.
    pub fn status(&self) -> (s: u16)
        ensures
            s == reply_status(*self),
    {
        match self {
            Reply::CommandStream => 200,
            Reply::NotAcceptable => 406,
            Reply::InternalError(_) => 500,
        }
    }

    /// The `Content-Type` this reply sets itself, if any.
    pub fn content_type(&self) -> (c: Option<String>)
        ensures
            text_view(c) == reply_content_type(*self),
    {
        match self {
            Reply::InternalError(_) => {
                let t = "text/plain".to_owned();
                proof {
                    reveal_strlit("text/plain");
                }
                assert(t@ =~= seq!['t', 'e', 'x', 't', '/', 'p', 'l', 'a', 'i', 'n']);
                Some(t)
            },
            _ => None,
        }
    }
}

/// The status of a reply depends only on its kind: 200 for the command
/// stream, 406 when not acceptable, and 500 for every internal error,
/// whatever its text; only the internal error sets `text/plain`.
pub proof fn law_reply_status_by_kind(e: String)
    ensures
        reply_status(Reply::CommandStream) == 200,
        reply_status(Reply::NotAcceptable) == 406,
        reply_status(Reply::InternalError(e)) == 500,
        reply_content_type(Reply::InternalError(e)) == Some(
            seq!['t', 'e', 'x', 't', '/', 'p', 'l', 'a', 'i', 'n'],
        ),
        reply_content_type(Reply::CommandStream) is None,
        reply_content_type(Reply::NotAcceptable) is None,
{
}

/// The reply to a publish request, from what publishing gave: an accepted
/// message opens a stream for the device's command, a rejected one is not
/// acceptable, and a failure to publish is an internal error that carries
/// the error's text.
pub fn publish_reply(result: Result<PublishOutcome, String>) -> (r: Reply)
    ensures
        match result {
            Ok(PublishOutcome::Accepted) => r is CommandStream,
            Ok(PublishOutcome::Rejected) => r is NotAcceptable,
            Err(e) => r matches Reply::InternalError(body) && body@ == e@,
        },
{
    match result {
        Ok(PublishOutcome::Accepted) => Reply::CommandStream,
        Ok(PublishOutcome::Rejected) => Reply::NotAcceptable,
        Err(e) => Reply::InternalError(e),
    }
}

} // verus!
