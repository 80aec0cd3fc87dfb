//! Replies and request routing of the "hello" web components.
use vstd::prelude::*;
use vstd::string::*;
use crate::text::contains_str;
use crate::text::contains_seq;

verus! {

/// An HTTP reply: status code, optional `Content-Type`, and body.
pub struct Reply {
    pub status: u16,
    pub content_type: Option<String>,
    pub body: Vec<u8>,
}

/// The text of an optional string.
pub open spec fn opt_text(o: Option<String>) -> Option<Seq<char>> {
    crate::metadata::opt_text(o)
}

/// The UTF-8 bytes of a text.
pub open spec fn utf8(s: Seq<char>) -> Seq<u8> {
    vstd::utf8::encode_utf8(s)
}

/// The UTF-8 bytes of a text.
fn bytes_of(s: &str) -> (b: Vec<u8>)
    ensures
        b@ == utf8(s@),
{
    s.as_bytes_vec()
}

/// A reply with the given status, no `Content-Type` and an empty body.
pub fn empty_reply(status: u16) -> (r: Reply)
    ensures
        r.status == status,
        r.content_type is None,
        r.body@ == Seq::<u8>::empty(),
{
    Reply { status, content_type: None, body: Vec::new() }
}

/// The reply to a failure: status 500, and `Error: ` followed by the message
/// as body.
pub fn error_reply(message: &str) -> (r: Reply)
    ensures
        r.status == 500,
        r.content_type is None,
        r.body@ == utf8("Error: "@ + message@),
{
    let text = "Error: ".to_owned().concat(message);
    Reply { status: 500, content_type: None, body: bytes_of(text.as_str()) }
}

/// The reply when nothing is found: status 404 and an empty body.
pub fn not_found_reply() -> (r: Reply)
    ensures
        r.status == 404,
        r.content_type is None,
        r.body@ == Seq::<u8>::empty(),
{
    empty_reply(404)
}

/// The reply of a health check: status 200 and an empty body.
pub fn health_reply() -> (r: Reply)
    ensures
        r.status == 200,
        r.content_type is None,
        r.body@ == Seq::<u8>::empty(),
{
    empty_reply(200)
}

/// The reply with a rendered page: status 200, `text/html`, and the page.
pub fn page_reply(html: &str) -> (r: Reply)
    ensures
        r.status == 200,
        opt_text(r.content_type) == Some("text/html"@),
        r.body@ == utf8(html@),
{
    Reply { status: 200, content_type: Some("text/html".to_owned()), body: bytes_of(html) }
}

/// The reply with a rendered page that carries no `Content-Type`: status 200
/// and the page.
pub fn untyped_page_reply(html: &str) -> (r: Reply)
    ensures
        r.status == 200,
        r.content_type is None,
        r.body@ == utf8(html@),
{
    Reply { status: 200, content_type: None, body: bytes_of(html) }
}

/// The reply with a static asset named `name` whose content, when the asset
/// exists, is `content`: status 200 with the content, typed
/// `application/javascript` when the name holds `.js`; status 404 with an
/// empty body when there is no such asset.
pub fn asset_reply(name: &str, content: Option<Vec<u8>>) -> (r: Reply)
    ensures
        content is None ==> r.status == 404 && r.content_type is None && r.body@ == Seq::<u8>::empty(),
        content matches Some(c) ==> {
            &&& r.status == 200
            &&& r.body@ == c@
            &&& opt_text(r.content_type) == if contains_seq(name@, ".js"@) {
                Some("application/javascript"@)
            } else {
                None
            }
        },
{
    match content {
        None => not_found_reply(),
        Some(c) => {
            let content_type = if contains_str(name, ".js") {
                Some("application/javascript".to_owned())
            } else {
                None
            };
            Reply { status: 200, content_type, body: c }
        },
    }
}

/// The name under which the `cloud-hello` component keeps the asset that
/// `/assets/{path}` asks for.
pub fn cloud_asset_name(path: &str) -> (n: String)
    ensures
        n@ == "assets/"@ + path@,
{
    "assets/".to_owned().concat(path)
}

/// What went wrong while a "hello" component served its page.
#[derive(Clone, Copy)]
pub enum Failure {
    ParseUrl,
    GetMetadata,
    OpenStore,
    IncrementKey,
    ListKeys,
}

/// The start of the message for a failure.
pub open spec fn failure_prefix(f: Failure) -> Seq<char> {
    match f {
        Failure::ParseUrl => "Error parsing URL: "@,
        Failure::GetMetadata => "Error getting metadata: "@,
        Failure::OpenStore => "Error opening store: "@,
        Failure::IncrementKey => "Error incrementing key: "@,
        Failure::ListKeys => "Error listing keys: "@,
    }
}

/// The message for a failure with the given detail.
pub fn failure_message(f: Failure, detail: &str) -> (m: String)
    ensures
        m@ == failure_prefix(f) + detail@,
{
    let prefix = match f {
        Failure::ParseUrl => "Error parsing URL: ".to_owned(),
        Failure::GetMetadata => "Error getting metadata: ".to_owned(),
        Failure::OpenStore => "Error opening store: ".to_owned(),
        Failure::IncrementKey => "Error incrementing key: ".to_owned(),
        Failure::ListKeys => "Error listing keys: ".to_owned(),
    };
    prefix.concat(detail)
}

/// The reply to a failure of the `fly-hello` component: status 500 and
/// `Error: ` followed by the failure's message.
pub fn failure_reply(f: Failure, detail: &str) -> (r: Reply)
    ensures
        r.status == 500,
        r.content_type is None,
        r.body@ == utf8("Error: "@ + failure_prefix(f) + detail@),
{
    let m = failure_message(f, detail);
    let r = error_reply(m.as_str());
    assert("Error: "@ + m@ =~= "Error: "@ + failure_prefix(f) + detail@);
    r
}

/// What the `fly-hello` component does after a step of its page that can
/// fail: go on (`None`) when the step succeeded, or stop with the reply to
/// that failure, carrying the step's error text.
pub fn stop_on<T>(f: Failure, outcome: &Result<T, String>) -> (r: Option<Reply>)
    ensures
        outcome is Ok ==> r is None,
        outcome matches Err(e) ==> r matches Some(reply) && reply.status == 500
            && reply.content_type is None && reply.body@ == utf8("Error: "@ + failure_prefix(f) + e@),
{
    match outcome {
        Ok(_) => None,
        Err(e) => Some(failure_reply(f, e.as_str())),
    }
}

/// What the `cloud-hello` component does after a step of its page that can
/// fail: only a failure to get the metadata stops it, with status 500 and an
/// empty body; the failure of any other step is logged and the page goes on
/// (`None`).
pub fn cloud_stop_on<T>(f: Failure, outcome: &Result<T, String>) -> (r: Option<Reply>)
    ensures
        r is Some <==> (f is GetMetadata && outcome is Err),
        r matches Some(reply) ==> reply.status == 500 && reply.content_type is None
            && reply.body@ == Seq::<u8>::empty(),
{
    match (f, outcome) {
        (Failure::GetMetadata, Err(_)) => Some(empty_reply(500)),
        _ => None,
    }
}

} // verus!
