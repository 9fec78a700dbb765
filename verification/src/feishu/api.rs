//! The HTTP interface of the service: addresses, requests and how replies are read.

use crate::channel;
use crate::channel::ChannelError;
use crate::json;
use crate::json::{Json, JsonView};
use crate::text;
use crate::web_url;
use vstd::prelude::*;

verus! {

/// What came back for a request.
#[derive(Debug)]
pub enum HttpReply {
    /// A status that is no success: how it is written, and the body.
    Refused { status: String, body: String },
    /// A success whose body is no JSON: the message of the error.
    Unreadable(String),
    /// A success with a JSON body.
    Document(Json),
}

// ---- access tokens ----

/// Where access tokens come from.
pub fn token_url(base: &str) -> (r: String)
    ensures
        r@ == web_url::endpoint_of(base@, "/open-apis/auth/v3/tenant_access_token/internal"@),
{
    web_url::endpoint(base, "/open-apis/auth/v3/tenant_access_token/internal")
}

/// An access token and the time, in nanoseconds on the monotonic clock, until which it is used.
#[derive(Debug)]
pub struct CachedAccessToken {
    pub token: String,
    pub expires_at: u128,
}

/// The token that can be used at the time `now`, if the cached one still can.
pub open spec fn usable(cached: Option<CachedAccessToken>, now: u128) -> Option<Seq<char>> {
    match cached {
        Some(c) => if now < c.expires_at {
            Some(c.token@)
        } else {
            None
        },
        None => None,
    }
}

/// The token that can be used at the time `now`; where there is none a new one has to be fetched.
pub fn cached_access_token(cached: &Option<CachedAccessToken>, now: u128) -> (r: Option<String>)
    ensures
        channel::opt_view(r) == usable(*cached, now),
{
    match cached {
        Some(c) => {
            if now < c.expires_at {
                Some(c.token.clone())
            } else {
                None
            }
        },
        None => None,
    }
}

/// The nanoseconds of a second.
pub const SECOND_NANOS: u128 = 1_000_000_000;

/// Until when a token is used that was fetched at `now` and is valid for `expire` seconds: it is
/// given up a minute early.
pub open spec fn expiry(now: u128, expire: u64) -> int {
    let secs = if expire >= 60 {
        expire - 60
    } else {
        0
    };
    let at = now + secs * SECOND_NANOS;
    if at > u128::MAX {
        u128::MAX as int
    } else {
        at
    }
}

/// The seconds that a token is valid, as the reply says.
pub open spec fn valid_secs(j: JsonView) -> u64 {
    match j.unsigned_at("expire"@) {
        Some(n) => n,
        None => 3600,
    }
}

/// What a reply to a request for a token says, at the time `now`: the token and its expiry, or the
/// message of an error.
pub open spec fn token_reply(reply: HttpReply, now: u128) -> Result<(Seq<char>, int), Seq<char>> {
    match reply {
        HttpReply::Refused { status, body } => Err(
            "feishu token HTTP "@ + status@ + ": "@ + body@,
        ),
        HttpReply::Unreadable(e) => Err(e@),
        HttpReply::Document(j) => match j@.text_at("tenant_access_token"@) {
            None => Err("missing tenant_access_token"@),
            Some(t) => Ok((t, expiry(now, valid_secs(j@)))),
        },
    }
}

/// What reading a token gave.
pub open spec fn token_view(r: Result<CachedAccessToken, String>) -> Result<
    (Seq<char>, int),
    Seq<char>,
> {
    match r {
        Ok(c) => Ok((c.token@, c.expires_at as int)),
        Err(e) => Err(e@),
    }
}

/// Reads the reply to a request for a token at the time `now`.
pub fn fetch_access_token(reply: &HttpReply, now: u128) -> (r: Result<CachedAccessToken, String>)
    ensures
        token_view(r) == token_reply(*reply, now),
{
    match reply {
        HttpReply::Refused { status, body } => {
            let mut m = "feishu token HTTP ".to_string();
            m.append(status.as_str());
            m.append(": ");
            m.append(body.as_str());
            Err(m)
        },
        HttpReply::Unreadable(e) => Err(e.clone()),
        HttpReply::Document(j) => match j.text_at("tenant_access_token") {
            None => Err("missing tenant_access_token".to_string()),
            Some(t) => {
                let expire: u64 = match j.unsigned_at("expire") {
                    Some(n) => n,
                    None => 3600,
                };
                let secs: u64 = if expire >= 60 {
                    expire - 60
                } else {
                    0
                };
                let span: u128 = secs as u128 * 1_000_000_000;
                let expires_at: u128 = if span > u128::MAX - now {
                    u128::MAX
                } else {
                    now + span
                };
                Ok(CachedAccessToken { token: t.to_string(), expires_at })
            },
        },
    }
}

/// How a token is had: the one that is kept, or a request for a new one, or what the reply brought.
#[derive(Debug)]
pub enum TokenStep {
    /// Use the token that is kept.
    Kept(String),
    /// Ask for a new token.
    Request,
    /// Keep the new token and use it.
    Fetched(CachedAccessToken),
    /// There is no token: the message of the error.
    Failed(String),
}

/// What a step towards a token holds; of a new token its text and its expiry.
pub enum TokenStepView {
    Kept(Seq<char>),
    Request,
    Fetched(Seq<char>, int),
    Failed(Seq<char>),
}

impl View for TokenStep {
    type V = TokenStepView;

    open spec fn view(&self) -> TokenStepView {
        match self {
            TokenStep::Kept(t) => TokenStepView::Kept(t@),
            TokenStep::Request => TokenStepView::Request,
            TokenStep::Fetched(c) => TokenStepView::Fetched(c.token@, c.expires_at as int),
            TokenStep::Failed(e) => TokenStepView::Failed(e@),
        }
    }
}

/// The next step towards a token at the time `now`, with the reply to a request if there was one.
pub open spec fn token_step(
    cached: Option<CachedAccessToken>,
    reply: Option<HttpReply>,
    now: u128,
) -> TokenStepView {
    match reply {
        Some(r) => match token_reply(r, now) {
            Ok((token, expires_at)) => TokenStepView::Fetched(token, expires_at),
            Err(e) => TokenStepView::Failed(e),
        },
        None => match usable(cached, now) {
            Some(token) => TokenStepView::Kept(token),
            None => TokenStepView::Request,
        },
    }
}

/// The next step towards a token at the time `now`.
pub fn get_access_token(
    cached: &Option<CachedAccessToken>,
    reply: &Option<HttpReply>,
    now: u128,
) -> (r: TokenStep)
    ensures
        r@ == token_step(*cached, *reply, now),
{
    match reply {
        Some(r) => match fetch_access_token(r, now) {
            Ok(token) => TokenStep::Fetched(token),
            Err(e) => TokenStep::Failed(e),
        },
        None => match cached_access_token(cached, now) {
            Some(token) => TokenStep::Kept(token),
            None => TokenStep::Request,
        },
    }
}

/// A token that was fetched is used, without another request, until a minute before it expires and
/// not after.
pub proof fn law_token_window(token: CachedAccessToken, reply: HttpReply, fetched: u128, now: u128)
    requires
        token_reply(reply, fetched) == Ok::<(Seq<char>, int), Seq<char>>(
            (token.token@, token.expires_at as int),
        ),
        fetched <= now,
        now < u128::MAX,
    ensures
        reply matches HttpReply::Document(j) && token_step(Some(token), None, now) == (if now
            - fetched < (valid_secs(j@) - 60) * SECOND_NANOS {
            TokenStepView::Kept(token.token@)
        } else {
            TokenStepView::Request
        }),
{
    if let HttpReply::Document(j) = reply {
        let secs = valid_secs(j@);
        assert(secs < 60 ==> (secs - 60) * SECOND_NANOS <= 0) by (nonlinear_arith);
    }
}

// ---- the bot itself ----

/// Where the bot's own data are.
pub fn bot_info_url(base: &str) -> (r: String)
    ensures
        r@ == web_url::endpoint_of(base@, "/open-apis/bot/v3/info"@),
{
    web_url::endpoint(base, "/open-apis/bot/v3/info")
}

/// The bot's id in a reply; nothing where the reply does not hold it.
pub open spec fn bot_id_in(reply: HttpReply) -> Option<Seq<char>> {
    match reply {
        HttpReply::Document(j) => match j@.member("bot"@) {
            Some(b) => b.text_at("open_id"@),
            None => None,
        },
        _ => None,
    }
}

/// The bot's id in a reply; nothing where the reply does not hold it.
pub fn fetch_bot_open_id(reply: &HttpReply) -> (r: Option<String>)
    ensures
        channel::opt_view(r) == bot_id_in(*reply),
{
    match reply {
        HttpReply::Document(j) => match j.get("bot") {
            Some(b) => match b.text_at("open_id") {
                Some(t) => Some(t.to_string()),
                None => None,
            },
            None => None,
        },
        _ => None,
    }
}

// ---- messages ----

/// Where messages are sent.
pub fn messages_url(base: &str) -> (r: String)
    ensures
        r@ == web_url::endpoint_of(base@, "/open-apis/im/v1/messages?receive_id_type=chat_id"@),
{
    web_url::endpoint(base, "/open-apis/im/v1/messages?receive_id_type=chat_id")
}

/// Where images are uploaded.
pub fn images_url(base: &str) -> (r: String)
    ensures
        r@ == web_url::endpoint_of(base@, "/open-apis/im/v1/images"@),
{
    web_url::endpoint(base, "/open-apis/im/v1/images")
}

/// Where files are uploaded.
pub fn files_url(base: &str) -> (r: String)
    ensures
        r@ == web_url::endpoint_of(base@, "/open-apis/im/v1/files"@),
{
    web_url::endpoint(base, "/open-apis/im/v1/files")
}

/// A JSON object with one text.
pub open spec fn object_of_one(name: Seq<char>, value: Seq<char>) -> Seq<char> {
    "{\""@ + name + "\":"@ + json::quoted_of(value) + "}"@
}

/// A JSON object with two texts.
pub open spec fn object_of_two(
    a: Seq<char>,
    x: Seq<char>,
    b: Seq<char>,
    y: Seq<char>,
) -> Seq<char> {
    "{\""@ + a + "\":"@ + json::quoted_of(x) + ",\""@ + b + "\":"@ + json::quoted_of(y) + "}"@
}

fn write_object_of_one(name: &str, value: &str) -> (r: String)
    ensures
        r@ == object_of_one(name@, value@),
{
    let mut out = "{\"".to_string();
    out.append(name);
    out.append("\":");
    out.append(json::quoted(value).as_str());
    out.append("}");
    out
}

fn write_object_of_two(a: &str, x: &str, b: &str, y: &str) -> (r: String)
    ensures
        r@ == object_of_two(a@, x@, b@, y@),
{
    let mut out = "{\"".to_string();
    out.append(a);
    out.append("\":");
    out.append(json::quoted(x).as_str());
    out.append(",\"");
    out.append(b);
    out.append("\":");
    out.append(json::quoted(y).as_str());
    out.append("}");
    out
}

/// The content of a text message.
pub fn text_content(t: &str) -> (r: String)
    ensures
        r@ == object_of_one("text"@, t@),
{
    write_object_of_one("text", t)
}

/// The content of an image message.
pub fn image_content(key: &str) -> (r: String)
    ensures
        r@ == object_of_one("image_key"@, key@),
{
    write_object_of_one("image_key", key)
}

/// The content of a file message.
pub fn file_content(key: &str, name: &str) -> (r: String)
    ensures
        r@ == object_of_two("file_key"@, key@, "file_name"@, name@),
{
    write_object_of_two("file_key", key, "file_name", name)
}

/// The error of a request that was refused: the status and the body after it.
pub open spec fn refusal(context: Seq<char>, status: Seq<char>, body: Seq<char>) -> ChannelError<
    Seq<char>,
> {
    ChannelError::External { context, message: status + ": "@ + body }
}

/// The error of a request that was refused.
pub fn refused(context: &str, status: &str, body: &str) -> (r: ChannelError<String>)
    ensures
        r@ == refusal(context@, status@, body@),
{
    let mut m = status.to_string();
    m.append(": ");
    m.append(body);
    channel::external(context, m.as_str())
}

/// The key that a reply to an upload holds, or the error.
pub open spec fn upload_key_of(reply: HttpReply, name: Seq<char>, context: Seq<char>) -> Result<
    Seq<char>,
    ChannelError<Seq<char>>,
> {
    let missing = Err(ChannelError::Unavailable("missing "@ + name));
    match reply {
        HttpReply::Refused { status, body } => Err(refusal(context, status@, body@)),
        HttpReply::Unreadable(_) => missing,
        HttpReply::Document(j) => match j@.member("data"@) {
            None => missing,
            Some(d) => match d.text_at(name) {
                None => missing,
                Some(key) => Ok(key),
            },
        },
    }
}

/// Reads the key in a reply to an upload.
pub fn upload_key(reply: &HttpReply, name: &str, context: &str) -> (r: Result<
    String,
    ChannelError<String>,
>)
    ensures
        channel::reply_view(r) == upload_key_of(*reply, name@, context@),
{
    match reply {
        HttpReply::Refused { status, body } => Err(
            refused(context, status.as_str(), body.as_str()),
        ),
        HttpReply::Document(j) => {
            if let Some(d) = j.get("data") {
                if let Some(key) = d.text_at(name) {
                    return Ok(key.to_string());
                }
            }
            let mut m = "missing ".to_string();
            m.append(name);
            Err(channel::unavailable(m.as_str()))
        },
        HttpReply::Unreadable(_) => {
            let mut m = "missing ".to_string();
            m.append(name);
            Err(channel::unavailable(m.as_str()))
        },
    }
}

} // verus!
