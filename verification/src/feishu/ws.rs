//! The event connection: how it is set up, kept alive and read.

use crate::channel;
use crate::feishu::chunks;
use crate::feishu::chunks::EventChunkCache;
use crate::feishu::ws_frame;
use crate::feishu::ws_frame::{FeishuFrame, FeishuHeader, FrameView, HeaderView};
use crate::json;
use crate::json::{Json, JsonView};
use crate::text;
use crate::web_url;
use vstd::prelude::*;

verus! {

/// The connection address of earlier versions; it counts as none.
pub const LEGACY_WS_ENDPOINT: &'static str = "wss://open.feishu.cn/open-apis/event/v1/ws";

/// The seconds between two pings, where the service does not say.
pub const DEFAULT_PING_INTERVAL_SECS: u64 = 120;

/// The method of frames that keep the connection alive.
pub const FRAME_METHOD_CONTROL: i32 = 0;

/// The method of frames that carry events.
pub const FRAME_METHOD_DATA: i32 = 1;

// ---- the address of the connection ----

/// The value of the first pair with that name, at or after `i`.
pub open spec fn pair_from(pairs: Seq<(Seq<char>, Seq<char>)>, name: Seq<char>, i: int) -> Option<
    Seq<char>,
>
    decreases pairs.len() - i,
{
    if i < 0 || i >= pairs.len() {
        None
    } else if pairs[i].0 == name {
        Some(pairs[i].1)
    } else {
        pair_from(pairs, name, i + 1)
    }
}

/// The service id among the query pairs of an address; zero where there is none.
pub open spec fn service_id_in(pairs: Option<Seq<(Seq<char>, Seq<char>)>>) -> int {
    match pairs {
        None => 0,
        Some(p) => match pair_from(p, "service_id"@, 0) {
            None => 0,
            Some(v) => match text::signed_of(v) {
                Some(n) => n,
                None => 0,
            },
        },
    }
}

/// The service id among the query pairs of an address; zero where there is none.
pub fn service_id_of_pairs(pairs: &Option<Vec<(String, String)>>) -> (r: i32)
    ensures
        r == service_id_in(web_url::query_view(*pairs)),
{
    match pairs {
        None => 0,
        Some(p) => {
            let ghost all = web_url::pairs_view(p@);
            let mut i: usize = 0;
            while i < p.len()
                invariant
                    i <= p@.len(),
                    all == web_url::pairs_view(p@),
                    web_url::query_view(*pairs) == Some(all),
                    pair_from(all, "service_id"@, 0) == pair_from(all, "service_id"@, i as int),
                decreases p@.len() - i,
            {
                assert(all[i as int] == (p@[i as int].0@, p@[i as int].1@));
                if text::str_eq(p[i].0.as_str(), "service_id") {
                    return match text::parse_i32(p[i].1.as_str()) {
                        Some(n) => n,
                        None => 0,
                    };
                }
                i += 1;
            }
            0
        },
    }
}

/// The service id in the query of an address; zero where there is none.
pub fn parse_service_id(connect_url: &str) -> (r: i32)
    ensures
        r == service_id_in(web_url::url_query(connect_url@)),
{
    service_id_of_pairs(&web_url::query_pairs(connect_url))
}

/// How to connect: the address, the service id in it and the seconds between two pings.
#[derive(Debug)]
pub struct WsRuntimeConfig {
    pub connect_url: String,
    pub service_id: i32,
    pub ping_interval_secs: u64,
}

/// What a setup holds.
pub open spec fn runtime_view(r: Result<WsRuntimeConfig, String>) -> Result<
    (Seq<char>, int, u64),
    Seq<char>,
> {
    match r {
        Ok(c) => Ok((c.connect_url@, c.service_id as int, c.ping_interval_secs)),
        Err(e) => Err(e@),
    }
}

/// How to connect to an address, if it is a URL.
pub open spec fn runtime_for(address: Seq<char>, ping: u64, error: Seq<char>) -> Result<
    (Seq<char>, int, u64),
    Seq<char>,
> {
    match web_url::url_form(address) {
        Err(_) => Err(error),
        Ok(form) => Ok((address, service_id_in(web_url::url_query(form)), ping)),
    }
}

/// How to connect, given what the URL of the address looks like and its query.
pub open spec fn runtime_from(
    address: Seq<char>,
    form: Option<Seq<char>>,
    pairs: Option<Seq<(Seq<char>, Seq<char>)>>,
    ping: u64,
    error: Seq<char>,
) -> Result<(Seq<char>, int, u64), Seq<char>> {
    match form {
        None => Err(error),
        Some(_) => Ok((address, service_id_in(pairs), ping)),
    }
}

/// How to connect, given what the URL of the address looks like and its query.
pub fn runtime_from_parts(
    address: &str,
    form: &Option<String>,
    pairs: &Option<Vec<(String, String)>>,
    ping: u64,
    error: &str,
) -> (r: Result<WsRuntimeConfig, String>)
    ensures
        runtime_view(r) == runtime_from(
            address@,
            channel::opt_view(*form),
            web_url::query_view(*pairs),
            ping,
            error@,
        ),
{
    match form {
        None => Err(error.to_string()),
        Some(_) => Ok(
            WsRuntimeConfig {
                connect_url: address.to_string(),
                service_id: service_id_of_pairs(pairs),
                ping_interval_secs: ping,
            },
        ),
    }
}

fn runtime_at(address: &str, ping: u64, error: &str) -> (r: Result<WsRuntimeConfig, String>)
    ensures
        runtime_view(r) == runtime_for(address@, ping, error@),
{
    let form = match web_url::parse_url(address) {
        Ok(u) => Some(u),
        Err(_) => None,
    };
    let pairs = match &form {
        Some(u) => web_url::query_pairs(u.as_str()),
        None => None,
    };
    runtime_from_parts(address, &form, &pairs, ping, error)
}

/// The connection address that an account has of its own.
pub open spec fn own_endpoint(configured: Seq<char>) -> Option<Seq<char>> {
    let t = text::trim_of(configured);
    if t.len() == 0 || t == LEGACY_WS_ENDPOINT@ {
        None
    } else {
        Some(t)
    }
}

/// How an account with an address of its own connects; nothing where the service has to be asked.
pub open spec fn configured_runtime_of(configured: Seq<char>) -> Option<
    Result<(Seq<char>, int, u64), Seq<char>>,
> {
    match own_endpoint(configured) {
        None => None,
        Some(t) => Some(
            runtime_for(t, DEFAULT_PING_INTERVAL_SECS, "invalid feishu ws_endpoint"@),
        ),
    }
}

/// How an account with an address of its own connects; nothing where the service has to be asked.
pub fn configured_runtime(configured: &str) -> (r: Option<Result<WsRuntimeConfig, String>>)
    ensures
        match r {
            Some(x) => configured_runtime_of(configured@) == Some(runtime_view(x)),
            None => configured_runtime_of(configured@) is None,
        },
{
    let t = text::trim(configured);
    if t.unicode_len() == 0 || text::str_eq(t, LEGACY_WS_ENDPOINT) {
        None
    } else {
        Some(runtime_at(t, DEFAULT_PING_INTERVAL_SECS, "invalid feishu ws_endpoint"))
    }
}

/// Where the service is asked for a connection address.
pub fn bootstrap_url(base: &str) -> (r: String)
    ensures
        r@ == web_url::endpoint_of(base@, "/callback/ws/endpoint"@),
{
    web_url::endpoint(base, "/callback/ws/endpoint")
}

/// What the service says of the connection.
#[derive(Debug)]
pub struct WsBootstrapData {
    pub url: String,
    /// The seconds between two pings; zero or nothing where it does not say.
    pub ping_interval_secs: Option<u64>,
}

/// What came back for the question.
#[derive(Debug)]
pub enum WsBootstrapReply {
    /// The request failed: the message of the error.
    Failed(String),
    /// A status that is no success, and the body.
    Refused { status: String, body: String },
    /// A success whose body is not what was expected.
    Unreadable,
    /// The answer: a code that is zero on success, a message and the data.
    Answer { code: i64, msg: String, data: Option<WsBootstrapData> },
}

/// The seconds between two pings.
pub open spec fn ping_secs(data: WsBootstrapData) -> u64 {
    match data.ping_interval_secs {
        Some(n) => if n > 0 {
            n
        } else {
            DEFAULT_PING_INTERVAL_SECS
        },
        None => DEFAULT_PING_INTERVAL_SECS,
    }
}

/// How to connect by the answer of the service, or the message of an error.
pub open spec fn bootstrap_outcome(base: Seq<char>, reply: WsBootstrapReply) -> Result<
    (Seq<char>, int, u64),
    Seq<char>,
> {
    match reply {
        WsBootstrapReply::Failed(_) => Err(
            "bootstrap request failed: "@ + web_url::endpoint_of(base, "/callback/ws/endpoint"@),
        ),
        WsBootstrapReply::Refused { status, body } => Err(
            "bootstrap HTTP "@ + status@ + ": "@ + body@,
        ),
        WsBootstrapReply::Unreadable => Err("invalid bootstrap response"@),
        WsBootstrapReply::Answer { code, msg, data } => if code != 0 {
            Err("bootstrap code "@ + text::signed_decimal(code as int) + ": "@ + msg@)
        } else {
            match data {
                None => Err("bootstrap response missing data"@),
                Some(d) => if text::trim_of(d.url@).len() == 0 {
                    Err("bootstrap response returned empty URL"@)
                } else {
                    runtime_for(text::trim_of(d.url@), ping_secs(d), "invalid bootstrap URL"@)
                },
            }
        },
    }
}

/// How to connect by the answer of the service, or the message of an error.
pub fn bootstrap_runtime(base: &str, reply: &WsBootstrapReply) -> (r: Result<
    WsRuntimeConfig,
    String,
>)
    ensures
        runtime_view(r) == bootstrap_outcome(base@, *reply),
{
    match reply {
        WsBootstrapReply::Failed(_) => {
            let mut m = "bootstrap request failed: ".to_string();
            m.append(bootstrap_url(base).as_str());
            Err(m)
        },
        WsBootstrapReply::Refused { status, body } => {
            let mut m = "bootstrap HTTP ".to_string();
            m.append(status.as_str());
            m.append(": ");
            m.append(body.as_str());
            Err(m)
        },
        WsBootstrapReply::Unreadable => Err("invalid bootstrap response".to_string()),
        WsBootstrapReply::Answer { code, msg, data } => {
            if *code != 0 {
                let mut m = "bootstrap code ".to_string();
                m.append(text::signed_decimal_text(*code).as_str());
                m.append(": ");
                m.append(msg.as_str());
                return Err(m);
            }
            match data {
                None => Err("bootstrap response missing data".to_string()),
                Some(d) => {
                    let t = text::trim(d.url.as_str());
                    if t.unicode_len() == 0 {
                        return Err("bootstrap response returned empty URL".to_string());
                    }
                    let ping: u64 = match d.ping_interval_secs {
                        Some(n) => {
                            if n > 0 {
                                n
                            } else {
                                DEFAULT_PING_INTERVAL_SECS
                            }
                        },
                        None => DEFAULT_PING_INTERVAL_SECS,
                    };
                    runtime_at(t, ping, "invalid bootstrap URL")
                },
            }
        },
    }
}

// ---- frames ----

/// The value of the first header with that name, at or after `i`.
pub open spec fn header_from(hs: Seq<HeaderView>, key: Seq<char>, i: int) -> Option<Seq<char>>
    decreases hs.len() - i,
{
    if i < 0 || i >= hs.len() {
        None
    } else if hs[i].key == key {
        Some(hs[i].value)
    } else {
        header_from(hs, key, i + 1)
    }
}

/// The value of the first header with that name.
pub fn header_value<'a>(headers: &'a Vec<FeishuHeader>, key: &str) -> (r: Option<&'a str>)
    ensures
        json::text_view(r) == header_from(ws_frame::headers_view(headers@), key@, 0),
{
    let ghost all = ws_frame::headers_view(headers@);
    let mut i: usize = 0;
    while i < headers.len()
        invariant
            i <= headers@.len(),
            all == ws_frame::headers_view(headers@),
            header_from(all, key@, 0) == header_from(all, key@, i as int),
        decreases headers@.len() - i,
    {
        assert(all[i as int] == headers@[i as int]@);
        if text::str_eq(headers[i].key.as_str(), key) {
            return Some(headers[i].value.as_str());
        }
        i += 1;
    }
    None
}

/// The frame that keeps the connection alive.
pub open spec fn ping_frame_of(service_id: i32) -> FrameView {
    FrameView {
        service: service_id,
        method: FRAME_METHOD_CONTROL,
        headers: seq![HeaderView { key: "type"@, value: "ping"@ }],
        ..ws_frame::empty_frame()
    }
}

/// The bytes that keep the connection alive; nothing is sent without a service id.
pub fn ping_frame(service_id: i32) -> (r: Option<Vec<u8>>)
    ensures
        chunks::bytes_view(r) == (if service_id <= 0 {
            None
        } else {
            Some(ws_frame::frame_bytes(ping_frame_of(service_id)))
        }),
{
    if service_id <= 0 {
        return None;
    }
    let mut headers: Vec<FeishuHeader> = Vec::new();
    headers.push(FeishuHeader { key: "type".to_string(), value: "ping".to_string() });
    let frame = FeishuFrame {
        seq_id: 0,
        log_id: 0,
        service: service_id,
        method: FRAME_METHOD_CONTROL,
        headers,
        payload_encoding: String::new(),
        payload_type: String::new(),
        payload: Vec::new(),
        log_id_new: String::new(),
    };
    assert(frame@ =~= ping_frame_of(service_id)) by {
        assert(ws_frame::headers_view(frame.headers@) =~= seq![
            HeaderView { key: "type"@, value: "ping"@ },
        ]);
        assert(frame.payload_encoding@ =~= Seq::empty());
        assert(frame.payload_type@ =~= Seq::empty());
        assert(frame.payload@ =~= Seq::empty());
        assert(frame.log_id_new@ =~= Seq::empty());
    }
    Some(ws_frame::encode_frame(&frame))
}

/// The text that an acknowledgement carries.
pub open spec fn ack_text(code: u16) -> Seq<char> {
    "{\"code\":"@ + text::decimal(code as nat) + "}"@
}

/// The acknowledgement of a frame: the same frame with one more header and a code in place of the
/// payload.
pub open spec fn ack_of(f: FrameView, code: u16) -> FrameView {
    FrameView {
        headers: f.headers.push(HeaderView { key: "biz_rt"@, value: "0"@ }),
        payload: vstd::utf8::encode_utf8(ack_text(code)),
        ..f
    }
}

fn copy_headers(hs: &Vec<FeishuHeader>) -> (r: Vec<FeishuHeader>)
    ensures
        ws_frame::headers_view(r@) == ws_frame::headers_view(hs@),
{
    let mut out: Vec<FeishuHeader> = Vec::new();
    let mut i: usize = 0;
    let ghost all = ws_frame::headers_view(hs@);
    assert(ws_frame::headers_view(out@) =~= all.take(0));
    while i < hs.len()
        invariant
            i <= hs@.len(),
            all == ws_frame::headers_view(hs@),
            ws_frame::headers_view(out@) == all.take(i as int),
        decreases hs@.len() - i,
    {
        let h = FeishuHeader { key: hs[i].key.clone(), value: hs[i].value.clone() };
        let ghost before = ws_frame::headers_view(out@);
        out.push(h);
        assert(ws_frame::headers_view(out@) =~= before.push(h@));
        assert(all.take(i + 1) =~= all.take(i as int).push(h@));
        i += 1;
    }
    assert(all.take(i as int) =~= all);
    out
}

/// The bytes that acknowledge a frame with a code.
pub fn event_ack(frame: &FeishuFrame, code: u16) -> (r: Vec<u8>)
    ensures
        r@ == ws_frame::frame_bytes(ack_of(frame@, code)),
{
    let mut headers = copy_headers(&frame.headers);
    let ghost before = ws_frame::headers_view(headers@);
    let h = FeishuHeader { key: "biz_rt".to_string(), value: "0".to_string() };
    headers.push(h);
    assert(ws_frame::headers_view(headers@) =~= before.push(h@));
    let mut t = "{\"code\":".to_string();
    t.append(text::decimal_text(code as u64).as_str());
    t.append("}");
    let mut payload: Vec<u8> = Vec::new();
    payload.extend_from_slice(t.as_str().as_bytes());
    assert(payload@ =~= vstd::utf8::encode_utf8(ack_text(code)));
    let ack = FeishuFrame {
        seq_id: frame.seq_id,
        log_id: frame.log_id,
        service: frame.service,
        method: frame.method,
        headers,
        payload_encoding: frame.payload_encoding.clone(),
        payload_type: frame.payload_type.clone(),
        payload,
        log_id_new: frame.log_id_new.clone(),
    };
    assert(ack@ =~= ack_of(frame@, code));
    ws_frame::encode_frame(&ack)
}

/// The code with which an event is acknowledged.
pub fn ack_code(handled: bool) -> (r: u16)
    ensures
        r == if handled {
            200u16
        } else {
            500u16
        },
{
    if handled {
        200
    } else {
        500
    }
}

// ---- binary messages ----

/// What a frame that carries an event says of its pieces: the event's id, the number of pieces and
/// the number of this one.
pub open spec fn piece_of(f: FrameView) -> (Seq<char>, nat, nat) {
    (
        match header_from(f.headers, "message_id"@, 0) {
            Some(id) => id,
            None => Seq::empty(),
        },
        match header_from(f.headers, "sum"@, 0) {
            Some(v) => match text::number_up_to(v, usize::MAX as nat) {
                Some(n) => if n > 0 {
                    n
                } else {
                    1
                },
                None => 1,
            },
            None => 1,
        },
        match header_from(f.headers, "seq"@, 0) {
            Some(v) => match text::number_up_to(v, usize::MAX as nat) {
                Some(n) => n,
                None => 0,
            },
            None => 0,
        },
    )
}

/// Whether a frame carries an event.
pub open spec fn carries_event(f: FrameView) -> bool {
    f.method == FRAME_METHOD_DATA && header_from(f.headers, "type"@, 0) == Some("event"@)
}

/// What a binary message asks for.
#[derive(Debug)]
pub enum BinaryMessage {
    /// It is a text message.
    Text(String),
    /// It is no frame.
    Malformed,
    /// Nothing is to be done.
    Nothing,
    /// An event is complete: its payload, and the frame that is to be acknowledged.
    Event { payload: Vec<u8>, frame: FeishuFrame },
}

/// What a binary message asks for.
pub enum BinaryView {
    Text(Seq<char>),
    Malformed,
    Nothing,
    Event { payload: Seq<u8>, frame: FrameView },
}

impl View for BinaryMessage {
    type V = BinaryView;

    open spec fn view(&self) -> BinaryView {
        match *self {
            BinaryMessage::Text(t) => BinaryView::Text(t@),
            BinaryMessage::Malformed => BinaryView::Malformed,
            BinaryMessage::Nothing => BinaryView::Nothing,
            BinaryMessage::Event { payload, frame } => BinaryView::Event {
                payload: payload@,
                frame: frame@,
            },
        }
    }
}

/// Whether bytes are a text that starts like a JSON object.
pub open spec fn is_json_text(b: Seq<u8>) -> bool {
    vstd::utf8::valid_utf8(b) && text::begins(
        text::trim_start_of(vstd::utf8::decode_utf8(b)),
        "{"@,
    )
}

/// What a binary message asks for, and what the cache of pieces holds then.
pub open spec fn binary_step(
    b: Seq<u8>,
    cache: Map<Seq<char>, chunks::ChunkView>,
    now: u128,
) -> (BinaryView, Map<Seq<char>, chunks::ChunkView>) {
    if is_json_text(b) {
        (BinaryView::Text(vstd::utf8::decode_utf8(b)), cache)
    } else {
        match ws_frame::frame_of(b) {
            None => (BinaryView::Malformed, cache),
            Some(f) => if carries_event(f) {
                let (id, sum, seq) = piece_of(f);
                let (after, whole) = chunks::inserted(cache, now, id, sum, seq, f.payload);
                match whole {
                    Some(payload) => (BinaryView::Event { payload, frame: f }, after),
                    None => (BinaryView::Nothing, after),
                }
            } else {
                (BinaryView::Nothing, cache)
            },
        }
    }
}

fn parse_count(v: Option<&str>, default: usize) -> (r: usize)
    ensures
        r == match v {
            Some(s) => match text::number_up_to(s@, usize::MAX as nat) {
                Some(n) => n,
                None => default as nat,
            },
            None => default as nat,
        },
{
    match v {
        Some(s) => match text::parse_usize(s) {
            Some(n) => n,
            None => default,
        },
        None => default,
    }
}

fn copy_bytes(b: &Vec<u8>) -> (r: Vec<u8>)
    ensures
        r@ == b@,
{
    let mut out: Vec<u8> = Vec::new();
    out.extend_from_slice(b.as_slice());
    assert(out@ =~= b@);
    out
}

/// Reads a binary message at the time `now`: a text in disguise, a frame to be passed over, or a
/// piece of an event.
pub fn handle_ws_binary(bin: &[u8], cache: &mut EventChunkCache, now: u128) -> (r: BinaryMessage)
    requires
        old(cache).wf(),
    ensures
        final(cache).wf(),
        (r@, final(cache)@) == binary_step(bin@, old(cache)@, now),
{
    if let Some(t) = text::utf8_text(bin) {
        if text::starts_with(text::trim_start(t.as_str()), "{") {
            return BinaryMessage::Text(t);
        }
    }
    let frame = match ws_frame::decode_frame(bin) {
        Ok(f) => f,
        Err(_) => {
            return BinaryMessage::Malformed;
        },
    };
    if frame.method != FRAME_METHOD_DATA {
        return BinaryMessage::Nothing;
    }
    if !channel::opt_eq(header_value(&frame.headers, "type"), Some("event")) {
        return BinaryMessage::Nothing;
    }
    let id = match header_value(&frame.headers, "message_id") {
        Some(v) => v.to_string(),
        None => String::new(),
    };
    assert(header_from(frame@.headers, "message_id"@, 0) is None ==> id@ =~= Seq::empty());
    let counted: usize = parse_count(header_value(&frame.headers, "sum"), 1);
    let sum: usize = if counted > 0 {
        counted
    } else {
        1
    };
    let seq: usize = parse_count(header_value(&frame.headers, "seq"), 0);
    let payload = copy_bytes(&frame.payload);
    match cache.insert_at(now, id.as_str(), sum, seq, payload) {
        Some(whole) => BinaryMessage::Event { payload: whole, frame },
        None => BinaryMessage::Nothing,
    }
}

/// The event that a payload spells, if it spells one.
pub open spec fn event_in(payload: Seq<u8>) -> Option<JsonView> {
    if vstd::utf8::valid_utf8(payload) {
        json::document_of(vstd::utf8::decode_utf8(payload))
    } else {
        None
    }
}

/// Reads the event in a payload; nothing where it is not UTF-8 or no JSON.
pub fn read_event(payload: &[u8]) -> (r: Option<Json>)
    ensures
        r matches Some(j) ==> event_in(payload@) == Some(j@),
        r is None <==> event_in(payload@) is None,
{
    match text::utf8_text(payload) {
        Some(t) => json::parse_text(t.as_str()),
        None => None,
    }
}

// ---- text messages ----

/// What a text message asks for: a reply, and whether the event in it is to be handled.
#[derive(Debug)]
pub struct TextMessage {
    pub reply: Option<String>,
    pub handle: bool,
}

/// What a text message asks for.
pub open spec fn text_step(j: JsonView) -> (Option<Seq<char>>, bool) {
    if j.text_at("type"@) == Some("ping"@) {
        (Some("{\"type\":\"pong\"}"@), false)
    } else if j.text_at("type"@) == Some("event_callback"@) {
        match j.text_at("uuid"@) {
            Some(uuid) => (
                Some(
                    "{\"status\":0,\"type\":\"event_callback\",\"uuid\":"@ + json::quoted_of(uuid)
                        + "}"@,
                ),
                true,
            ),
            None => (None, true),
        }
    } else {
        (None, true)
    }
}

/// What a text message that spells `j` asks for: a ping is answered, a callback acknowledged, and
/// whatever is no ping is handled as an event.
pub fn handle_ws_document(j: &Json) -> (r: TextMessage)
    ensures
        (channel::opt_view(r.reply), r.handle) == text_step(j@),
{
    let kind = j.text_at("type");
    if channel::opt_eq(kind, Some("ping")) {
        return TextMessage { reply: Some("{\"type\":\"pong\"}".to_string()), handle: false };
    }
    if channel::opt_eq(kind, Some("event_callback")) {
        if let Some(uuid) = j.text_at("uuid") {
            let mut t = "{\"status\":0,\"type\":\"event_callback\",\"uuid\":".to_string();
            t.append(json::quoted(uuid).as_str());
            t.append("}");
            return TextMessage { reply: Some(t), handle: true };
        }
    }
    TextMessage { reply: None, handle: true }
}

/// The document of a text message; null where it spells none.
pub open spec fn message_document(t: Seq<char>) -> JsonView {
    match json::document_of(t) {
        Some(j) => j,
        None => JsonView::Null,
    }
}

/// Reads a text message: what it asks for and the document that it spells.
pub fn handle_ws_text(t: &str) -> (r: (TextMessage, Json))
    ensures
        r.1@ == message_document(t@),
        (channel::opt_view(r.0.reply), r.0.handle) == text_step(message_document(t@)),
{
    let j = match json::parse_text(t) {
        Some(j) => j,
        None => Json::Null,
    };
    (handle_ws_document(&j), j)
}

// ---- the loop ----

/// The longest time between two attempts to connect, in seconds.
pub const MAX_RECONNECT_DELAY_SECS: u64 = 30;

/// Where the loop stands.
#[derive(Debug, Clone, Copy, PartialEq, Eq, Structural)]
pub enum WsPhase {
    /// Before an attempt.
    Idle,
    /// The address is being found out.
    Resolving,
    /// The connection is being made.
    Connecting,
    /// The connection is open.
    Open,
    /// Waiting before the next attempt.
    Waiting,
    /// Over.
    Stopped,
}

/// The loop: where it stands and how long it waits after the next failure, in seconds.
#[derive(Debug, Clone, Copy, PartialEq, Eq, Structural)]
pub struct WsLoop {
    pub phase: WsPhase,
    pub delay: u64,
}

/// What happened.
#[derive(Debug, Clone, Copy, PartialEq, Eq, Structural)]
pub enum WsEvent {
    /// The loop goes on; nothing has stopped it.
    Proceed,
    /// The account is stopped.
    Cancelled,
    /// What was tried worked.
    Worked,
    /// What was tried failed.
    Failed,
    /// It is time for a ping.
    PingDue,
    TextReceived,
    BinaryReceived,
    /// A ping of the protocol below.
    PingReceived,
    /// Anything else that was received.
    OtherReceived,
    /// The connection was closed or broke.
    Closed,
    /// The wait is over.
    Waited,
}

/// What is to be done.
#[derive(Debug, Clone, Copy, PartialEq, Eq, Structural)]
pub enum WsAction {
    /// Find out how to connect.
    Resolve,
    Connect,
    /// Note that the connection is open, find out the bot's id, and start with no pieces of events.
    Opened,
    /// Send a ping; that it failed counts as a loss of the connection.
    Ping,
    HandleText,
    HandleBinary,
    Pong,
    /// Wait for the next thing to happen.
    Listen,
    /// Wait so many seconds.
    Wait(u64),
    /// Note that the connection is lost, then wait so many seconds.
    Lost(u64),
    /// Note that the connection is closed, and end.
    Stop,
}

/// The time to wait after the next failure.
pub open spec fn doubled(delay: u64) -> u64 {
    if delay * 2 > MAX_RECONNECT_DELAY_SECS {
        MAX_RECONNECT_DELAY_SECS
    } else {
        (delay * 2) as u64
    }
}

/// The loop after an event, and what is to be done.
pub open spec fn loop_step(s: WsLoop, e: WsEvent) -> (WsLoop, WsAction) {
    let stopped = (WsLoop { phase: WsPhase::Stopped, ..s }, WsAction::Stop);
    let waiting = WsLoop { phase: WsPhase::Waiting, delay: doubled(s.delay) };
    if s.phase == WsPhase::Stopped {
        stopped
    } else if e == WsEvent::Cancelled && s.phase != WsPhase::Resolving && s.phase
        != WsPhase::Connecting {
        stopped
    } else {
        match s.phase {
            WsPhase::Idle => (WsLoop { phase: WsPhase::Resolving, ..s }, WsAction::Resolve),
            WsPhase::Resolving => match e {
                WsEvent::Worked => (WsLoop { phase: WsPhase::Connecting, ..s }, WsAction::Connect),
                WsEvent::Failed => (waiting, WsAction::Wait(s.delay)),
                _ => (s, WsAction::Listen),
            },
            WsPhase::Connecting => match e {
                WsEvent::Worked => (WsLoop { phase: WsPhase::Open, delay: 1 }, WsAction::Opened),
                WsEvent::Failed => (waiting, WsAction::Wait(s.delay)),
                _ => (s, WsAction::Listen),
            },
            WsPhase::Open => match e {
                WsEvent::PingDue => (s, WsAction::Ping),
                WsEvent::TextReceived => (s, WsAction::HandleText),
                WsEvent::BinaryReceived => (s, WsAction::HandleBinary),
                WsEvent::PingReceived => (s, WsAction::Pong),
                WsEvent::Closed => (waiting, WsAction::Lost(s.delay)),
                WsEvent::Failed => (waiting, WsAction::Lost(s.delay)),
                _ => (s, WsAction::Listen),
            },
            WsPhase::Waiting => match e {
                WsEvent::Waited => (WsLoop { phase: WsPhase::Resolving, ..s }, WsAction::Resolve),
                _ => (s, WsAction::Listen),
            },
            WsPhase::Stopped => stopped,
        }
    }
}

impl WsLoop {
    /// The delay is between one second and the longest.
    pub open spec fn wf(self) -> bool {
        1 <= self.delay <= MAX_RECONNECT_DELAY_SECS
    }

    /// Before the first attempt.
    pub fn new() -> (r: Self)
        ensures
            r == (WsLoop { phase: WsPhase::Idle, delay: 1 }),
            r.wf(),
    {
        WsLoop { phase: WsPhase::Idle, delay: 1 }
    }

    /// Takes in an event and says what is to be done.
    pub fn step(&mut self, e: WsEvent) -> (r: WsAction)
        requires
            old(self).wf(),
        ensures
            (*final(self), r) == loop_step(*old(self), e),
            final(self).wf(),
    {
        if self.phase == WsPhase::Stopped {
            return WsAction::Stop;
        }
        if e == WsEvent::Cancelled && self.phase != WsPhase::Resolving && self.phase
            != WsPhase::Connecting {
            self.phase = WsPhase::Stopped;
            return WsAction::Stop;
        }
        let delay: u64 = self.delay;
        let next: u64 = if delay * 2 > MAX_RECONNECT_DELAY_SECS {
            MAX_RECONNECT_DELAY_SECS
        } else {
            delay * 2
        };
        match self.phase {
            WsPhase::Idle => {
                self.phase = WsPhase::Resolving;
                WsAction::Resolve
            },
            WsPhase::Resolving => match e {
                WsEvent::Worked => {
                    self.phase = WsPhase::Connecting;
                    WsAction::Connect
                },
                WsEvent::Failed => {
                    self.phase = WsPhase::Waiting;
                    self.delay = next;
                    WsAction::Wait(delay)
                },
                _ => WsAction::Listen,
            },
            WsPhase::Connecting => match e {
                WsEvent::Worked => {
                    self.phase = WsPhase::Open;
                    self.delay = 1;
                    WsAction::Opened
                },
                WsEvent::Failed => {
                    self.phase = WsPhase::Waiting;
                    self.delay = next;
                    WsAction::Wait(delay)
                },
                _ => WsAction::Listen,
            },
            WsPhase::Open => match e {
                WsEvent::PingDue => WsAction::Ping,
                WsEvent::TextReceived => WsAction::HandleText,
                WsEvent::BinaryReceived => WsAction::HandleBinary,
                WsEvent::PingReceived => WsAction::Pong,
                WsEvent::Closed => {
                    self.phase = WsPhase::Waiting;
                    self.delay = next;
                    WsAction::Lost(delay)
                },
                WsEvent::Failed => {
                    self.phase = WsPhase::Waiting;
                    self.delay = next;
                    WsAction::Lost(delay)
                },
                _ => WsAction::Listen,
            },
            WsPhase::Waiting => match e {
                WsEvent::Waited => {
                    self.phase = WsPhase::Resolving;
                    WsAction::Resolve
                },
                _ => WsAction::Listen,
            },
            WsPhase::Stopped => WsAction::Stop,
        }
    }
}

/// The loop after a number of attempts that failed, each after its wait, from before the first one.
pub open spec fn after_failures(n: nat) -> WsLoop
    decreases n,
{
    if n == 0 {
        WsLoop { phase: WsPhase::Resolving, delay: 1 }
    } else {
        let failed = loop_step(after_failures((n - 1) as nat), WsEvent::Failed).0;
        loop_step(failed, WsEvent::Waited).0
    }
}

/// The wait doubles with every failure in a row, up to half a minute.
pub proof fn law_backoff(n: nat)
    ensures
        loop_step(after_failures(n), WsEvent::Failed).1 == WsAction::Wait(
            if n >= 5 {
                MAX_RECONNECT_DELAY_SECS
            } else {
                vstd::arithmetic::power2::pow2(n) as u64
            },
        ),
        after_failures(n).phase == WsPhase::Resolving,
        after_failures(n).wf(),
    decreases n,
{
    vstd::arithmetic::power2::lemma2_to64();
    if n > 0 {
        law_backoff((n - 1) as nat);
    }
}

/// A connection that was made starts the waits anew, and once the loop is stopped nothing makes it
/// go on.
pub proof fn law_loop(s: WsLoop, e: WsEvent)
    ensures
        loop_step(s, e).1 == WsAction::Opened ==> loop_step(s, e).0.delay == 1,
        s.phase == WsPhase::Stopped ==> loop_step(s, e) == (s, WsAction::Stop),
        loop_step(s, e).1 == WsAction::Stop ==> loop_step(s, e).0.phase == WsPhase::Stopped,
{
}

} // verus!
