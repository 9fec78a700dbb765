//! What the connection, the requests and the replies of the channel mean, in terms of what came in.

use crate::encoding;
use crate::feishu::api;
use crate::feishu::api::{HttpReply, TokenStepView};
use crate::feishu::chunks;
use crate::feishu::outbound;
use crate::feishu::outbound::{MediaAttachment, StreamEvent};
use crate::feishu::ws;
use crate::feishu::ws::{BinaryView, WsBootstrapData, WsBootstrapReply};
use crate::feishu::ws_frame;
use crate::feishu::ws_frame::{FrameView, HeaderView};
use crate::json;
use crate::json::{Json, JsonView};
use crate::text;
use vstd::prelude::*;

verus! {

proof fn lemma_has(s: Seq<char>, before: Seq<char>, p: Seq<char>, after: Seq<char>)
    requires
        s == before + p + after,
    ensures
        text::has(s, p),
{
    let n: int = before.len() as int;
    assert(s.subrange(n, n + p.len()) =~= p);
    assert(text::occurs_at(s, p, n));
    text::lemma_find(s, p, 0);
}

// ---- requests ----

/// The token that a reply brings is the text under `tenant_access_token`; it is not used for longer
/// than the reply says, and a reply without it brings none.
pub proof fn law_token(j: Json, now: u128)
    ensures
        api::token_step(None, Some(HttpReply::Document(j)), now) matches TokenStepView::Fetched(
            token,
            until,
        ) ==> {
            &&& j@.text_at("tenant_access_token"@) == Some(token)
            &&& j@.unsigned_at("expire"@) matches Some(n) ==> until <= now + n * 1_000_000_000
        },
        j@.text_at("tenant_access_token"@) is Some <==> api::token_step(
            None,
            Some(HttpReply::Document(j)),
            now,
        ) is Fetched,
{
}

/// A token is used again only as long as it lasts, and it is the one that was kept; without one, it is
/// asked for.
pub proof fn law_token_kept(cached: Option<api::CachedAccessToken>, now: u128)
    ensures
        api::token_step(cached, None, now) matches TokenStepView::Kept(t) ==> {
            &&& cached matches Some(c)
            &&& c.token@ == t
            &&& now < c.expires_at
        },
        cached is None ==> api::token_step(cached, None, now) is Request,
{
}

/// The bot is known by what stands under `open_id` in `bot`.
pub proof fn law_bot(j: Json, bot: JsonView)
    requires
        j@.member("bot"@) == Some(bot),
    ensures
        api::bot_id_in(HttpReply::Document(j)) == bot.text_at("open_id"@),
{
}

/// The key of an upload is what stands under its name in `data`, and nothing else is taken for one.
pub proof fn law_upload_key(j: Json, name: Seq<char>, context: Seq<char>)
    ensures
        api::upload_key_of(HttpReply::Document(j), name, context) matches Ok(key) ==> {
            &&& j@.member("data"@) matches Some(d)
            &&& d.text_at(name) == Some(key)
        },
        j@.member("data"@) matches Some(d) ==> (d.text_at(name) is Some ==> api::upload_key_of(
            HttpReply::Document(j),
            name,
            context,
        ) is Ok),
{
}

// ---- what goes out ----

/// The pieces of a stream.
pub open spec fn is_pieces(events: Seq<StreamEvent>, pieces: Seq<Seq<char>>) -> bool {
    &&& pieces.len() <= events.len()
    &&& forall|i: int|
        0 <= i < pieces.len() ==> (#[trigger] events[i] matches StreamEvent::Delta(d)) && pieces[i]
            == events[i]->Delta_0@
}

proof fn lemma_streamed(events: Seq<StreamEvent>, pieces: Seq<Seq<char>>, i: int)
    requires
        is_pieces(events, pieces),
        0 <= i <= pieces.len(),
    ensures
        outbound::streamed_from(events, 0, Seq::empty()) == outbound::streamed_from(
            events,
            i,
            text::concat_of(pieces.take(i)),
        ),
    decreases i,
{
    if i > 0 {
        lemma_streamed(events, pieces, i - 1);
        assert(pieces.take(i).drop_last() =~= pieces.take(i - 1));
        assert(pieces.take(i).last() == pieces[i - 1]);
        assert(events[i - 1] is Delta);
    } else {
        assert(text::concat_of(pieces.take(0)) =~= Seq::empty());
    }
}

/// The text of a streamed reply is made of its pieces, one after the other, up to its end; an error
/// after the first piece changes nothing of it, and stands for it where there is none.
pub proof fn law_streamed(events: Seq<StreamEvent>, pieces: Seq<Seq<char>>)
    requires
        is_pieces(events, pieces),
        pieces.len() < events.len() ==> !(events[pieces.len() as int] is Delta),
    ensures
        ({
            let t = outbound::streamed_from(events, 0, Seq::empty());
            let whole = text::concat_of(pieces);
            &&& pieces.len() == events.len() ==> t == whole
            &&& pieces.len() < events.len() && events[pieces.len() as int] is Done ==> t == whole
            &&& whole.len() > 0 ==> t == whole
            &&& pieces.len() < events.len() && whole.len() == 0 ==> (events[pieces.len() as int] matches StreamEvent::Error(
                e,
            ) ==> t == e@)
        }),
{
    lemma_streamed(events, pieces, pieces.len() as int);
    assert(pieces.take(pieces.len() as int) =~= pieces);
}

/// An image is sent as an image, anything else as a file, and the message names the key under which
/// the medium was uploaded.
pub proof fn law_media(media: MediaAttachment, key: Seq<char>)
    ensures
        ({
            let route = outbound::route_of(media.mime_type@);
            let content = outbound::media_content_of(media, key);
            let is_image = text::begins(media.mime_type@, "image/"@);
            &&& is_image <==> route is Image
            &&& is_image ==> route.message_type_name() == "image"@ && text::has(
                content,
                "image_key"@ + "\":"@ + json::quoted_of(key),
            )
            &&& !is_image ==> route.message_type_name() == "file"@ && text::has(
                content,
                "file_key"@ + "\":"@ + json::quoted_of(key),
            )
            &&& !is_image ==> (outbound::url_name(media.url@) matches Some(name) ==> text::has(
                content,
                "file_name"@ + "\":"@ + json::quoted_of(name),
            ))
            &&& route is Audio <==> !is_image && text::begins(media.mime_type@, "audio/"@)
        }),
{
    let route = outbound::route_of(media.mime_type@);
    let content = outbound::media_content_of(media, key);
    let k = json::quoted_of(key);
    if route is Image {
        let p = "image_key"@ + "\":"@ + k;
        assert(content =~= "{\""@ + p + "}"@);
        lemma_has(content, "{\""@, p, "}"@);
    } else {
        let name = outbound::media_name(
            outbound::url_name(media.url@),
            route.stem_name(),
            media.mime_type@,
        );
        let p = "file_key"@ + "\":"@ + k;
        let q = "file_name"@ + "\":"@ + json::quoted_of(name);
        let rest = ",\""@ + q + "}"@;
        assert(content =~= "{\""@ + p + rest);
        lemma_has(content, "{\""@, p, rest);
        let head = "{\""@ + p + ",\""@;
        assert(content =~= head + q + "}"@);
        lemma_has(content, head, q, "}"@);
    }
}

/// A medium that stands in its own address is the one that was put there.
pub proof fn law_inline_media(mime: Seq<char>, data: Seq<u8>)
    requires
        forall|i: int| 0 <= i < mime.len() ==> #[trigger] mime[i] != ',' && mime[i] != ';',
        !text::begins(mime + ";base64"@, "data:"@),
    ensures
        outbound::inline_media_of(encoding::data_uri_of(mime, data)) matches Some(m) && m.0 == data
            && m.2 == mime && text::begins(m.1, "upload"@),
{
    encoding::law_data_uri_inverse(mime, data);
    let name = outbound::named_by_type("upload"@, mime);
    assert(name.subrange(0, "upload"@.len() as int) =~= "upload"@);
}

/// What is appended to a text comes after it, and the text stays.
pub proof fn law_suffixed(t: Seq<char>, suffix: Seq<char>)
    ensures
        text::begins(outbound::suffixed_of(t, suffix), t),
        text::ends(outbound::suffixed_of(t, suffix), suffix),
        suffix.len() == 0 ==> outbound::suffixed_of(t, suffix) == t,
        text::ends(outbound::titled_of(Some(t), suffix), suffix),
        text::begins(outbound::titled_of(Some(t), suffix), t),
        outbound::titled_of(None, suffix) == suffix,
{
    let a = outbound::suffixed_of(t, suffix);
    let b = outbound::titled_of(Some(t), suffix);
    assert(a.subrange(0, t.len() as int) =~= t);
    assert(a.subrange(a.len() - suffix.len(), a.len() as int) =~= suffix);
    assert(b.subrange(0, t.len() as int) =~= t);
    assert(b.subrange(b.len() - suffix.len(), b.len() as int) =~= suffix);
}

// ---- the connection ----

/// An account with an address of its own connects there, and is not asked for another one.
pub proof fn law_own_address(configured: Seq<char>)
    ensures
        ws::configured_runtime_of(configured) matches Some(Ok(r)) ==> r.0 == text::trim_of(configured)
            && r.0.len() > 0 && r.2 == 120,
        text::trim_of(configured).len() == 0 ==> ws::configured_runtime_of(configured) is None,
{
}

/// The connection that the service offers is made to the address that it gives, and kept alive as
/// often as it says; an offer with a code is an error.
pub proof fn law_offered(base: Seq<char>, code: i64, msg: String, data: Option<WsBootstrapData>)
    ensures
        ({
            let r = ws::bootstrap_outcome(base, WsBootstrapReply::Answer { code, msg, data });
            &&& r matches Ok(c) ==> {
                &&& code == 0
                &&& data matches Some(d)
                &&& c.0 == text::trim_of(d.url@)
                &&& c.0.len() > 0
                &&& c.2 > 0
                &&& d.ping_interval_secs matches Some(n) ==> (n > 0 ==> c.2 == n)
            }
            &&& code != 0 ==> r is Err && text::ends(r->Err_0, msg@)
        }),
{
    if code != 0 {
        let head = "bootstrap code "@ + text::signed_decimal(code as int) + ": "@;
        let e = head + msg@;
        assert(e.subrange(e.len() - msg@.len(), e.len() as int) =~= msg@);
    }
}

proof fn lemma_pair(pairs: Seq<(Seq<char>, Seq<char>)>, name: Seq<char>, i: int, j: int)
    requires
        0 <= j <= i < pairs.len(),
        pairs[i].0 == name,
        forall|m: int| j <= m < i ==> (#[trigger] pairs[m]).0 != name,
    ensures
        ws::pair_from(pairs, name, j) == Some(pairs[i].1),
    decreases i - j,
{
    if j < i {
        lemma_pair(pairs, name, i, j + 1);
    }
}

/// The service is the number under `service_id` among the query pairs of an address.
pub proof fn law_service(pairs: Seq<(Seq<char>, Seq<char>)>, i: int, n: int)
    requires
        0 <= i < pairs.len(),
        pairs[i].0 == "service_id"@,
        forall|m: int| 0 <= m < i ==> (#[trigger] pairs[m]).0 != "service_id"@,
        text::signed_of(pairs[i].1) == Some(n),
    ensures
        ws::service_id_in(Some(pairs)) == n,
{
    lemma_pair(pairs, "service_id"@, i, 0);
}

proof fn lemma_header(hs: Seq<HeaderView>, key: Seq<char>, i: int, j: int)
    requires
        0 <= j <= i < hs.len(),
        hs[i].key == key,
        forall|m: int| j <= m < i ==> (#[trigger] hs[m]).key != key,
    ensures
        ws::header_from(hs, key, j) == Some(hs[i].value),
    decreases i - j,
{
    if j < i {
        lemma_header(hs, key, i, j + 1);
    }
}

/// A header is looked up by its name; the first one counts.
pub proof fn law_header(hs: Seq<HeaderView>, i: int)
    requires
        0 <= i < hs.len(),
        forall|m: int| 0 <= m < i ==> (#[trigger] hs[m]).key != hs[i].key,
    ensures
        ws::header_from(hs, hs[i].key, 0) == Some(hs[i].value),
{
    lemma_header(hs, hs[i].key, i, 0);
}

/// An acknowledgement is the frame that came, but for its payload, which is the code, and one header
/// more; so whoever sent the frame knows which one is meant.
pub proof fn law_acknowledged(f: FrameView, code: u16)
    ensures
        ({
            let a = ws::ack_of(f, code);
            &&& a.seq_id == f.seq_id
            &&& a.log_id == f.log_id
            &&& a.log_id_new == f.log_id_new
            &&& a.service == f.service
            &&& a.method == f.method
            &&& a.payload_encoding == f.payload_encoding
            &&& a.payload_type == f.payload_type
            &&& a.headers.len() == f.headers.len() + 1
            &&& a.headers.drop_last() == f.headers
            &&& a.headers.last().key == "biz_rt"@
            &&& text::has(ws::ack_text(code), "\"code\":"@ + text::decimal(code as nat))
            &&& a.payload == vstd::utf8::encode_utf8(ws::ack_text(code))
        }),
{
    reveal_strlit("{\"code\":");
    reveal_strlit("\"code\":");
    reveal_strlit("{");
    let a = ws::ack_of(f, code);
    assert(a.headers.drop_last() =~= f.headers);
    let p = "\"code\":"@ + text::decimal(code as nat);
    assert(ws::ack_text(code) =~= "{"@ + p + "}"@);
    lemma_has(ws::ack_text(code), "{"@, p, "}"@);
}

/// What keeps the connection alive is a control frame of the service that says it is a ping.
pub proof fn law_ping(service: i32)
    ensures
        ws::ping_frame_of(service).service == service,
        ws::ping_frame_of(service).method == 0,
        ws::header_from(ws::ping_frame_of(service).headers, "type"@, 0) == Some("ping"@),
        ws::ping_frame_of(service).payload.len() == 0,
        !ws::carries_event(ws::ping_frame_of(service)),
{
    lemma_header(ws::ping_frame_of(service).headers, "type"@, 0, 0);
}

/// A frame that carries a whole event delivers its payload, with the frame that is to be
/// acknowledged; a frame that carries none delivers nothing and leaves the pieces alone.
pub proof fn law_delivered(
    f: FrameView,
    b: Seq<u8>,
    cache: Map<Seq<char>, chunks::ChunkView>,
    now: u128,
)
    requires
        ws_frame::frame_of(b) == Some(f),
        !ws::is_json_text(b),
    ensures
        f.method == 1 && ws::header_from(f.headers, "type"@, 0) == Some("event"@) && ws::header_from(
            f.headers,
            "sum"@,
            0,
        ) is None ==> ws::binary_step(b, cache, now).0 == (BinaryView::Event {
            payload: f.payload,
            frame: f,
        }),
        f.method != 1 || ws::header_from(f.headers, "type"@, 0) != Some("event"@) ==> ws::binary_step(
            b,
            cache,
            now,
        ) == (BinaryView::Nothing, cache),
        ws::binary_step(b, cache, now).0 matches BinaryView::Event { payload, frame } ==> frame == f,
{
}

/// A ping is answered and no event; anything else is an event, and one that asks for it is answered
/// with its own id.
pub proof fn law_text(j: JsonView)
    ensures
        ws::text_step(j).1 <==> j.text_at("type"@) != Some("ping"@),
        j.text_at("type"@) == Some("ping"@) ==> (ws::text_step(j).0 matches Some(t) && text::has(
            t,
            "pong"@,
        )),
        j.text_at("type"@) == Some("event_callback"@) ==> (j.text_at("uuid"@) matches Some(uuid) ==> (
        ws::text_step(j).0 matches Some(t) && text::has(t, "\"uuid\":"@ + json::quoted_of(uuid)))),
        j.text_at("type"@) != Some("ping"@) && j.text_at("type"@) != Some("event_callback"@)
            ==> ws::text_step(j).0 is None,
{
    reveal_strlit("ping");
    reveal_strlit("event_callback");
    assert("ping"@.len() != "event_callback"@.len());
    reveal_strlit("{\"type\":\"pong\"}");
    reveal_strlit("{\"type\":\"");
    reveal_strlit("pong");
    reveal_strlit("\"}");
    let pong = "{\"type\":\"pong\"}"@;
    assert(pong =~= "{\"type\":\""@ + "pong"@ + "\"}"@);
    lemma_has(pong, "{\"type\":\""@, "pong"@, "\"}"@);
    if let Some(uuid) = j.text_at("uuid"@) {
        reveal_strlit("{\"status\":0,\"type\":\"event_callback\",\"uuid\":");
        reveal_strlit("{\"status\":0,\"type\":\"event_callback\",");
        reveal_strlit("\"uuid\":");
        let head = "{\"status\":0,\"type\":\"event_callback\","@;
        let p = "\"uuid\":"@ + json::quoted_of(uuid);
        let t = "{\"status\":0,\"type\":\"event_callback\",\"uuid\":"@ + json::quoted_of(uuid) + "}"@;
        assert(t =~= head + p + "}"@);
        lemma_has(t, head, p, "}"@);
    }
}

} // verus!
