//! The Feishu side: accounts, events, replies and the connection.

use moltis_feishu::channel::{ChannelError, ChannelMessageKind, ChannelType};
use moltis_feishu::feishu::api::{
    bot_info_url, cached_access_token, fetch_access_token, fetch_bot_open_id, file_content,
    files_url, get_access_token, image_content, images_url, messages_url, refused, text_content, token_url,
    upload_key, HttpReply, TokenStep, SECOND_NANOS,
};
use moltis_feishu::feishu::chunks::EventChunkCache;
use moltis_feishu::feishu::config::{DmPolicy, FeishuAccountConfig, GroupPolicy, MentionMode};
use moltis_feishu::feishu::events::{
    access_granted, content_disposition_filename, download_message_resource, handle_event_value,
    map_message_kind, mentions_target_bot, normalize_command_text, read_inbound, resource_url,
    strip_leading_at_tag, strip_leading_mention_token, AccessPolicy,
    DownloadAnswer, DownloadStep, EventAnswer, EventAsk, EventEffect, EventSetup,
};
use moltis_feishu::feishu::outbound::{
    collect_stream, extension_from_mime, fetched_media, filename_from_media, filename_from_url,
    inline_media, media_content, media_route, text_with_suffix, titled_link, MediaAttachment,
    MediaRoute, StreamEvent, StreamedText,
};
use moltis_feishu::feishu::plugin::{health_snapshot, FeishuPlugin, PROBE_CACHE_NANOS};
use moltis_feishu::feishu::ws::{
    ack_code, bootstrap_runtime, bootstrap_url, configured_runtime, event_ack, handle_ws_binary,
    handle_ws_text, header_value, parse_service_id, ping_frame, read_event, BinaryMessage,
    WsAction, WsBootstrapData, WsBootstrapReply, WsEvent, WsLoop, LEGACY_WS_ENDPOINT,
};
use moltis_feishu::feishu::ws_frame::{decode_frame, encode_frame, FeishuFrame, FeishuHeader};
use moltis_feishu::json::{parse_text, Json};

fn json(s: &str) -> Json {
    parse_text(s).unwrap()
}

fn config(app_id: &str, app_secret: &str) -> FeishuAccountConfig {
    FeishuAccountConfig {
        app_id: app_id.to_string(),
        app_secret: app_secret.to_string(),
        ..FeishuAccountConfig::default()
    }
}

// ---- configuration and accounts ----

#[test]
fn default_config() {
    let cfg = FeishuAccountConfig::default();
    assert_eq!(cfg.dm_policy, DmPolicy::Allowlist);
    assert_eq!(cfg.group_policy, GroupPolicy::Open);
    assert_eq!(cfg.mention_mode, MentionMode::Mention);
    assert_eq!(cfg.session_auto_archive_days, 30);
}

#[test]
fn start_account_requires_credentials() {
    let mut plugin = FeishuPlugin::new();
    let err = plugin.start_account("bot", FeishuAccountConfig::default()).unwrap_err();
    match err {
        ChannelError::InvalidInput(m) => assert!(m.contains("app_id and app_secret")),
        other => panic!("{other:?}"),
    }
    assert!(!plugin.has_account("bot"));
}

#[test]
fn update_account_config_replaces_live_config() {
    let mut plugin = FeishuPlugin::new();
    let mut old = config("old-app", "old-secret");
    old.allow_agent_switch = false;
    old.session_auto_archive_days = 30;
    plugin.start_account("bot", old).unwrap();

    let mut new = config("new-app", "new-secret");
    new.allow_agent_switch = true;
    new.session_auto_archive_days = 7;
    plugin.update_account_config("bot", new).unwrap();

    let cfg = plugin.account_config("bot").unwrap();
    assert_eq!(cfg.app_id, "new-app");
    assert!(cfg.allow_agent_switch);
    assert_eq!(cfg.session_auto_archive_days, 7);
}

#[test]
fn stop_account_removes_live_account() {
    let mut plugin = FeishuPlugin::new();
    plugin.start_account("bot", config("app", "secret")).unwrap();
    assert!(plugin.stop_account("bot"));
    assert!(!plugin.has_account("bot"));
    assert!(!plugin.stop_account("bot"));
}

#[test]
fn unknown_accounts_are_refused() {
    let mut plugin = FeishuPlugin::new();
    assert_eq!(
        plugin.update_account_config("bot", config("a", "b")).unwrap_err(),
        ChannelError::UnknownAccount("bot".to_string())
    );
    assert_eq!(
        plugin.start_probe("bot", 0).unwrap_err(),
        ChannelError::UnknownAccount("bot".to_string())
    );
    assert!(plugin.account_config("bot").is_none());
    assert_eq!(plugin.id(), "feishu");
    assert_eq!(plugin.name(), "Feishu");
}

#[test]
fn account_ids_lists_every_account_once() {
    let mut plugin = FeishuPlugin::new();
    plugin.start_account("a", config("1", "2")).unwrap();
    plugin.start_account("b", config("1", "2")).unwrap();
    plugin.start_account("a", config("3", "4")).unwrap();
    let mut ids = plugin.account_ids();
    ids.sort();
    assert_eq!(ids, vec!["a", "b"]);
    assert_eq!(plugin.account_config("a").unwrap().app_id, "3");
}

#[test]
fn probes_are_reused_for_half_a_minute() {
    let mut plugin = FeishuPlugin::new();
    plugin.start_account("bot", config("a", "b")).unwrap();
    assert!(plugin.cached_probe("bot", 5).is_none());
    assert!(plugin.start_probe("bot", 5).unwrap().is_none());
    let s = plugin.finish_probe("bot", true, false, 5);
    assert!(!s.connected);
    assert_eq!(s.details.as_deref(), Some("ws disconnected"));
    assert!(plugin.cached_probe("bot", 5 + PROBE_CACHE_NANOS - 1).is_some());
    assert!(plugin.cached_probe("bot", 5 + PROBE_CACHE_NANOS).is_none());
    assert!(plugin.start_probe("bot", 5 + PROBE_CACHE_NANOS).unwrap().is_none());
}

#[test]
fn health_details() {
    assert_eq!(health_snapshot("x", true, true).details.as_deref(), Some("ok"));
    assert!(health_snapshot("x", true, true).connected);
    assert_eq!(health_snapshot("x", false, true).details.as_deref(), Some("auth failed"));
    assert_eq!(health_snapshot("x", false, false).details.as_deref(), Some("auth failed"));
}

// ---- the HTTP interface ----

#[test]
fn addresses_below_the_base() {
    assert_eq!(
        token_url("https://open.feishu.cn//"),
        "https://open.feishu.cn/open-apis/auth/v3/tenant_access_token/internal"
    );
    assert_eq!(bot_info_url("https://x"), "https://x/open-apis/bot/v3/info");
    assert_eq!(
        messages_url("https://x/"),
        "https://x/open-apis/im/v1/messages?receive_id_type=chat_id"
    );
    assert_eq!(images_url("https://x"), "https://x/open-apis/im/v1/images");
    assert_eq!(files_url("https://x"), "https://x/open-apis/im/v1/files");
    assert_eq!(bootstrap_url("https://x/"), "https://x/callback/ws/endpoint");
}

#[test]
fn tokens_are_given_up_a_minute_early() {
    let reply = HttpReply::Document(json(
        r#"{"code":0,"tenant_access_token":"t-1","expire":7200}"#,
    ));
    let token = fetch_access_token(&reply, 1000).unwrap();
    assert_eq!(token.token, "t-1");
    let end = 1000 + (7200 - 60) * SECOND_NANOS;
    assert_eq!(token.expires_at, end);
    let kept = Some(token);
    assert_eq!(cached_access_token(&kept, end - 1).as_deref(), Some("t-1"));
    assert!(cached_access_token(&kept, end).is_none());
    assert!(cached_access_token(&None, 0).is_none());
    assert!(matches!(get_access_token(&kept, &None, end - 1), TokenStep::Kept(t) if t == "t-1"));
    assert!(matches!(get_access_token(&kept, &None, end), TokenStep::Request));
    assert!(matches!(
        get_access_token(&kept, &Some(reply), end),
        TokenStep::Fetched(t) if t.token == "t-1" && t.expires_at > end
    ));
    assert!(matches!(
        get_access_token(&None, &Some(HttpReply::Unreadable("bad".into())), 0),
        TokenStep::Failed(e) if e == "bad"
    ));
}

#[test]
fn token_replies_that_fail() {
    assert!(fetch_access_token(&HttpReply::Document(json(r#"{"code":99,"msg":"no"}"#)), 0).is_err());
    assert!(fetch_access_token(&HttpReply::Document(json("{}")), 0).is_err());
    assert!(fetch_access_token(&HttpReply::Unreadable("bad".into()), 0).is_err());
    assert!(fetch_access_token(
        &HttpReply::Refused { status: "500".into(), body: "b".into() },
        0
    )
    .is_err());
}

#[test]
fn bot_ids() {
    let ok = HttpReply::Document(json(r#"{"bot":{"open_id":"ou_1"}}"#));
    assert_eq!(fetch_bot_open_id(&ok).as_deref(), Some("ou_1"));
    assert!(fetch_bot_open_id(&HttpReply::Document(json("{}"))).is_none());
    assert!(fetch_bot_open_id(&HttpReply::Unreadable("x".into())).is_none());
}

#[test]
fn message_contents_are_json() {
    assert_eq!(text_content("a\"b\n\u{1}中"), "{\"text\":\"a\\\"b\\n\\u0001中\"}");
    assert_eq!(image_content("k"), "{\"image_key\":\"k\"}");
    let f = json(&file_content("k", "n.txt"));
    assert_eq!(f.text_at("file_key"), Some("k"));
    assert_eq!(f.text_at("file_name"), Some("n.txt"));
}

#[test]
fn upload_keys() {
    let ok = HttpReply::Document(json(r#"{"code":0,"data":{"image_key":"img_1"}}"#));
    assert_eq!(upload_key(&ok, "image_key", "upload").unwrap(), "img_1");
    let none = HttpReply::Document(json(r#"{"code":0,"data":{}}"#));
    assert!(upload_key(&none, "image_key", "upload").is_err());
    match refused("ctx", "500", "b") {
        ChannelError::External { context, message } => {
            assert!(!context.is_empty());
            assert!(message.contains("500"));
        },
        other => panic!("{other:?}"),
    }
}

// ---- media ----

#[test]
fn filename_from_media_prefers_url_filename() {
    let media = MediaAttachment {
        url: "https://example.com/path/voice-note.ogg".to_string(),
        mime_type: "audio/ogg".to_string(),
    };
    assert_eq!(filename_from_media(&media, "audio"), "voice-note.ogg");
}

#[test]
fn filename_from_media_falls_back_to_mime_extension() {
    let media = MediaAttachment {
        url: "data:audio/webm;base64,AAA".to_string(),
        mime_type: "audio/webm".to_string(),
    };
    assert_eq!(filename_from_media(&media, "audio"), "audio.webm");
}

#[test]
fn filename_from_media_falls_back_to_stem() {
    let media = MediaAttachment {
        url: "data:application/octet-stream;base64,AAA".to_string(),
        mime_type: "application/octet-stream".to_string(),
    };
    assert_eq!(filename_from_media(&media, "file"), "file");
}

#[test]
fn fetch_media_bytes_data_url_uses_mime_extension() {
    let m = inline_media("data:audio/ogg;base64,T2dnUw==").unwrap();
    assert_eq!(m.bytes, b"OggS");
    assert_eq!(m.filename, "upload.ogg");
    assert_eq!(m.mime, "audio/ogg");
    assert!(inline_media("https://example.com/a.png").is_none());
}

#[test]
fn fetched_media_takes_its_type_from_the_reply() {
    let media =
        MediaAttachment { url: "https://e.com/".to_string(), mime_type: "image/png".to_string() };
    let m = fetched_media(&media, Some("image/jpeg"), vec![1]);
    assert_eq!(m.mime, "image/jpeg");
    assert_eq!(m.bytes, vec![1]);
    let n = fetched_media(&media, None, vec![]);
    assert_eq!(n.mime, "image/png");
}

#[test]
fn names_and_types_of_media() {
    assert_eq!(filename_from_url("https://e.com/a/b.txt?x=1#y").as_deref(), Some("b.txt"));
    assert!(filename_from_url("https://e.com/").is_none());
    assert!(filename_from_url("not a url").is_none());
    assert_eq!(extension_from_mime("AUDIO/MPEG"), Some("mp3"));
    assert_eq!(extension_from_mime("text/plain"), None);
    assert_eq!(media_route("image/png"), MediaRoute::Image);
    assert_eq!(media_route("audio/ogg"), MediaRoute::Audio);
    assert_eq!(media_route("application/pdf"), MediaRoute::File);
    let media =
        MediaAttachment { url: "https://e.com/a.png".into(), mime_type: "image/png".into() };
    assert_eq!(media_content(&media, "k"), "{\"image_key\":\"k\"}");
    assert!(text_with_suffix("a", "b").contains('a'));
    assert!(titled_link(Some("T"), "l").contains("T"));
    assert!(titled_link(None, "l").contains("l"));
}

#[test]
fn streams_are_collected_until_they_end() {
    let events = vec![
        StreamEvent::Delta("a".into()),
        StreamEvent::Delta("b".into()),
        StreamEvent::Done,
        StreamEvent::Delta("c".into()),
    ];
    assert_eq!(collect_stream(&events), "ab");
    let mut s = StreamedText::new();
    s.push(&StreamEvent::Delta("x".into()));
    assert_eq!(s.message(), Some("x"));
    assert!(StreamedText::new().message().is_none());
}

// ---- chunks ----

#[test]
fn chunk_cache_merges_all_parts() {
    let mut cache = EventChunkCache::default();
    assert!(cache.insert("mid", 2, 0, b"hel".to_vec()).is_none());
    let merged = cache.insert("mid", 2, 1, b"lo".to_vec()).unwrap();
    assert_eq!(merged, b"hello");
}

#[test]
fn chunk_cache_rejects_invalid_seq() {
    let mut cache = EventChunkCache::default();
    assert!(cache.insert("mid", 2, 2, b"oops".to_vec()).is_none());
}

#[test]
fn chunks_are_merged_in_the_order_of_their_numbers() {
    let mut cache = EventChunkCache::default();
    assert!(cache.insert("m", 3, 2, b"c".to_vec()).is_none());
    assert!(cache.insert("other", 2, 0, b"x".to_vec()).is_none());
    assert!(cache.insert("m", 3, 0, b"a".to_vec()).is_none());
    assert_eq!(cache.insert("m", 3, 1, b"b".to_vec()).unwrap(), b"abc");
    assert!(cache.insert("m", 3, 1, b"b".to_vec()).is_none());
}

#[test]
fn mixed_events_come_out_apart() {
    let second = 1_000_000_000u128;
    let mut cache = EventChunkCache::default();
    assert!(cache.insert_at(0, "x", 3, 2, b"X2".to_vec()).is_none());
    assert!(cache.insert_at(9 * second, "y", 2, 1, b"Y1".to_vec()).is_none());
    assert!(cache.insert_at(10 * second, "x", 3, 0, b"X0".to_vec()).is_none());
    assert_eq!(cache.insert_at(19 * second, "y", 2, 0, b"Y0".to_vec()).unwrap(), b"Y0Y1");
    assert_eq!(cache.insert_at(20 * second, "x", 3, 1, b"X1".to_vec()).unwrap(), b"X0X1X2");
    // Nothing is left: the same pieces start anew.
    assert!(cache.insert_at(20 * second, "x", 3, 1, b"X1".to_vec()).is_none());
    assert!(cache.insert_at(20 * second, "y", 2, 0, b"Y0".to_vec()).is_none());
}

#[test]
fn chunks_that_are_too_old_are_dropped() {
    let mut cache = EventChunkCache::default();
    assert!(cache.insert_at(0, "m", 2, 0, b"a".to_vec()).is_none());
    cache.prune_at(60_000_000_000);
    assert!(cache.insert_at(60_000_000_000, "m", 2, 1, b"b".to_vec()).is_none());
    assert_eq!(cache.insert_at(60_000_000_001, "m", 2, 0, b"a".to_vec()).unwrap(), b"ab");
}

// ---- the connection ----

#[test]
fn parse_service_id_works() {
    let url = "wss://open.feishu.cn/ws?device_id=d&service_id=123";
    assert_eq!(parse_service_id(url), 123);
}

#[test]
fn parse_service_id_missing_defaults_zero() {
    assert_eq!(parse_service_id("wss://open.feishu.cn/ws"), 0);
}

#[test]
fn configured_addresses() {
    assert!(configured_runtime("  ").is_none());
    assert!(configured_runtime(LEGACY_WS_ENDPOINT).is_none());
    let c = configured_runtime(" wss://own.example/ws?service_id=9 ").unwrap().unwrap();
    assert_eq!(c.connect_url, "wss://own.example/ws?service_id=9");
    assert_eq!(c.service_id, 9);
    assert_eq!(c.ping_interval_secs, 120);
    assert_eq!(configured_runtime("nonsense").unwrap().unwrap_err(), "invalid feishu ws_endpoint");
}

#[test]
fn bootstrap_replies() {
    let ok = WsBootstrapReply::Answer {
        code: 0,
        msg: "ok".into(),
        data: Some(WsBootstrapData {
            url: "wss://x/y?service_id=4".into(),
            ping_interval_secs: Some(33),
        }),
    };
    let c = bootstrap_runtime("https://b", &ok).unwrap();
    assert_eq!((c.service_id, c.ping_interval_secs), (4, 33));
    let refused = WsBootstrapReply::Answer { code: 7, msg: "no".into(), data: None };
    assert!(bootstrap_runtime("https://b", &refused).unwrap_err().contains("no"));
    assert!(bootstrap_runtime("https://b", &WsBootstrapReply::Unreadable).is_err());
    assert!(bootstrap_runtime("https://b", &WsBootstrapReply::Failed("e".into())).is_err());
}

fn frame(method: i32, headers: Vec<(&str, &str)>, payload: &[u8]) -> FeishuFrame {
    FeishuFrame {
        seq_id: 5,
        log_id: 6,
        service: 7,
        method,
        headers: headers
            .into_iter()
            .map(|(k, v)| FeishuHeader { key: k.to_string(), value: v.to_string() })
            .collect(),
        payload_encoding: String::new(),
        payload_type: String::new(),
        payload: payload.to_vec(),
        log_id_new: String::new(),
    }
}

#[test]
fn binary_events_in_one_piece_and_in_two() {
    let mut cache = EventChunkCache::default();
    let one = encode_frame(&frame(
        1,
        vec![("type", "event"), ("message_id", "m1"), ("sum", "1"), ("seq", "0")],
        b"{\"a\":1}",
    ));
    match handle_ws_binary(&one, &mut cache, 0) {
        BinaryMessage::Event { payload, frame } => {
            assert_eq!(payload, b"{\"a\":1}");
            assert_eq!(frame.seq_id, 5);
        },
        other => panic!("{other:?}"),
    }
    let first = encode_frame(&frame(
        1,
        vec![("type", "event"), ("message_id", "m2"), ("sum", "2"), ("seq", "0")],
        b"{\"a\"",
    ));
    let second = encode_frame(&frame(
        1,
        vec![("type", "event"), ("message_id", "m2"), ("sum", "2"), ("seq", "1")],
        b":2}",
    ));
    assert!(matches!(handle_ws_binary(&first, &mut cache, 1), BinaryMessage::Nothing));
    match handle_ws_binary(&second, &mut cache, 2) {
        BinaryMessage::Event { payload, .. } => {
            assert_eq!(payload, b"{\"a\":2}");
            assert!(read_event(&payload).is_some());
        },
        other => panic!("{other:?}"),
    }
    let control = encode_frame(&frame(0, vec![("type", "pong")], b""));
    assert!(matches!(handle_ws_binary(&control, &mut cache, 3), BinaryMessage::Nothing));
}

#[test]
fn acknowledgements_keep_the_frame() {
    let f = frame(1, vec![("type", "event"), ("message_id", "m1")], b"x");
    let ack = decode_frame(&event_ack(&f, ack_code(true))).unwrap();
    assert_eq!(ack.seq_id, 5);
    assert_eq!(header_value(&ack.headers, "message_id"), Some("m1"));
    let body = String::from_utf8(ack.payload).unwrap();
    assert!(body.contains("200"), "{body}");
    let bad = decode_frame(&event_ack(&f, ack_code(false))).unwrap();
    assert!(String::from_utf8(bad.payload).unwrap().contains("500"));
}

#[test]
fn pings_name_the_service() {
    let p = decode_frame(&ping_frame(12).unwrap()).unwrap();
    assert_eq!(p.service, 12);
    assert_eq!(p.method, 0);
    assert_eq!(header_value(&p.headers, "type"), Some("ping"));
    assert!(ping_frame(0).is_none());
}

#[test]
fn text_messages() {
    let (ping, _) = handle_ws_text(r#"{"type":"ping"}"#);
    assert_eq!(ping.reply.as_deref(), Some(r#"{"type":"pong"}"#));
    assert!(!ping.handle);
    let (callback, j) = handle_ws_text(r#"{"type":"event_callback","uuid":"u\"1"}"#);
    let reply = json(&callback.reply.unwrap());
    assert_eq!(reply.text_at("uuid"), Some("u\"1"));
    assert_eq!(reply.unsigned_at("status"), Some(0));
    assert!(callback.handle);
    assert_eq!(j.text_at("type"), Some("event_callback"));
    let (other, null) = handle_ws_text("not json");
    assert!(other.reply.is_none() && other.handle);
    assert!(matches!(null, Json::Null));
}

#[test]
fn the_connection_loop_backs_off_and_stops() {
    let mut l = WsLoop::new();
    assert_eq!(l.step(WsEvent::Proceed), WsAction::Resolve);
    let mut waits = vec![];
    for _ in 0..7 {
        let a = l.step(WsEvent::Failed);
        match a {
            WsAction::Wait(n) | WsAction::Lost(n) => waits.push(n),
            other => panic!("{other:?}"),
        }
        assert_eq!(l.step(WsEvent::Waited), WsAction::Resolve);
    }
    assert_eq!(waits, vec![1, 2, 4, 8, 16, 30, 30]);
    assert_eq!(l.step(WsEvent::Worked), WsAction::Connect);
    assert_eq!(l.step(WsEvent::Worked), WsAction::Opened);
    assert_eq!(l.step(WsEvent::PingDue), WsAction::Ping);
    assert_eq!(l.step(WsEvent::BinaryReceived), WsAction::HandleBinary);
    assert_eq!(l.step(WsEvent::Cancelled), WsAction::Stop);
}

// ---- events ----

#[test]
fn normalize_command_text_handles_mentions() {
    assert_eq!(normalize_command_text("@_user_1 /agent"), "/agent");
    assert_eq!(normalize_command_text("<at user_id=\"ou_x\">Bot</at> /agent 2"), "/agent 2");
    assert_eq!(normalize_command_text("   /model"), "/model");
}

#[test]
fn mentions_are_stripped_one_kind_at_a_time() {
    assert_eq!(strip_leading_at_tag("<at id=1>x</at> hi").trim(), "hi");
    assert_eq!(strip_leading_mention_token("@_user_1 hi").trim(), "hi");
    assert_eq!(normalize_command_text("plain text"), "plain text");
}

#[test]
fn kinds_of_messages() {
    assert_eq!(map_message_kind("text"), ChannelMessageKind::Text);
    assert_eq!(map_message_kind("image"), ChannelMessageKind::Photo);
    assert_eq!(map_message_kind("file"), ChannelMessageKind::Document);
    assert_eq!(map_message_kind("nonsense"), ChannelMessageKind::Other);
}

#[test]
fn content_disposition_filename_parses_filename_star() {
    let value = "attachment; filename*=UTF-8''%E6%B5%8B%E8%AF%95.docx";
    assert_eq!(content_disposition_filename(value).as_deref(), Some("测试.docx"));
}

#[test]
fn content_disposition_filename_parses_plain_filename() {
    let value = "attachment; filename=\"report-final.docx\"";
    assert_eq!(content_disposition_filename(value).as_deref(), Some("report-final.docx"));
}

#[test]
fn names_in_headers_are_decoded() {
    let name = |v: &str| content_disposition_filename(v);
    assert_eq!(name("attachment; filename*=UTF-8''a%zz").as_deref(), Some("a%zz"));
    assert_eq!(name("inline; filename=plain.txt").as_deref(), Some("plain.txt"));
    assert_eq!(name("inline"), None);
}

fn event(chat_type: &str, text: &str, mention: bool) -> Json {
    let mentions = if mention { r#"[{"id":{"open_id":"ou_bot"}}]"# } else { "[]" };
    let mut out = String::from(
        r#"{"header":{"event_type":"im.message.receive_v1"},"event":{"sender":{"sender_id":{"open_id":"ou_peer"}},"mentions":"#,
    );
    out.push_str(mentions);
    out.push_str(
        r#","message":{"chat_id":"oc_1","message_id":"om_1","message_type":"text","chat_type":""#,
    );
    out.push_str(chat_type);
    out.push_str(r#"","content":"{\"text\":\""#);
    out.push_str(text);
    out.push_str(r#"\"}"}}}"#);
    json(&out)
}

fn setup(dm: DmPolicy, group: GroupPolicy, mention: MentionMode) -> EventSetup {
    EventSetup {
        account_id: "bot7".into(),
        model: Some("m9".into()),
        has_log: true,
        has_sink: true,
        policy: AccessPolicy { dm_policy: dm, group_policy: group, mention_mode: mention },
    }
}

#[test]
fn a_probe_outlives_its_account() {
    let mut plugin = FeishuPlugin::new();
    plugin.start_account("bot", config("a", "b")).unwrap();
    assert!(plugin.start_probe("bot", 5).unwrap().is_none());
    assert!(plugin.stop_account("bot"));
    let s = plugin.finish_probe("bot", true, true, 9);
    assert!(s.connected);
    assert_eq!(s.account_id, "bot");
    assert!(plugin.start_probe("bot", 9).unwrap().is_some());
    assert!(plugin.start_probe("bot", 9 + PROBE_CACHE_NANOS).is_err());
}

#[test]
fn inbound_messages_are_read() {
    let m = read_inbound(&event("p2p", "hello", false), Some("ou_bot")).unwrap();
    assert_eq!(m.chat_id, "oc_1");
    assert_eq!(m.message_id.as_deref(), Some("om_1"));
    assert_eq!(m.peer_id, "ou_peer");
    assert_eq!(m.text, "hello");
    assert!(!m.mentioned);
    let g = read_inbound(&event("group", "hi", true), Some("ou_bot")).unwrap();
    assert!(g.mentioned);
    assert!(!read_inbound(&event("group", "hi", true), Some("ou_other")).unwrap().mentioned);
    assert!(mentions_target_bot(&vec![json(r#"{"id":{"open_id":"a"}}"#)], Some("a")));
}

#[test]
fn a_message_that_is_refused_reaches_nobody() {
    let c = setup(DmPolicy::Disabled, GroupPolicy::Open, MentionMode::Mention);
    let e = event("p2p", "hello", false);
    let mut h: Vec<EventAnswer> = vec![];
    for _ in 0..6 {
        let a = handle_event_value(&c, &e, Some("ou_bot"), &h);
        for f in &a.effects {
            assert!(
                matches!(f, EventEffect::Log { .. } | EventEffect::Emit { .. }),
                "{f:?}"
            );
        }
        match a.ask {
            EventAsk::Finish => return,
            EventAsk::Listed { .. } => h.push(EventAnswer::Listed(true)),
            other => panic!("{other:?}"),
        }
    }
    panic!("no end");
}

#[test]
fn a_message_that_is_granted_reaches_the_chat() {
    let c = setup(DmPolicy::Open, GroupPolicy::Open, MentionMode::Mention);
    let e = event("p2p", "hello", false);
    let mut h: Vec<EventAnswer> = vec![];
    let mut chats = 0;
    for _ in 0..6 {
        let a = handle_event_value(&c, &e, Some("ou_bot"), &h);
        for f in &a.effects {
            if let EventEffect::Log { channel_type, account_id, .. } = f {
                assert_eq!((channel_type.as_str(), account_id.as_str()), ("feishu", "bot7"));
            }
            if let EventEffect::Emit { channel_type, account_id, .. } = f {
                assert_eq!((channel_type.as_str(), account_id.as_str()), ("feishu", "bot7"));
            }
            if let EventEffect::Chat { target, text, meta, with_attachment } = f {
                assert_eq!(text, "hello");
                assert!(matches!(target.channel_type, ChannelType::Feishu));
                assert_eq!(target.account_id, "bot7");
                assert_eq!(target.chat_id, "oc_1");
                assert_eq!(target.message_id.as_deref(), Some("om_1"));
                assert!(matches!(meta.channel_type, ChannelType::Feishu));
                assert_eq!(meta.message_kind, Some(ChannelMessageKind::Text));
                assert_eq!(meta.model.as_deref(), Some("m9"));
                assert!(meta.sender_name.is_none() && meta.username.is_none());
                assert!(meta.audio_filename.is_none());
                assert!(!with_attachment);
                chats += 1;
            }
        }
        match a.ask {
            EventAsk::Finish => break,
            EventAsk::Listed { .. } => h.push(EventAnswer::Listed(true)),
            other => panic!("{other:?}"),
        }
    }
    assert_eq!(chats, 1);
}

#[test]
fn commands_are_answered_in_the_chat() {
    let c = setup(DmPolicy::Open, GroupPolicy::Open, MentionMode::Mention);
    let e = event("p2p", "/agent writer", false);
    let mut h: Vec<EventAnswer> = vec![];
    let mut sent = vec![];
    for _ in 0..6 {
        let a = handle_event_value(&c, &e, Some("ou_bot"), &h);
        for f in a.effects {
            if let EventEffect::SendText { account_id, chat_id, text } = f {
                assert_eq!((account_id.as_str(), chat_id.as_str()), ("bot7", "oc_1"));
                sent.push(text);
            }
        }
        match a.ask {
            EventAsk::Finish => break,
            EventAsk::Listed { .. } => h.push(EventAnswer::Listed(true)),
            EventAsk::Command { command, target } => {
                assert_eq!(command, "agent writer");
                assert!(matches!(target.channel_type, ChannelType::Feishu));
                assert_eq!(target.account_id, "bot7");
                assert_eq!(target.chat_id, "oc_1");
                assert_eq!(target.message_id.as_deref(), Some("om_1"));
                h.push(EventAnswer::Reply(Ok("done".into())));
            },
            other => panic!("{other:?}"),
        }
    }
    assert_eq!(sent, vec!["done"]);
}

#[test]
fn access_by_policy() {
    let m = read_inbound(&event("group", "hi", false), Some("ou_bot")).unwrap();
    let p = |g, n| AccessPolicy {
        dm_policy: DmPolicy::Open,
        group_policy: g,
        mention_mode: n,
    };
    assert!(!access_granted(p(GroupPolicy::Open, MentionMode::Mention), &m, true));
    assert!(access_granted(p(GroupPolicy::Open, MentionMode::Always), &m, false));
    assert!(!access_granted(p(GroupPolicy::Disabled, MentionMode::Always), &m, true));
    assert!(!access_granted(p(GroupPolicy::Allowlist, MentionMode::Always), &m, false));
    assert!(access_granted(p(GroupPolicy::Allowlist, MentionMode::Always), &m, true));
}

#[test]
fn resources_are_asked_for_by_message_and_key() {
    let u = resource_url("https://x/", "om_1", "k/1");
    assert!(u.starts_with("https://x/open-apis/im/v1/messages/om_1/resources/"), "{u}");
}

#[test]
fn downloads_take_name_and_type_from_the_reply() {
    let mut h: Vec<DownloadAnswer> = vec![];
    match download_message_resource(Some("om_1"), "file", Some("n.txt"), &h) {
        DownloadStep::Request { resource_type } => assert_eq!(resource_type, "file"),
        other => panic!("{other:?}"),
    }
    h.push(DownloadAnswer::Fetched {
        content_type: Some("text/plain".into()),
        content_disposition: None,
    });
    match download_message_resource(Some("om_1"), "file", Some("n.txt"), &h) {
        DownloadStep::Done { media_type, original_name } => {
            assert_eq!(media_type, "text/plain");
            assert_eq!(original_name.as_deref(), Some("n.txt"));
        },
        other => panic!("{other:?}"),
    }
}
