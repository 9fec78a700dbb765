//! The gateway: commands, hand-offs, sessions, messages and attachments.

use moltis_feishu::channel::{
    ChannelError, ChannelMessageKind, ChannelMessageMeta, ChannelReplyTarget, ChannelType,
};
use moltis_feishu::gateway::attachment_store::{
    infer_extension, sanitize_original_name, save_channel_attachment, SaveChannelAttachment, Saving,
    StoreAnswer, StoreAsk, StoredBlob,
};
use moltis_feishu::gateway::chat::{
    attachments_to_save, dispatch_to_chat, dispatch_to_chat_with_attachments, ChannelAttachment,
    ChatCall,
};
use moltis_feishu::gateway::commands::{
    attachment_placeholder_text, default_channel_session_key, is_image_media_type,
    parse_handoff_args, parse_sessions_command_args, resolve_agent_selector,
    rewrite_for_shell_mode, split_command, AgentPersona, HandoffMode, SessionsCommand,
};
use moltis_feishu::gateway::dispatch::{dispatch_command, CommandCall, HostFacts};
use moltis_feishu::gateway::host::{
    channel_account_config, channel_config_bool, channel_config_string, channel_config_u64, Action,
    Answer, Ask, ChatBody, Effect, HandoffPacket, Pending, SavedAttachment,
};
use moltis_feishu::gateway::pairing::{add_picture, show_pairing};
use moltis_feishu::gateway::reports::{keep_first, CachedImage, SessionEntry};
use moltis_feishu::gateway::sessions::{archive_cutoff, collect_stale};
use moltis_feishu::gateway::voice::{
    save_channel_voice, transcribe_voice, update_location, voice_stt_available, SessionStep,
};
use moltis_feishu::json::{parse_text, Json};

fn json(s: &str) -> Json {
    parse_text(s).unwrap()
}

fn target(kind: ChannelType) -> ChannelReplyTarget {
    ChannelReplyTarget {
        channel_type: kind,
        account_id: "bot1".into(),
        chat_id: "oc_1".into(),
        message_id: None,
    }
}

fn call(kind: ChannelType, command: &str) -> CommandCall {
    let facts = HostFacts {
        ready: true,
        has_metadata: true,
        has_agents: true,
        has_router: true,
        has_state_store: true,
        display_name: "Feishu".into(),
        binding: Ok("{\"b\":1}".into()),
        default_image: "img:default".into(),
    };
    CommandCall::new(facts, target(kind), command)
}

fn persona(id: &str, name: &str, default: bool, aliases: Vec<String>) -> AgentPersona {
    AgentPersona {
        id: id.into(),
        name: name.into(),
        is_default: default,
        aliases,
        emoji: None,
        theme: None,
        description: None,
        created_at: 0,
        updated_at: 0,
    }
}

fn agents() -> Vec<AgentPersona> {
    vec![
        persona("main", "Bob", true, vec![]),
        persona("writer", "Writer", false, vec!["alice".into()]),
    ]
}

fn entry(key: &str, archived: bool, updated_at: u64) -> SessionEntry {
    SessionEntry {
        key: key.into(),
        label: None,
        archived,
        updated_at,
        message_count: 0,
        channel_binding: None,
        agent_id: None,
        model: Some("m1".into()),
        project_id: None,
        mcp_disabled: None,
        sandbox_image: None,
    }
}

fn status(extra: &str) -> Option<Json> {
    let mut s = String::from(
        r#"{"channels":[{"type":"feishu","account_id":"bot1","config":{"agent_id":"main""#,
    );
    s.push_str(extra);
    s.push_str("}}]}");
    Some(json(&s))
}

/// Runs a conversation: every question is answered by `reply`. Gives the effects in order and the
/// answer at the end.
fn run<F: FnMut(&Ask<String, Vec<String>>) -> Answer>(
    step: &dyn Fn(&Vec<Answer>) -> Action,
    mut reply: F,
) -> (Vec<String>, Result<String, ChannelError<String>>, Vec<String>) {
    let mut h: Vec<Answer> = vec![];
    let mut effects = vec![];
    let mut asked = vec![];
    for _ in 0..40 {
        let a = step(&h);
        for e in &a.effects {
            effects.push(format!("{e:?}"));
        }
        if let Ask::Finish(r) = a.ask {
            return (effects, r, asked);
        }
        asked.push(format!("{:?}", a.ask));
        h.push(reply(&a.ask));
    }
    panic!("no end: {asked:?}");
}

fn usual(ask: &Ask<String, Vec<String>>, switch: &str) -> Answer {
    match ask {
        Ask::ActiveSession { .. } => Answer::Key(Some("cur".into())),
        Ask::ListSessions { .. } => Answer::Sessions(vec![
            entry("cur", false, 10),
            entry("s2", false, 20),
            entry("s3", true, 30),
        ]),
        Ask::Session { key } => Answer::Session(Some(entry(key, false, 5))),
        Ask::ChannelStatus => Answer::Status(status(switch)),
        Ask::DefaultAgent => Answer::Agent(Some("main".into())),
        Ask::ListAgents => Answer::Agents(Ok(agents())),
        Ask::ListModels => Answer::Document(Ok(json(
            r#"[{"id":"m1","displayName":"Model One","provider":"p"},{"id":"m2","provider":"q"}]"#,
        ))),
        Ask::CreateSession { .. }
        | Ask::AssignAgent { .. }
        | Ask::Clear { .. }
        | Ask::Compact { .. }
        | Ask::Archive { .. }
        | Ask::Send { .. } => Answer::Outcome(Ok(())),
        Ask::PatchModel { .. }
        | Ask::PatchSandbox { .. }
        | Ask::PatchImage { .. } => Answer::Document(Ok(json(r#"{"version":4}"#))),
        Ask::Context { .. } => Answer::Document(Ok(json("{}"))),
        Ask::ArchiveEach { keys } => Answer::Count(keys.len() as u64),
        Ask::Fork { .. } => Answer::Document(Ok(json(r#"{"sessionKey":"copy"}"#))),
        Ask::Sandboxed { .. } => Answer::Flag(true),
        Ask::DefaultImage => Answer::Image("img:d".into()),
        Ask::ListImages => Answer::Images(vec![CachedImage {
            tag: "t1".into(),
            skill_name: "s".into(),
            size: "1MB".into(),
        }]),
        Ask::CommandMode { .. } => Answer::Flag(false),
        Ask::Now => Answer::Time(100),
        Ask::Pending { .. } => Answer::Packet(Pending::Nothing),
        Ask::MessageCount { .. } => Answer::Count(3),
        Ask::SaveAttachments { .. } => Answer::Saved(vec![]),
        Ask::Finish(_) => unreachable!(),
    }
}

fn command(
    kind: ChannelType,
    text: &str,
) -> (Vec<String>, Result<String, ChannelError<String>>, Vec<String>) {
    let c = call(kind, text);
    run(&|h| dispatch_command(&c, h), |a| usual(a, r#","allow_agent_switch":true"#))
}

// ---- keys, selectors and arguments ----

#[test]
fn channel_session_key_format() {
    let target = ChannelReplyTarget {
        channel_type: ChannelType::Telegram,
        account_id: "bot1".into(),
        chat_id: "12345".into(),
        message_id: None,
    };
    assert_eq!(default_channel_session_key(&target), "telegram:bot1:12345");
}

#[test]
fn channel_session_key_group() {
    let target = ChannelReplyTarget {
        channel_type: ChannelType::Telegram,
        account_id: "bot1".into(),
        chat_id: "-100999".into(),
        message_id: None,
    };
    assert_eq!(default_channel_session_key(&target), "telegram:bot1:-100999");
}

#[test]
fn shell_mode_rewrite_plain_text() {
    assert_eq!(rewrite_for_shell_mode("uname -a").as_deref(), Some("/sh uname -a"));
}

#[test]
fn shell_mode_rewrite_skips_control_commands() {
    assert!(rewrite_for_shell_mode("/context").is_none());
    assert!(rewrite_for_shell_mode("/sh uname -a").is_none());
    assert!(rewrite_for_shell_mode("/handoff writer").is_none());
}

#[test]
fn shell_mode_rewrites_once() {
    let once = rewrite_for_shell_mode("  /other x ").unwrap();
    assert_eq!(once, "/sh /other x");
    assert!(rewrite_for_shell_mode(&once).is_none());
    assert!(rewrite_for_shell_mode("   ").is_none());
}

#[test]
fn attachment_media_type_classification() {
    assert!(is_image_media_type("image/png"));
    assert!(is_image_media_type(" IMAGE/JPEG "));
    assert!(!is_image_media_type(
        "application/vnd.openxmlformats-officedocument.wordprocessingml.document"
    ));
}

#[test]
fn attachment_placeholder_selection() {
    assert_eq!(attachment_placeholder_text(true, false), "[Image]");
    assert_eq!(attachment_placeholder_text(false, true), "[Attachment]");
    assert_eq!(attachment_placeholder_text(true, true), "[Image + Attachment]");
    assert_eq!(attachment_placeholder_text(false, false), "");
}

#[test]
fn resolve_agent_selector_supports_id_only() {
    let agents = agents();
    assert_eq!(resolve_agent_selector(&agents, "writer").unwrap().id, "writer");
    assert_eq!(resolve_agent_selector(&agents, "WRITER").unwrap().id, "writer");
    assert!(resolve_agent_selector(&agents, "2").is_err());
    assert!(resolve_agent_selector(&agents, "alice").is_err());
    assert!(resolve_agent_selector(&agents, "Bob").is_err());
}

#[test]
fn parse_handoff_args_supports_mode_and_note() {
    let (selector, mode, note) =
        parse_handoff_args("alice --mode fork_session focus on marketing").unwrap();
    assert_eq!(selector, "alice");
    assert_eq!(mode, HandoffMode::ForkSession);
    assert_eq!(note, "focus on marketing");

    let (_, mode2, note2) = parse_handoff_args("writer new_session").unwrap();
    assert_eq!(mode2, HandoffMode::NewSession);
    assert_eq!(note2, "");
}

#[test]
fn handoffs_without_a_mode_go_to_a_new_session() {
    let (id, mode, note) = parse_handoff_args("writer please continue").unwrap();
    assert_eq!(id, "writer");
    assert_eq!(mode, HandoffMode::NewSession);
    assert_eq!(note, "please continue");
}

#[test]
fn handoff_arguments_that_are_refused() {
    let message = |a: &str| match parse_handoff_args(a).unwrap_err() {
        ChannelError::InvalidInput(m) => m,
        other => panic!("{other:?}"),
    };
    assert_eq!(message("  "), "usage: /handoff <agent_id> [note]");
    assert_eq!(message("w --mode"), "missing mode value after --mode");
    assert_eq!(
        message("w --mode=odd"),
        "invalid mode; use same_session|new_session|fork_session"
    );
    assert_eq!(message("w --other"), "unknown flag: --other");
    assert_eq!(parse_handoff_args("w --mode=same x").unwrap().1, HandoffMode::SameSession);
}

#[test]
fn parse_sessions_command_args_supports_all_variants() {
    assert_eq!(parse_sessions_command_args("").unwrap(), SessionsCommand::List);
    assert_eq!(parse_sessions_command_args("3").unwrap(), SessionsCommand::Switch(3));
    assert_eq!(parse_sessions_command_args("archive 2").unwrap(), SessionsCommand::Archive(2));
    assert_eq!(parse_sessions_command_args("unarchive 5").unwrap(), SessionsCommand::Unarchive(5));
}

#[test]
fn parse_sessions_command_args_rejects_invalid_inputs() {
    assert!(parse_sessions_command_args("archive").is_err());
    assert!(parse_sessions_command_args("unarchive 0").is_err());
    assert!(parse_sessions_command_args("2 extra").is_err());
}

#[test]
fn commands_are_taken_apart() {
    let parts = |name: &str, args: &str| (name.to_string(), args.to_string());
    assert_eq!(split_command("handoff writer  x "), parts("handoff", "writer  x"));
    assert_eq!(split_command(""), parts("", ""));
    assert_eq!(split_command("  \t"), parts("", ""));
    assert_eq!(split_command(" new x"), parts("new", "x"));
    assert_eq!(split_command("\u{a0}a"), parts("a", ""));
    assert_eq!(split_command("\u{3000}模型\u{3000} 2\n"), parts("模型", "2"));
}

#[test]
fn configuration_of_an_account() {
    let s = status(r#","allow_agent_switch":true,"session_auto_archive_days":3"#);
    let t = target(ChannelType::Feishu);
    let c = channel_account_config(&s, &t);
    assert_eq!(channel_config_string(c, "agent_id").as_deref(), Some("main"));
    assert_eq!(channel_config_bool(c, "allow_agent_switch"), Some(true));
    assert_eq!(channel_config_u64(c, "session_auto_archive_days"), Some(3));
    assert!(channel_account_config(&None, &t).is_none());
}

// ---- commands ----

#[test]
fn a_command_without_a_gateway_is_refused() {
    let mut c = call(ChannelType::Feishu, "new");
    c.ready = false;
    let (effects, r, _) = run(&|h| dispatch_command(&c, h), |_| unreachable!());
    assert!(effects.is_empty());
    assert_eq!(r, Err(ChannelError::Unavailable("gateway not ready".into())));
    c.ready = true;
    c.has_metadata = false;
    let (_, r, _) = run(&|h| dispatch_command(&c, h), |_| unreachable!());
    assert_eq!(r, Err(ChannelError::Unavailable("session metadata not available".into())));
}

#[test]
fn unknown_commands_are_refused() {
    let (_, r, _) = command(ChannelType::Feishu, "frobnicate");
    assert_eq!(r, Err(ChannelError::InvalidInput("unknown command: /frobnicate".into())));
}

#[test]
fn an_answer_to_another_question_ends_the_command() {
    let c = call(ChannelType::Feishu, "new");
    let (_, r, _) = run(&|h| dispatch_command(&c, h), |_| Answer::Count(1));
    assert_eq!(r, Err(ChannelError::Unavailable("unexpected answer".into())));
}

#[test]
fn new_sessions_have_fresh_keys() {
    let a = call(ChannelType::Feishu, "new");
    let b = call(ChannelType::Feishu, "new");
    assert!(a.fresh_key.starts_with("session:"));
    assert_eq!(a.fresh_key.len(), "session:".len() + 36);
    assert_ne!(a.fresh_key, b.fresh_key);
    let (effects, r, _) = command(ChannelType::Feishu, "new");
    assert!(r.is_ok());
    assert!(effects.iter().any(|e| e.starts_with("SetActive { chat: ") && e.contains("key: \"session:")));
}

#[test]
fn clear_and_compact() {
    assert_eq!(command(ChannelType::Feishu, "clear").1, Ok("Session cleared.".into()));
    assert_eq!(command(ChannelType::Feishu, "compact").1, Ok("Session compacted.".into()));
    assert!(command(ChannelType::Feishu, "context").1.unwrap().contains("cur"));
}

#[test]
fn agents_are_listed_and_switched_by_id() {
    let list = command(ChannelType::Feishu, "agent").1.unwrap();
    assert!(list.contains("writer"), "{list}");
    let (effects, r, asked) = command(ChannelType::Feishu, "agent writer");
    assert!(r.unwrap().contains("Writer"));
    assert!(asked.iter().any(|a| a == "AssignAgent { key: \"cur\", agent: \"writer\" }"));
    assert!(effects.iter().any(|e| e.starts_with("Announce { change: Patched")));
    assert_eq!(
        command(ChannelType::Feishu, "agent alice").1,
        Err(ChannelError::InvalidInput("unknown agent id: 'alice'".into()))
    );
}

#[test]
fn switching_that_is_not_allowed_is_refused() {
    for text in ["agent writer", "handoff writer"] {
        let c = call(ChannelType::Feishu, text);
        let (effects, r, asked) = run(&|h| dispatch_command(&c, h), |a| usual(a, ""));
        assert!(effects.is_empty());
        assert_eq!(asked.len(), 2);
        assert_eq!(
            r,
            Err(ChannelError::InvalidInput("agent switching is disabled for this bot".into()))
        );
    }
    let c = call(ChannelType::Telegram, "agent writer");
    let (_, r, _) = run(&|h| dispatch_command(&c, h), |a| usual(a, ""));
    assert!(r.is_ok());
}

#[test]
fn a_handoff_changes_the_new_session_only() {
    let (effects, r, asked) = command(ChannelType::Feishu, "handoff writer please continue");
    let t = r.unwrap();
    assert!(t.contains("via new_session"), "{t}");
    assert!(t.contains("Note: please continue"), "{t}");
    assert!(!effects.is_empty());
    for e in &effects {
        assert!(e.contains("key: \"session:"), "{e}");
        assert!(!e.contains("{ key: \"cur\""), "{e}");
    }
    assert!(asked.iter().all(|a| !a.starts_with("AssignAgent { key: \"cur\"")));
    assert!(effects.iter().any(|e| e.starts_with("StorePacket")));
}

#[test]
fn handoffs_in_the_other_modes() {
    let (effects, r, _) = command(ChannelType::Feishu, "handoff writer --mode same x");
    assert!(r.unwrap().contains("via same_session"));
    assert!(effects.iter().any(|e| e.starts_with("StorePacket { key: \"cur\"")));
    let (effects, r, _) = command(ChannelType::Feishu, "handoff writer fork");
    assert!(r.unwrap().contains("via fork_session"));
    assert!(effects.iter().any(|e| e.starts_with("SetActive { chat: ") && e.contains("key: \"copy\"")));
}

#[test]
fn sessions_are_listed_switched_and_archived() {
    let list = command(ChannelType::Feishu, "sessions").1.unwrap();
    assert!(list.contains("s2"), "{list}");
    let (effects, r, _) = command(ChannelType::Feishu, "sessions 2");
    assert_eq!(r, Ok("Switched to: s2".into()));
    assert_eq!(
        effects[0],
        "SetActive { chat: ChannelReplyTarget { channel_type: Feishu, account_id: \"bot1\", chat_id: \"oc_1\", message_id: None }, key: \"s2\" }"
    );
    assert_eq!(
        command(ChannelType::Feishu, "sessions 3").1,
        Err(ChannelError::InvalidInput(
            "selected session is archived. Use /sessions unarchive N first.".into()
        ))
    );
    assert_eq!(
        command(ChannelType::Feishu, "sessions archive 1").1,
        Err(ChannelError::InvalidInput("cannot archive the currently active session".into()))
    );
    assert!(command(ChannelType::Feishu, "sessions archive 2").1.unwrap().contains("Archived: s2"));
    assert!(command(ChannelType::Feishu, "sessions unarchive 3").1.unwrap().contains("s3"));
    assert!(command(ChannelType::Feishu, "sessions archive 9").1.is_err());
}

#[test]
fn stale_sessions_are_archived_but_never_the_current_one() {
    let all = vec![entry("cur", false, 1), entry("a", false, 1), entry("b", true, 1), entry("c", false, 9)];
    assert_eq!(collect_stale(&all, "cur", 5), vec!["a"]);
    assert_eq!(archive_cutoff(86_400_000 * 3, 1), 86_400_000 * 2);
    assert_eq!(archive_cutoff(5, 30), 0);
    assert_eq!(archive_cutoff(u64::MAX, u64::MAX), 0);
}

#[test]
fn models_are_listed_and_switched() {
    let (effects, r, _) = command(ChannelType::Feishu, "model 2");
    assert_eq!(r, Ok("Model switched to: m2".into()));
    assert!(effects.iter().any(|e| e.contains("version: Some(4)")));
    assert!(command(ChannelType::Feishu, "model 3").1.is_err());
    assert_eq!(
        command(ChannelType::Feishu, "model x").1,
        Err(ChannelError::InvalidInput("usage: /model [number]".into()))
    );
    assert!(command(ChannelType::Feishu, "model").1.is_ok());
}

#[test]
fn every_provider_is_listed_once() {
    let listed = |models: &str| {
        let c = call(ChannelType::Feishu, "model");
        let answer = |a: &Ask<String, Vec<String>>| match a {
            Ask::ListModels => Answer::Document(Ok(json(models))),
            Ask::Session { .. } => Answer::Session(None),
            other => usual(other, ""),
        };
        run(&|h| dispatch_command(&c, h), answer).1.unwrap()
    };
    assert_eq!(
        listed(
            r#"[{"id":"m1","provider":"a"},{"id":"m2","provider":"b"},{"id":"m3","provider":"a"}]"#
        ),
        "providers:\n1. a (2 models)\n2. b (1 models)"
    );
    assert_eq!(
        listed(r#"[{"id":"m1","provider":"a"},{"id":"m2"},{"id":"m3","provider":"a"}]"#)
            .lines()
            .filter(|l| l.starts_with("providers:"))
            .count(),
        0
    );
    let names: Vec<String> = ["b", "a", "b", "c", "a"].iter().map(|s| s.to_string()).collect();
    assert_eq!(keep_first(&names), vec!["b", "a", "c"]);
}

#[test]
fn white_space_before_a_command_changes_nothing() {
    for text in ["model 2", "  model 2", "\u{3000}model\t 2 "] {
        assert_eq!(
            command(ChannelType::Feishu, text).1,
            Ok("Model switched to: m2".into()),
            "{text:?}"
        );
    }
}

#[test]
fn pairing_codes_are_shown_as_pictures() {
    let told = || json(r#"{"kind":"pairing_qr_code","qr_data":"abc"}"#);
    let shown = show_pairing(told(), "abc");
    let svg = shown.text_at("qr_svg").unwrap();
    assert!(svg.starts_with("<?xml") && svg.ends_with("</svg>"));
    assert!(svg.contains("width=\"203\""));
    assert_eq!(shown.text_at("qr_data"), Some("abc"));
    assert_ne!(show_pairing(told(), "abd").text_at("qr_svg"), Some(svg));
    assert!(show_pairing(told(), &"x".repeat(5000)).get("qr_svg").is_none());
    let again = add_picture(shown, Some("other".into()));
    assert_eq!(again.text_at("qr_svg"), Some("other"));
    assert_eq!(add_picture(json("7"), Some("p".into())).as_u64(), Some(7));
}

#[test]
fn the_command_mode_is_switched_and_shown() {
    let (effects, r, _) = command(ChannelType::Feishu, "sh");
    assert!(r.unwrap().starts_with("Command mode enabled (sandboxed)"));
    assert_eq!(effects, vec!["SetCommandMode { key: \"cur\", enabled: true }"]);
    let (effects, _, _) = command(ChannelType::Feishu, "sh exit");
    assert_eq!(effects, vec!["SetCommandMode { key: \"cur\", enabled: false }"]);
    assert_eq!(
        command(ChannelType::Feishu, "sh status").1,
        Ok("Command mode is disabled (sandboxed). Use /sh to enable.".into())
    );
    assert!(command(ChannelType::Feishu, "sh what").1.is_err());
}

#[test]
fn the_sandbox_is_switched() {
    assert!(command(ChannelType::Feishu, "sandbox").1.is_ok());
    assert!(command(ChannelType::Feishu, "sandbox on").1.is_ok());
    assert!(command(ChannelType::Feishu, "sandbox off").1.is_ok());
    let mut c = call(ChannelType::Feishu, "sandbox");
    c.has_router = false;
    let (_, r, asked) = run(&|h| dispatch_command(&c, h), |a| usual(a, ""));
    assert!(r.unwrap().contains("img:default"));
    assert!(asked.iter().all(|a| !a.starts_with("Sandboxed")));
}

// ---- messages ----

fn chat(kind: ChannelType) -> ChatCall {
    ChatCall {
        ready: true,
        has_metadata: true,
        has_agents: true,
        has_state_store: true,
        has_session_store: true,
        has_attachment_store: true,
        has_outbound: true,
        target: target(kind),
        display_name: "Feishu".into(),
        binding: Ok("{}".into()),
        meta: ChannelMessageMeta {
            channel_type: ChannelType::Feishu,
            sender_name: Some("Ann".into()),
            username: None,
            message_kind: Some(ChannelMessageKind::Text),
            model: None,
            audio_filename: None,
        },
    }
}

fn sent(asked: &[String]) -> &String {
    asked.iter().find(|a| a.starts_with("Send {")).unwrap()
}

#[test]
fn messages_go_to_the_model() {
    let c = chat(ChannelType::Feishu);
    let (effects, r, asked) = run(&|h| dispatch_to_chat(&c, "hello", h), |a| usual(a, ""));
    assert!(r.is_ok());
    assert!(sent(&asked).contains("Text(\"hello\")"), "{asked:?}");
    assert!(sent(&asked).contains("session_key: \"cur\""));
    assert!(effects.iter().any(|e| e.starts_with("ShowMessage { key: \"cur\", text: \"hello\", index: 3")));
}

#[test]
fn messages_in_command_mode_are_rewritten() {
    let c = chat(ChannelType::Feishu);
    let (_, _, asked) = run(
        &|h| dispatch_to_chat(&c, "ls", h),
        |a| match a {
            Ask::CommandMode { .. } => Answer::Flag(true),
            other => usual(other, ""),
        },
    );
    assert!(sent(&asked).contains("Text(\"/sh ls\")"), "{asked:?}");
}

fn packet(to: &str) -> HandoffPacket<String> {
    HandoffPacket {
        version: 1,
        mode: HandoffMode::NewSession,
        from_agent_id: "main".into(),
        to_agent_id: to.into(),
        source_session_key: "old".into(),
        target_session_key: "cur".into(),
        note: " go on ".into(),
        created_at_ms: 1,
    }
}

#[test]
fn the_next_agent_is_told_once() {
    let c = chat(ChannelType::Feishu);
    let (effects, _, asked) = run(
        &|h| dispatch_to_chat(&c, "hello", h),
        |a| match a {
            Ask::Pending { .. } => Answer::Packet(Pending::Packet(packet("main"))),
            other => usual(other, ""),
        },
    );
    let s = sent(&asked);
    assert!(s.contains("[Internal Handoff Context]\\nfrom_agent: main\\nto_agent: main\\nmode: new_session\\nnote: go on\\n"), "{s}");
    assert!(s.contains("User message:\\nhello"), "{s}");
    assert_eq!(effects.iter().filter(|e| e.starts_with("DropPacket")).count(), 1);

    let (effects, _, asked) = run(
        &|h| dispatch_to_chat(&c, "hello", h),
        |a| match a {
            Ask::Pending { .. } => Answer::Packet(Pending::Packet(packet("writer"))),
            other => usual(other, ""),
        },
    );
    assert!(sent(&asked).contains("Text(\"hello\")"));
    assert!(effects.iter().all(|e| !e.starts_with("DropPacket")));
}

#[test]
fn a_failure_of_the_model_is_reported_to_the_chat() {
    let c = chat(ChannelType::Feishu);
    let (effects, r, _) = run(
        &|h| dispatch_to_chat(&c, "hello", h),
        |a| match a {
            Ask::Send { .. } => Answer::Outcome(Err("broken".into())),
            other => usual(other, ""),
        },
    );
    assert!(r.is_ok());
    assert!(effects.iter().any(|e| e.starts_with("SendText") && e.contains("broken")), "{effects:?}");
}

fn attachments() -> Vec<ChannelAttachment> {
    vec![
        ChannelAttachment {
            media_type: "image/png".into(),
            original_name: None,
            data: vec![1, 2, 3],
        },
        ChannelAttachment {
            media_type: "application/pdf".into(),
            original_name: Some("a.pdf".into()),
            data: vec![4],
        },
    ]
}

#[test]
fn attachments_are_saved_and_images_are_sent() {
    assert_eq!(attachments_to_save(&attachments()), vec![1]);
    let c = chat(ChannelType::Feishu);
    let list = attachments();
    let (_, r, asked) = run(
        &|h| dispatch_to_chat_with_attachments(&c, "look", &list, h),
        |a| match a {
            Ask::SaveAttachments { .. } => Answer::Saved(vec![SavedAttachment {
                original_name: "a.pdf".into(),
                absolute_path: "/x/a.pdf".into(),
                media_type: "application/pdf".into(),
                size_bytes: 1,
            }]),
            other => usual(other, ""),
        },
    );
    assert!(r.is_ok());
    let s = sent(&asked);
    assert!(s.contains("data:image/png;base64,AQID"), "{s}");
    assert!(s.contains("/x/a.pdf"), "{s}");
}

#[test]
fn chat_bodies_are_texts_or_parts() {
    let c = chat(ChannelType::Feishu);
    let mut h: Vec<Answer> = vec![];
    for _ in 0..40 {
        let a = dispatch_to_chat(&c, "x", &h);
        match a.ask {
            Ask::Send { params } => {
                assert!(matches!(params.body, ChatBody::Text(_)));
                assert!(params.audio_filename.is_none());
                return;
            },
            other => h.push(usual(&other, "")),
        }
        assert!(a.effects.iter().all(|e| !matches!(e, Effect::SendText { .. })));
    }
    panic!("nothing sent");
}

#[test]
fn replies_go_back_to_where_a_message_came_from() {
    let mut c = chat(ChannelType::Feishu);
    c.target.message_id = Some("om_9".into());
    c.meta.model = Some("m2".into());
    let list = attachments();
    let mut asked = 0;
    for with in [false, true] {
        let mut h: Vec<Answer> = vec![];
        for _ in 0..40 {
            let a = if with {
                dispatch_to_chat_with_attachments(&c, "x", &list, &h)
            } else {
                dispatch_to_chat(&c, "x", &h)
            };
            for e in &a.effects {
                if let Effect::ShowMessage { meta, .. } = e {
                    assert_eq!(meta.sender_name.as_deref(), Some("Ann"));
                    assert_eq!(meta.message_kind, Some(ChannelMessageKind::Text));
                    asked += 1;
                }
                if let Effect::SendText { target, text } = e {
                    assert_eq!(target.account_id, "bot1");
                    assert_eq!(target.chat_id, "oc_1");
                    assert_eq!(target.message_id.as_deref(), Some("om_9"));
                    assert!(text.ends_with("broken"));
                    asked += 1;
                }
            }
            match a.ask {
                Ask::Finish(_) => break,
                Ask::Send { params } => {
                    assert!(matches!(params.target.channel_type, ChannelType::Feishu));
                    assert_eq!(params.target.account_id, "bot1");
                    assert_eq!(params.target.chat_id, "oc_1");
                    assert_eq!(params.target.message_id.as_deref(), Some("om_9"));
                    assert_eq!(params.meta.sender_name.as_deref(), Some("Ann"));
                    assert_eq!(params.meta.model.as_deref(), Some("m2"));
                    assert_eq!(params.model.as_deref(), Some("m2"));
                    asked += 1;
                    h.push(Answer::Outcome(Err("broken".into())));
                },
                other => {
                    if let Ask::ActiveSession { chat } | Ask::ListSessions { chat } = &other {
                        assert_eq!(chat.chat_id, "oc_1");
                    }
                    if let Ask::SaveAttachments { target, .. } = &other {
                        assert_eq!(target.message_id.as_deref(), Some("om_9"));
                        asked += 1;
                    }
                    h.push(usual(&other, ""));
                },
            }
        }
    }
    assert_eq!(asked, 7);
}

// ---- voice and places ----

#[test]
fn transcripts() {
    assert_eq!(
        transcribe_voice(false, &None),
        Some(Err(ChannelError::Unavailable("gateway not ready".into())))
    );
    assert!(transcribe_voice(true, &None).is_none());
    assert_eq!(
        transcribe_voice(true, &Some(Ok(json(r#"{"text":"hi"}"#)))),
        Some(Ok("hi".into()))
    );
    assert_eq!(
        transcribe_voice(true, &Some(Err("e".into()))),
        Some(Err(ChannelError::Unavailable("transcription failed: e".into())))
    );
    assert_eq!(
        transcribe_voice(true, &Some(Ok(json("{}")))),
        Some(Err(ChannelError::InvalidInput("transcription result missing text".into())))
    );
    assert!(voice_stt_available(&Some(Ok(json(r#"{"enabled":true}"#)))));
    assert!(!voice_stt_available(&Some(Ok(json("{}")))));
    assert!(!voice_stt_available(&Some(Err("x".into()))));
    assert!(!voice_stt_available(&None));
}

#[test]
fn recordings_are_kept_with_their_session() {
    let t = target(ChannelType::Feishu);
    match save_channel_voice(true, false, true, &t, "v.ogg", &vec![]) {
        SessionStep::Work(key) => assert_eq!(key, "feishu:bot1:oc_1"),
        _ => panic!(),
    }
    match save_channel_voice(true, false, true, &t, "v.ogg", &vec![Answer::Outcome(Ok(()))]) {
        SessionStep::Done(f) => assert_eq!(f.as_deref(), Some("v.ogg")),
        _ => panic!(),
    }
    match save_channel_voice(true, false, true, &t, "v.ogg", &vec![Answer::Outcome(Err("e".into()))]) {
        SessionStep::Done(f) => assert!(f.is_none()),
        _ => panic!(),
    }
    assert!(matches!(
        save_channel_voice(false, true, true, &t, "v", &vec![]),
        SessionStep::Done(None)
    ));
}

#[test]
fn places_go_to_who_waits() {
    let t = target(ChannelType::Feishu);
    match update_location(true, false, &t, &vec![]) {
        SessionStep::Work(name) => assert_eq!(name, "channel_location:feishu:bot1:oc_1"),
        _ => panic!(),
    }
    assert!(matches!(
        update_location(true, false, &t, &vec![Answer::Flag(true)]),
        SessionStep::Done(true)
    ));
    assert!(matches!(update_location(false, false, &t, &vec![]), SessionStep::Done(false)));
}

// ---- attachments ----

const DOCX: &str = "application/vnd.openxmlformats-officedocument.wordprocessingml.document";

fn request<'a>(session: &'a str, message: &'a str, name: &'a str, data: &'a [u8]) -> SaveChannelAttachment<'a> {
    SaveChannelAttachment {
        session_key: session,
        channel_type: "feishu",
        account_id: "main-bot",
        chat_id: "oc_123",
        message_id: Some(message),
        media_type: DOCX,
        original_name: Some(name),
        data,
    }
}

/// A store in memory: blobs by digest, files by path, and the references: their number, their
/// sessions and their messages.
#[derive(Default)]
struct Store {
    blobs: Vec<(String, String)>,
    files: Vec<String>,
    refs: usize,
    noted: Vec<(String, Option<String>)>,
}

impl Store {
    fn save(&mut self, s: &Saving) -> StoredBlob<String> {
        let mut h: Vec<StoreAnswer> = vec![];
        for _ in 0..20 {
            let answer = match save_channel_attachment(s, &h) {
                StoreAsk::FindBlob { sha256 } => StoreAnswer::Row(Ok(self
                    .blobs
                    .iter()
                    .find(|b| b.0 == sha256)
                    .map(|b| b.1.clone()))),
                StoreAsk::FileExists { path } => StoreAnswer::Exists(self.files.contains(&path)),
                StoreAsk::WriteFile { path } => {
                    self.files.push(path);
                    StoreAnswer::Outcome(Ok(()))
                },
                StoreAsk::TouchBlob { .. } => StoreAnswer::Outcome(Ok(())),
                StoreAsk::InsertBlob { sha256, path, .. } => {
                    self.blobs.push((sha256, path));
                    StoreAnswer::Outcome(Ok(()))
                },
                StoreAsk::RemoveFile { path } => {
                    self.files.retain(|f| *f != path);
                    StoreAnswer::Outcome(Ok(()))
                },
                StoreAsk::InsertRef {
                    session_key,
                    channel_type,
                    account_id,
                    chat_id,
                    message_id,
                    ..
                } => {
                    assert_eq!(channel_type, "feishu");
                    assert_eq!(account_id, "main-bot");
                    assert_eq!(chat_id, "oc_123");
                    self.noted.push((session_key, message_id));
                    self.refs += 1;
                    StoreAnswer::Outcome(Ok(()))
                },
                StoreAsk::Finish(r) => return r.unwrap(),
            };
            h.push(answer);
        }
        panic!("no end");
    }
}

#[test]
fn deduplicates_blob_and_records_refs() {
    let mut store = Store::default();
    let bytes = b"docx-binary";
    let first = store.save(&Saving::new(&request("session:a", "om_1", "plan.docx", bytes)));
    let second = store.save(&Saving::new(&request("session:b", "om_2", "another.docx", bytes)));
    assert_eq!(first.blob_sha256, second.blob_sha256);
    assert_eq!(first.relative_path, second.relative_path);
    assert!(store.files.contains(&first.relative_path));
    assert_eq!(store.blobs.len(), 1);
    assert_eq!(store.refs, 2);
    assert_eq!(
        store.noted,
        vec![
            ("session:a".to_string(), Some("om_1".to_string())),
            ("session:b".to_string(), Some("om_2".to_string())),
        ]
    );
    assert_eq!(first.original_name, "plan.docx");
    assert_eq!(second.original_name, "another.docx");
}

#[test]
fn blobs_are_named_by_their_digest() {
    let s = Saving::new(&request("s", "m", "a.docx", b"abc"));
    assert_eq!(
        s.blob_sha256,
        "ba7816bf8f01cfea414140de5dae2223b00361a396177a9cb410ff61f20015ad"
    );
    assert_eq!(s.ext, "docx");
    assert_eq!(s.size_bytes, 3);
    let mut store = Store::default();
    let b = store.save(&s);
    assert_eq!(
        b.relative_path,
        "attachments/blobs/ba/ba7816bf8f01cfea414140de5dae2223b00361a396177a9cb410ff61f20015ad.docx"
    );
    let located = b.located("/root/x".into());
    assert_eq!(located.absolute_path, "/root/x");
    assert_eq!(located.size_bytes, 3);
}

#[test]
fn extensions_come_from_the_name_or_the_type() {
    assert_eq!(infer_extension("text/plain", Some("a.MD")), "md");
    assert_eq!(infer_extension("text/plain", Some("notes 10:30.MD")), "md");
    assert_eq!(infer_extension(DOCX, None), "docx");
    assert_eq!(infer_extension("application/x-odd", None), "bin");
}

#[test]
fn stored_names_are_safe() {
    let n = sanitize_original_name(Some("a/b\\c\u{7}.txt"), "0123456789abcdef", "txt");
    assert!(!n.contains('/') && !n.contains('\\') && !n.contains('\u{7}'));
    let d = sanitize_original_name(None, "0123456789abcdef", "bin");
    assert!(d.contains("0123456789ab"), "{d}");
    assert_eq!(sanitize_original_name(Some("   "), "0123456789abcdef", "bin"), d);
}

#[test]
fn safe_names_are_kept_as_they_are() {
    for name in ["report 2026.pdf", "年报.xlsx", "a.b.c"] {
        assert_eq!(sanitize_original_name(Some(name), "0123456789abcdef", "bin"), name);
    }
}

#[test]
fn a_store_that_fails_is_reported() {
    let s = Saving::new(&request("s", "m", "a.docx", b"abc"));
    match save_channel_attachment(&s, &vec![StoreAnswer::Row(Err("locked".into()))]) {
        StoreAsk::Finish(Err(e)) => assert!(e.contains("locked")),
        other => panic!("{other:?}"),
    }
}
