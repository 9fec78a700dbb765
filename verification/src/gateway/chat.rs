//! Messages of a channel on their way to the model, carried out as a conversation with the host.

use crate::channel;
use crate::channel::{ChannelError, ChannelMessageMeta, ChannelReplyTarget};
use crate::encoding;
use crate::gateway::commands;
use crate::gateway::dispatch;
use crate::gateway::host;
use crate::gateway::host::{Action, ActionView, Answer, Ask, ChatBody, ChatParams, Effect, HandoffPacket, Pending, Progress, SavedAttachment};
use crate::gateway::sessions;
use crate::text;
use vstd::prelude::*;

verus! {

/// A file that came with a message.
#[derive(Debug)]
pub struct ChannelAttachment {
    pub media_type: String,
    pub original_name: Option<String>,
    pub data: Vec<u8>,
}

/// A message of a chat and what the host has at hand for it.
#[derive(Debug)]
pub struct ChatCall {
    /// Whether the gateway is up.
    pub ready: bool,
    /// Whether the sessions are stored.
    pub has_metadata: bool,
    /// Whether there is an agent store.
    pub has_agents: bool,
    /// Whether there is a store for what the next agent is told.
    pub has_state_store: bool,
    /// Whether the messages of sessions are stored.
    pub has_session_store: bool,
    /// Whether attachments can be stored.
    pub has_attachment_store: bool,
    /// Whether something can be sent back to the chat.
    pub has_outbound: bool,
    pub target: ChannelReplyTarget,
    /// What the user sees of the channel kind.
    pub display_name: String,
    /// The reply target as it is stored with a session, or why it could not be written.
    pub binding: Result<String, String>,
    pub meta: ChannelMessageMeta,
}

// ---- the session of a message ----

/// The session that a message goes to; stale sessions are archived on the way.
pub open spec fn inbound_session(
    has_metadata: bool,
    target: ChannelReplyTarget,
    h: Seq<Answer>,
    k: int,
) -> Progress<ActionView, Seq<char>, int> {
    if !has_metadata {
        Progress::Ready(commands::session_key_of(target), k)
    } else if k >= h.len() {
        Progress::Wait(host::ask(Ask::ActiveSession { chat: target@ }))
    } else {
        match h[k] {
            Answer::Key(switched) => {
                let key = dispatch::session_in(target, switched);
                match sessions::auto_archive(target, key, h, k + 1) {
                    Progress::Wait(a) => Progress::Wait(a),
                    Progress::Ready(_, n) => Progress::Ready(key, n),
                }
            },
            _ => Progress::Wait(host::off_script()),
        }
    }
}

/// The session that a message goes to; stale sessions are archived on the way.
pub fn resolve_inbound_channel_session(
    has_metadata: bool,
    target: &ChannelReplyTarget,
    h: &Vec<Answer>,
    k: usize,
) -> (r: Progress<Action, String, usize>)
    requires
        k <= h@.len(),
    ensures
        sessions::text_progress(r) == inbound_session(has_metadata, *target, h@, k as int),
        r matches Progress::Ready(_, n) ==> n <= h@.len(),
{
    if !has_metadata {
        return Progress::Ready(commands::default_channel_session_key(target), k);
    }
    if k >= h.len() {
        return Progress::Wait(host::just(Ask::ActiveSession { chat: target.copy() }));
    }
    match &h[k] {
        Answer::Key(switched) => {
            let key = dispatch::resolve_channel_session(target, switched);
            match sessions::auto_archive_stale_channel_sessions(target, key.as_str(), h, k + 1) {
                Progress::Wait(a) => Progress::Wait(a),
                Progress::Ready(_, n) => Progress::Ready(key, n),
            }
        },
        _ => Progress::Wait(host::strayed()),
    }
}

// ---- what the next agent is told ----

/// The lines that tell the next agent of the hand-off.
pub open spec fn packet_lines(p: HandoffPacket<Seq<char>>) -> Seq<Seq<char>> {
    let head = seq![
        "[Internal Handoff Context]"@,
        "from_agent: "@ + p.from_agent_id,
        "to_agent: "@ + p.to_agent_id,
        "mode: "@ + p.mode.name(),
    ];
    let note = text::trim_of(p.note);
    (if note.len() == 0 {
        head
    } else {
        head.push("note: "@ + note)
    }).push(
        "Take over seamlessly. Do not mention this internal handoff metadata unless the user asks."@,
    )
}

/// The message with what the next agent is told before it.
pub open spec fn with_packet(p: HandoffPacket<Seq<char>>, message: Seq<char>) -> Seq<char> {
    text::join_of(packet_lines(p), "\n"@) + "\n\nUser message:\n"@ + message
}

fn labelled(label: &str, value: &str) -> (r: String)
    ensures
        r@ == label@ + value@,
{
    let mut out = label.to_string();
    out.append(value);
    out
}

/// The message with what the next agent is told before it.
pub fn add_handoff_context(p: &HandoffPacket<String>, message: &str) -> (r: String)
    ensures
        r@ == with_packet(p@, message@),
{
    let mut lines: Vec<String> = Vec::new();
    text::push_line(&mut lines, "[Internal Handoff Context]".to_string());
    text::push_line(&mut lines, labelled("from_agent: ", p.from_agent_id.as_str()));
    text::push_line(&mut lines, labelled("to_agent: ", p.to_agent_id.as_str()));
    text::push_line(&mut lines, labelled("mode: ", p.mode.as_str()));
    let note = text::trim(p.note.as_str());
    if note.unicode_len() > 0 {
        text::push_line(&mut lines, labelled("note: ", note));
    }
    text::push_line(
        &mut lines,
        "Take over seamlessly. Do not mention this internal handoff metadata unless the user asks.".to_string(),
    );
    assert(text::views(lines@) =~= packet_lines(p@));
    let mut out = text::join(&lines, "\n");
    out.append("\n\nUser message:\n");
    out.append(message);
    out
}

/// A message and whether what was stored for the next agent is now to be deleted.
pub struct Briefed<S> {
    pub message: S,
    pub used_up: bool,
}

/// What a look at the stored hand-off has come to.
pub open spec fn briefed_progress(p: Progress<Action, Briefed<String>, usize>) -> Progress<
    ActionView,
    Briefed<Seq<char>>,
    int,
> {
    match p {
        Progress::Wait(a) => Progress::Wait(a@),
        Progress::Ready(b, k) => Progress::Ready(
            Briefed { message: b.message@, used_up: b.used_up },
            k as int,
        ),
    }
}

/// The message for the agent of the session: with what it is to be told before it, once.
pub open spec fn handoff_context(
    c: ChatCall,
    key: Seq<char>,
    message: Seq<char>,
    h: Seq<Answer>,
    k: int,
) -> Progress<ActionView, Briefed<Seq<char>>, int> {
    let plain = Briefed { message, used_up: false };
    if !c.has_state_store {
        Progress::Ready(plain, k)
    } else if k >= h.len() {
        Progress::Wait(host::ask(Ask::Pending { key }))
    } else {
        match h[k] {
            Answer::Packet(Pending::Nothing) => Progress::Ready(plain, k + 1),
            Answer::Packet(Pending::Garbled) => Progress::Ready(
                Briefed { message, used_up: true },
                k + 1,
            ),
            Answer::Packet(Pending::Packet(p)) => {
                let agent = if c.has_metadata {
                    sessions::current_agent(c.has_agents, key, h, k + 1)
                } else {
                    Progress::Ready("main"@, k + 1)
                };
                match agent {
                    Progress::Wait(a) => Progress::Wait(a),
                    Progress::Ready(a, n) => if p.to_agent_id@ == a {
                        Progress::Ready(
                            Briefed { message: with_packet(p@, message), used_up: true },
                            n,
                        )
                    } else {
                        Progress::Ready(plain, n)
                    },
                }
            },
            _ => Progress::Wait(host::off_script()),
        }
    }
}

/// The message for the agent of the session: with what it is to be told before it, once.
pub fn maybe_apply_handoff_context(
    c: &ChatCall,
    key: &str,
    message: &str,
    h: &Vec<Answer>,
    k: usize,
) -> (r: Progress<Action, Briefed<String>, usize>)
    requires
        k <= h@.len(),
    ensures
        briefed_progress(r) == handoff_context(*c, key@, message@, h@, k as int),
        r matches Progress::Ready(_, n) ==> n <= h@.len(),
{
    if !c.has_state_store {
        return Progress::Ready(Briefed { message: message.to_string(), used_up: false }, k);
    }
    if k >= h.len() {
        return Progress::Wait(host::just(Ask::Pending { key: key.to_string() }));
    }
    match &h[k] {
        Answer::Packet(Pending::Nothing) => Progress::Ready(
            Briefed { message: message.to_string(), used_up: false },
            k + 1,
        ),
        Answer::Packet(Pending::Garbled) => Progress::Ready(
            Briefed { message: message.to_string(), used_up: true },
            k + 1,
        ),
        Answer::Packet(Pending::Packet(p)) => {
            let agent = if c.has_metadata {
                sessions::current_agent_id_for_session(c.has_agents, key, h, k + 1)
            } else {
                Progress::Ready("main".to_string(), k + 1)
            };
            match agent {
                Progress::Wait(a) => Progress::Wait(a),
                Progress::Ready(a, n) => {
                    if text::str_eq(p.to_agent_id.as_str(), a.as_str()) {
                        Progress::Ready(
                            Briefed { message: add_handoff_context(p, message), used_up: true },
                            n,
                        )
                    } else {
                        Progress::Ready(
                            Briefed { message: message.to_string(), used_up: false },
                            n,
                        )
                    }
                },
            }
        },
        _ => Progress::Wait(host::strayed()),
    }
}

// ---- sending ----

/// A message that is ready to be shown and sent.
pub struct Outgoing<S, L> {
    pub key: S,
    /// What the web interface shows.
    pub shown: S,
    pub has_attachments: bool,
    pub body: ChatBody<S, L>,
    pub audio_filename: Option<S>,
}

impl View for Outgoing<String, Vec<String>> {
    type V = Outgoing<Seq<char>, Seq<Seq<char>>>;

    open spec fn view(&self) -> Outgoing<Seq<char>, Seq<Seq<char>>> {
        Outgoing {
            key: self.key@,
            shown: self.shown@,
            has_attachments: self.has_attachments,
            body: self.body@,
            audio_filename: channel::opt_view(self.audio_filename),
        }
    }
}

/// The conversation is over.
pub open spec fn over(effects: Seq<Effect<Seq<char>>>) -> ActionView {
    host::done(effects, ""@)
}

fn end(effects: Vec<Effect<String>>) -> (r: Action)
    ensures
        r@ == over(host::effects_view(effects@)),
{
    host::finished(effects, "".to_string())
}

/// The message is sent; a failure is told to the chat.
pub open spec fn send_step(
    c: ChatCall,
    o: Outgoing<Seq<char>, Seq<Seq<char>>>,
    model: Option<Seq<char>>,
    effects: Seq<Effect<Seq<char>>>,
    h: Seq<Answer>,
    k: int,
) -> ActionView {
    if k >= h.len() {
        host::ask_after(
            effects,
            Ask::Send {
                params: ChatParams {
                    body: o.body,
                    session_key: o.key,
                    target: c.target@,
                    meta: c.meta@,
                    audio_filename: o.audio_filename,
                    model,
                },
            },
        )
    } else {
        match h[k] {
            Answer::Outcome(Err(e)) => if c.has_outbound {
                over(seq![Effect::SendText { target: c.target@, text: "⚠️ "@ + e@ }])
            } else {
                over(Seq::empty())
            },
            Answer::Outcome(Ok(_)) => over(Seq::empty()),
            _ => host::off_script(),
        }
    }
}

fn run_send_step(
    c: &ChatCall,
    o: Outgoing<String, Vec<String>>,
    model: Option<String>,
    effects: Vec<Effect<String>>,
    h: &Vec<Answer>,
    k: usize,
) -> (r: Action)
    requires
        k <= h@.len(),
    ensures
        r@ == send_step(
            *c,
            o@,
            channel::opt_view(model),
            host::effects_view(effects@),
            h@,
            k as int,
        ),
{
    if k >= h.len() {
        return host::after(
            effects,
            Ask::Send {
                params: ChatParams {
                    body: o.body,
                    session_key: o.key,
                    target: c.target.copy(),
                    meta: c.meta.copy(),
                    audio_filename: o.audio_filename,
                    model,
                },
            },
        );
    }
    match &h[k] {
        Answer::Outcome(Err(e)) => {
            if c.has_outbound {
                end(
                    host::one_effect(
                        Effect::SendText {
                            target: c.target.copy(),
                            text: labelled("⚠️ ", e.as_str()),
                        },
                    ),
                )
            } else {
                end(host::no_effects())
            }
        },
        Answer::Outcome(Ok(_)) => end(host::no_effects()),
        _ => host::strayed(),
    }
}

/// What the status log says of the model of a session.
pub open spec fn model_note(display: Seq<char>) -> Seq<char> {
    "Using "@ + display + ". Use /model to change."@
}

fn write_model_note(display: &str) -> (r: String)
    ensures
        r@ == model_note(display@),
{
    let mut out = labelled("Using ", display);
    out.append(". Use /model to change.");
    out
}

/// The model is settled: that of the channel, else that of the session, else the first registered
/// one. A session without a model gets it, and the status log says so.
pub open spec fn model_step(
    c: ChatCall,
    o: Outgoing<Seq<char>, Seq<Seq<char>>>,
    has_model: bool,
    effects: Seq<Effect<Seq<char>>>,
    h: Seq<Answer>,
    k: int,
) -> ActionView {
    match c.meta@.model {
        Some(m) => if has_model {
            send_step(c, o, Some(m), effects, h, k)
        } else if k >= h.len() {
            host::ask_after(
                effects.push(Effect::PatchModel { key: o.key, model: m }),
                Ask::ListModels,
            )
        } else {
            match h[k] {
                Answer::Document(models) => send_step(
                    c,
                    o,
                    Some(m),
                    seq![
                        Effect::LogStatus {
                            key: o.key,
                            message: model_note(
                                sessions::display_of(sessions::models_in(models), m),
                            ),
                        },
                    ],
                    h,
                    k + 1,
                ),
                _ => host::off_script(),
            }
        },
        None => if has_model {
            send_step(c, o, None, effects, h, k)
        } else if k >= h.len() {
            host::ask_after(effects, Ask::ListModels)
        } else {
            match h[k] {
                Answer::Document(models) => match sessions::first_model(
                    sessions::models_in(models),
                ) {
                    None => send_step(c, o, None, Seq::empty(), h, k + 1),
                    Some((id, display)) => send_step(
                        c,
                        o,
                        Some(id),
                        seq![
                            Effect::PatchModel { key: o.key, model: id },
                            Effect::LogStatus { key: o.key, message: model_note(display) },
                        ],
                        h,
                        k + 1,
                    ),
                },
                _ => host::off_script(),
            }
        },
    }
}

fn run_model_step(
    c: &ChatCall,
    o: Outgoing<String, Vec<String>>,
    has_model: bool,
    effects: Vec<Effect<String>>,
    h: &Vec<Answer>,
    k: usize,
) -> (r: Action)
    requires
        k <= h@.len(),
    ensures
        r@ == model_step(*c, o@, has_model, host::effects_view(effects@), h@, k as int),
{
    let mut effects = effects;
    match &c.meta.model {
        Some(m) => {
            if has_model {
                return run_send_step(c, o, Some(m.clone()), effects, h, k);
            }
            if k >= h.len() {
                host::push_effect(
                    &mut effects,
                    Effect::PatchModel { key: o.key.clone(), model: m.clone() },
                );
                return host::after(effects, Ask::ListModels);
            }
            match &h[k] {
                Answer::Document(models) => {
                    let display = sessions::model_display(models, m.as_str());
                    let note = host::one_effect(
                        Effect::LogStatus {
                            key: o.key.clone(),
                            message: write_model_note(display.as_str()),
                        },
                    );
                    run_send_step(c, o, Some(m.clone()), note, h, k + 1)
                },
                _ => host::strayed(),
            }
        },
        None => {
            if has_model {
                return run_send_step(c, o, None, effects, h, k);
            }
            if k >= h.len() {
                return host::after(effects, Ask::ListModels);
            }
            match &h[k] {
                Answer::Document(models) => match sessions::take_first_model(models) {
                    None => run_send_step(c, o, None, host::no_effects(), h, k + 1),
                    Some((id, display)) => {
                        let both = host::two_effects(
                            Effect::PatchModel { key: o.key.clone(), model: id.clone() },
                            Effect::LogStatus {
                                key: o.key.clone(),
                                message: write_model_note(display.as_str()),
                            },
                        );
                        run_send_step(c, o, Some(id), both, h, k + 1)
                    },
                },
                _ => host::strayed(),
            }
        },
    }
}

/// Whether the session has a model already.
pub open spec fn model_look(
    c: ChatCall,
    o: Outgoing<Seq<char>, Seq<Seq<char>>>,
    effects: Seq<Effect<Seq<char>>>,
    h: Seq<Answer>,
    k: int,
) -> ActionView {
    if !c.has_metadata {
        model_step(c, o, false, effects, h, k)
    } else if k >= h.len() {
        host::ask_after(effects, Ask::Session { key: o.key })
    } else {
        match h[k] {
            Answer::Session(entry) => model_step(
                c,
                o,
                dispatch::model_of(entry) is Some,
                Seq::empty(),
                h,
                k + 1,
            ),
            _ => host::off_script(),
        }
    }
}

fn run_model_look(
    c: &ChatCall,
    o: Outgoing<String, Vec<String>>,
    effects: Vec<Effect<String>>,
    h: &Vec<Answer>,
    k: usize,
) -> (r: Action)
    requires
        k <= h@.len(),
    ensures
        r@ == model_look(*c, o@, host::effects_view(effects@), h@, k as int),
{
    if !c.has_metadata {
        return run_model_step(c, o, false, effects, h, k);
    }
    if k >= h.len() {
        return host::after(effects, Ask::Session { key: o.key });
    }
    match &h[k] {
        Answer::Session(entry) => {
            let has_model = dispatch::session_model(entry).is_some();
            run_model_step(c, o, has_model, host::no_effects(), h, k + 1)
        },
        _ => host::strayed(),
    }
}

/// A session without an agent gets that of the account, else the default.
pub open spec fn agent_step(
    c: ChatCall,
    o: Outgoing<Seq<char>, Seq<Seq<char>>>,
    h: Seq<Answer>,
    k: int,
) -> ActionView {
    if k >= h.len() {
        host::ask(Ask::ChannelStatus)
    } else {
        match h[k] {
            Answer::Status(status) => {
                let agent = match host::config_text(
                    host::account_config(status, c.target),
                    "agent_id"@,
                ) {
                    Some(a) => Progress::Ready(a, k + 1),
                    None => sessions::default_agent(c.has_agents, h, k + 1),
                };
                match agent {
                    Progress::Wait(a) => a,
                    Progress::Ready(a, n) => model_look(
                        c,
                        o,
                        seq![Effect::SetAgent { key: o.key, agent: a }],
                        h,
                        n,
                    ),
                }
            },
            _ => host::off_script(),
        }
    }
}

fn run_agent_step(c: &ChatCall, o: Outgoing<String, Vec<String>>, h: &Vec<Answer>, k: usize) -> (r:
    Action)
    requires
        k <= h@.len(),
    ensures
        r@ == agent_step(*c, o@, h@, k as int),
{
    if k >= h.len() {
        return host::just(Ask::ChannelStatus);
    }
    match &h[k] {
        Answer::Status(status) => {
            let agent = match host::channel_config_string(
                host::channel_account_config(status, &c.target),
                "agent_id",
            ) {
                Some(a) => Progress::Ready(a, k + 1),
                None => sessions::ask_default_agent(c.has_agents, h, k + 1),
            };
            match agent {
                Progress::Wait(a) => a,
                Progress::Ready(a, n) => {
                    let set = host::one_effect(Effect::SetAgent { key: o.key.clone(), agent: a });
                    run_model_look(c, o, set, h, n)
                },
            }
        },
        _ => host::strayed(),
    }
}

/// The session is bound to the chat; then its agent is looked at.
pub open spec fn bound_step(
    c: ChatCall,
    o: Outgoing<Seq<char>, Seq<Seq<char>>>,
    effects: Seq<Effect<Seq<char>>>,
    h: Seq<Answer>,
    k: int,
) -> ActionView {
    if k >= h.len() {
        host::ask_after(effects, Ask::Session { key: o.key })
    } else {
        match h[k] {
            Answer::Session(entry) => if entry is Some && sessions::agent_of(entry) is None {
                agent_step(c, o, h, k + 1)
            } else {
                model_look(c, o, Seq::empty(), h, k + 1)
            },
            _ => host::off_script(),
        }
    }
}

fn run_bound_step(
    c: &ChatCall,
    o: Outgoing<String, Vec<String>>,
    effects: Vec<Effect<String>>,
    h: &Vec<Answer>,
    k: usize,
) -> (r: Action)
    requires
        k <= h@.len(),
    ensures
        r@ == bound_step(*c, o@, host::effects_view(effects@), h@, k as int),
{
    if k >= h.len() {
        return host::after(effects, Ask::Session { key: o.key });
    }
    match &h[k] {
        Answer::Session(entry) => {
            if entry.is_some() && sessions::session_agent(entry).is_none() {
                run_agent_step(c, o, h, k + 1)
            } else {
                run_model_look(c, o, host::no_effects(), h, k + 1)
            }
        },
        _ => host::strayed(),
    }
}

/// The session is stored under a label on first use, and bound to the chat.
pub open spec fn binding_step(
    c: ChatCall,
    o: Outgoing<Seq<char>, Seq<Seq<char>>>,
    binding: Seq<char>,
    effects: Seq<Effect<Seq<char>>>,
    h: Seq<Answer>,
    k: int,
) -> ActionView {
    let bind = Effect::SetBinding { key: o.key, binding };
    if k >= h.len() {
        host::ask_after(effects, Ask::Session { key: o.key })
    } else {
        match h[k] {
            Answer::Session(entry) => if dispatch::is_bound(entry) {
                bound_step(c, o, seq![bind], h, k + 1)
            } else if k + 1 >= h.len() {
                host::ask(Ask::ListSessions { chat: c.target@ })
            } else {
                match h[k + 1] {
                    Answer::Sessions(existing) => bound_step(
                        c,
                        o,
                        seq![
                            Effect::EnsureSession {
                                key: o.key,
                                label: dispatch::session_label(
                                    c.display_name@,
                                    existing@.len(),
                                ),
                            },
                            bind,
                        ],
                        h,
                        k + 2,
                    ),
                    _ => host::off_script(),
                }
            },
            _ => host::off_script(),
        }
    }
}

fn run_binding_step(
    c: &ChatCall,
    o: Outgoing<String, Vec<String>>,
    binding: &str,
    effects: Vec<Effect<String>>,
    h: &Vec<Answer>,
    k: usize,
) -> (r: Action)
    requires
        k <= h@.len(),
    ensures
        r@ == binding_step(*c, o@, binding@, host::effects_view(effects@), h@, k as int),
{
    if k >= h.len() {
        return host::after(effects, Ask::Session { key: o.key });
    }
    match &h[k] {
        Answer::Session(entry) => {
            let bind = Effect::SetBinding { key: o.key.clone(), binding: binding.to_string() };
            let bound = match entry {
                Some(e) => e.channel_binding.is_some(),
                None => false,
            };
            if bound {
                return run_bound_step(c, o, host::one_effect(bind), h, k + 1);
            }
            if k + 1 >= h.len() {
                return host::just(Ask::ListSessions { chat: c.target.copy() });
            }
            match &h[k + 1] {
                Answer::Sessions(existing) => {
                    let label = dispatch::write_session_label(
                        c.display_name.as_str(),
                        existing.len(),
                    );
                    let both = host::two_effects(
                        Effect::EnsureSession { key: o.key.clone(), label },
                        bind,
                    );
                    run_bound_step(c, o, both, h, k + 2)
                },
                _ => host::strayed(),
            }
        },
        _ => host::strayed(),
    }
}

/// The message is shown in the web interface with its index.
pub open spec fn shown_step(
    c: ChatCall,
    o: Outgoing<Seq<char>, Seq<Seq<char>>>,
    index: u64,
    effects: Seq<Effect<Seq<char>>>,
    h: Seq<Answer>,
    k: int,
) -> ActionView {
    let shown = effects.push(
        Effect::ShowMessage {
            key: o.key,
            text: o.shown,
            index,
            has_attachments: o.has_attachments,
            meta: c.meta@,
        },
    );
    match c.binding {
        Ok(binding) => if c.has_metadata {
            binding_step(c, o, binding@, shown, h, k)
        } else {
            model_look(c, o, shown, h, k)
        },
        Err(_) => model_look(c, o, shown, h, k),
    }
}

fn run_shown_step(
    c: &ChatCall,
    o: Outgoing<String, Vec<String>>,
    index: u64,
    effects: Vec<Effect<String>>,
    h: &Vec<Answer>,
    k: usize,
) -> (r: Action)
    requires
        k <= h@.len(),
    ensures
        r@ == shown_step(*c, o@, index, host::effects_view(effects@), h@, k as int),
{
    let mut effects = effects;
    host::push_effect(
        &mut effects,
        Effect::ShowMessage {
            key: o.key.clone(),
            text: o.shown.clone(),
            index,
            has_attachments: o.has_attachments,
            meta: c.meta.copy(),
        },
    );
    match &c.binding {
        Ok(binding) => {
            if c.has_metadata {
                run_binding_step(c, o, binding.as_str(), effects, h, k)
            } else {
                run_model_look(c, o, effects, h, k)
            }
        },
        Err(_) => run_model_look(c, o, effects, h, k),
    }
}

/// The index of the message in its session is looked up, so that it is shown once.
pub open spec fn index_step(
    c: ChatCall,
    o: Outgoing<Seq<char>, Seq<Seq<char>>>,
    used_up: bool,
    h: Seq<Answer>,
    k: int,
) -> ActionView {
    let drop = if used_up {
        seq![Effect::DropPacket { key: o.key }]
    } else {
        Seq::empty()
    };
    if !c.has_session_store {
        shown_step(c, o, 0, drop, h, k)
    } else if k >= h.len() {
        host::ask_after(drop, Ask::MessageCount { key: o.key })
    } else {
        match h[k] {
            Answer::Count(n) => shown_step(c, o, n, Seq::empty(), h, k + 1),
            _ => host::off_script(),
        }
    }
}

fn run_index_step(
    c: &ChatCall,
    o: Outgoing<String, Vec<String>>,
    used_up: bool,
    h: &Vec<Answer>,
    k: usize,
) -> (r: Action)
    requires
        k <= h@.len(),
    ensures
        r@ == index_step(*c, o@, used_up, h@, k as int),
{
    let drop = if used_up {
        host::one_effect(Effect::DropPacket { key: o.key.clone() })
    } else {
        host::no_effects()
    };
    if !c.has_session_store {
        return run_shown_step(c, o, 0, drop, h, k);
    }
    if k >= h.len() {
        return host::after(drop, Ask::MessageCount { key: o.key });
    }
    match &h[k] {
        Answer::Count(n) => run_shown_step(c, o, *n, host::no_effects(), h, k + 1),
        _ => host::strayed(),
    }
}

// ---- plain messages ----

/// What a message means in the mode of its session.
pub open spec fn effective_text(message: Seq<char>, command_mode: bool) -> Seq<char> {
    if command_mode {
        sessions::or_text(commands::shell_rewrite(message), message)
    } else {
        message
    }
}

/// A text message: its session, its mode, what its agent is told, then on to be shown and sent.
pub open spec fn text_step(c: ChatCall, message: Seq<char>, h: Seq<Answer>, k: int) -> ActionView {
    match inbound_session(c.has_metadata, c.target, h, k) {
        Progress::Wait(a) => a,
        Progress::Ready(key, k1) => if k1 >= h.len() {
            host::ask(Ask::CommandMode { key })
        } else {
            match h[k1] {
                Answer::Flag(command_mode) => {
                    let effective = effective_text(message, command_mode);
                    let briefed = if text::begins(effective, "/sh "@) {
                        Progress::Ready(Briefed { message: effective, used_up: false }, k1 + 1)
                    } else {
                        handoff_context(c, key, effective, h, k1 + 1)
                    };
                    match briefed {
                        Progress::Wait(a) => a,
                        Progress::Ready(b, k2) => index_step(
                            c,
                            Outgoing {
                                key,
                                shown: message,
                                has_attachments: false,
                                body: ChatBody::Text(b.message),
                                audio_filename: c.meta@.audio_filename,
                            },
                            b.used_up,
                            h,
                            k2,
                        ),
                    }
                },
                _ => host::off_script(),
            }
        },
    }
}

fn run_text_step(c: &ChatCall, message: &str, h: &Vec<Answer>, k: usize) -> (r: Action)
    requires
        k <= h@.len(),
    ensures
        r@ == text_step(*c, message@, h@, k as int),
{
    let (key, k1) = match resolve_inbound_channel_session(c.has_metadata, &c.target, h, k) {
        Progress::Wait(a) => {
            return a;
        },
        Progress::Ready(key, n) => (key, n),
    };
    if k1 >= h.len() {
        return host::just(Ask::CommandMode { key });
    }
    match &h[k1] {
        Answer::Flag(command_mode) => {
            let effective = if *command_mode {
                match commands::rewrite_for_shell_mode(message) {
                    Some(t) => t,
                    None => message.to_string(),
                }
            } else {
                message.to_string()
            };
            assert(effective@ == effective_text(message@, *command_mode));
            let briefed = if text::starts_with(effective.as_str(), "/sh ") {
                Progress::Ready(Briefed { message: effective, used_up: false }, k1 + 1)
            } else {
                maybe_apply_handoff_context(c, key.as_str(), effective.as_str(), h, k1 + 1)
            };
            match briefed {
                Progress::Wait(a) => a,
                Progress::Ready(b, k2) => {
                    let o = Outgoing {
                        key,
                        shown: message.to_string(),
                        has_attachments: false,
                        body: ChatBody::Text(b.message),
                        audio_filename: channel::opt_copy(&c.meta.audio_filename),
                    };
                    run_index_step(c, o, b.used_up, h, k2)
                },
            }
        },
        _ => host::strayed(),
    }
}

/// What a text message does next, given the answers so far.
pub open spec fn chat_step(c: ChatCall, message: Seq<char>, h: Seq<Answer>) -> ActionView {
    if !c.ready {
        host::fail(ChannelError::Unavailable("gateway not ready"@))
    } else {
        text_step(c, message, h, 0)
    }
}

/// What a text message does next, given the answers so far.
pub fn dispatch_to_chat(c: &ChatCall, message: &str, h: &Vec<Answer>) -> (r: Action)
    ensures
        r@ == chat_step(*c, message@, h@),
{
    if !c.ready {
        return host::failed(channel::unavailable("gateway not ready"));
    }
    run_text_step(c, message, h, 0)
}

// ---- messages with attachments ----

/// What a message says of an attachment that was stored.
pub open spec fn saved_line(s: SavedAttachment) -> Seq<char> {
    s.original_name@ + " -> "@ + s.absolute_path@ + " ("@ + s.media_type@ + ", "@ + text::decimal(
        s.size_bytes as nat,
    ) + " bytes)"@
}

/// What a message says of the attachments that were stored.
pub open spec fn saved_lines(saved: Seq<SavedAttachment>) -> Seq<Seq<char>> {
    Seq::new(saved.len(), |i: int| saved_line(saved[i]))
}

fn write_saved_line(s: &SavedAttachment) -> (r: String)
    ensures
        r@ == saved_line(*s),
{
    let mut out = s.original_name.clone();
    out.append(" -> ");
    out.append(s.absolute_path.as_str());
    out.append(" (");
    out.append(s.media_type.as_str());
    out.append(", ");
    out.append(text::decimal_text(s.size_bytes).as_str());
    out.append(" bytes)");
    out
}

fn write_saved_lines(saved: &Vec<SavedAttachment>) -> (r: Vec<String>)
    ensures
        text::views(r@) == saved_lines(saved@),
{
    let mut lines: Vec<String> = Vec::new();
    let mut i: usize = 0;
    let ghost all = saved_lines(saved@);
    assert(text::views(lines@) =~= all.take(0));
    while i < saved.len()
        invariant
            i <= saved@.len(),
            all == saved_lines(saved@),
            text::views(lines@) == all.take(i as int),
        decreases saved@.len() - i,
    {
        text::push_line(&mut lines, write_saved_line(&saved[i]));
        assert(text::views(lines@) =~= all.take(i + 1));
        i += 1;
    }
    assert(all.take(i as int) =~= all);
    lines
}

/// The media types of the attachments that are no images, in order.
pub open spec fn other_types(attachments: Seq<ChannelAttachment>) -> Seq<Seq<char>>
    decreases attachments.len(),
{
    if attachments.len() == 0 {
        Seq::empty()
    } else {
        let before = other_types(attachments.drop_last());
        if commands::is_image(attachments.last().media_type@) {
            before
        } else {
            before.push(attachments.last().media_type@)
        }
    }
}

/// The images among the attachments as data URIs, in order.
pub open spec fn image_uris(attachments: Seq<ChannelAttachment>) -> Seq<Seq<char>>
    decreases attachments.len(),
{
    if attachments.len() == 0 {
        Seq::empty()
    } else {
        let before = image_uris(attachments.drop_last());
        if commands::is_image(attachments.last().media_type@) {
            before.push(
                encoding::data_uri_of(attachments.last().media_type@, attachments.last().data@),
            )
        } else {
            before
        }
    }
}

fn collect_other_types(attachments: &Vec<ChannelAttachment>) -> (r: Vec<String>)
    ensures
        text::views(r@) == other_types(attachments@),
{
    let mut out: Vec<String> = Vec::new();
    let mut i: usize = 0;
    assert(text::views(out@) =~= other_types(attachments@.take(0)));
    while i < attachments.len()
        invariant
            i <= attachments@.len(),
            text::views(out@) == other_types(attachments@.take(i as int)),
        decreases attachments@.len() - i,
    {
        assert(attachments@.take(i + 1).drop_last() =~= attachments@.take(i as int));
        if !commands::is_image_media_type(attachments[i].media_type.as_str()) {
            text::push_line(&mut out, attachments[i].media_type.clone());
        }
        i += 1;
    }
    assert(attachments@.take(i as int) =~= attachments@);
    out
}

fn collect_image_uris(attachments: &Vec<ChannelAttachment>) -> (r: Vec<String>)
    ensures
        text::views(r@) == image_uris(attachments@),
{
    let mut out: Vec<String> = Vec::new();
    let mut i: usize = 0;
    assert(text::views(out@) =~= image_uris(attachments@.take(0)));
    while i < attachments.len()
        invariant
            i <= attachments@.len(),
            text::views(out@) == image_uris(attachments@.take(i as int)),
        decreases attachments@.len() - i,
    {
        assert(attachments@.take(i + 1).drop_last() =~= attachments@.take(i as int));
        if commands::is_image_media_type(attachments[i].media_type.as_str()) {
            text::push_line(
                &mut out,
                encoding::data_uri(
                    attachments[i].media_type.as_str(),
                    attachments[i].data.as_slice(),
                ),
            );
        }
        i += 1;
    }
    assert(attachments@.take(i as int) =~= attachments@);
    out
}

/// The positions of the attachments that are no images, in order.
pub open spec fn other_positions(attachments: Seq<ChannelAttachment>) -> Seq<usize>
    decreases attachments.len(),
{
    if attachments.len() == 0 {
        Seq::empty()
    } else {
        let before = other_positions(attachments.drop_last());
        if commands::is_image(attachments.last().media_type@) {
            before
        } else {
            before.push((attachments.len() - 1) as usize)
        }
    }
}

/// The positions of the attachments that are to be stored: those that are no images.
pub fn attachments_to_save(attachments: &Vec<ChannelAttachment>) -> (r: Vec<usize>)
    ensures
        r@ == other_positions(attachments@),
{
    let mut out: Vec<usize> = Vec::new();
    let mut i: usize = 0;
    while i < attachments.len()
        invariant
            i <= attachments@.len(),
            out@ == other_positions(attachments@.take(i as int)),
        decreases attachments@.len() - i,
    {
        assert(attachments@.take(i + 1).drop_last() =~= attachments@.take(i as int));
        if !commands::is_image_media_type(attachments[i].media_type.as_str()) {
            out.push(i);
        }
        i += 1;
    }
    assert(attachments@.take(i as int) =~= attachments@);
    out
}

/// What the model is told of attachments that it does not get.
pub open spec fn types_notice(kinds: Seq<Seq<char>>) -> Seq<char> {
    "[Attachment Notice] Non-image attachment MIME types: "@ + text::join_of(kinds, ", "@)
        + ". Ask the user for plain text content or a screenshot/image if visual parsing is needed."@
}

fn write_types_notice(kinds: &Vec<String>) -> (r: String)
    ensures
        r@ == types_notice(text::views(kinds@)),
{
    let mut out = "[Attachment Notice] Non-image attachment MIME types: ".to_string();
    out.append(text::join(kinds, ", ").as_str());
    out.append(
        ". Ask the user for plain text content or a screenshot/image if visual parsing is needed.",
    );
    out
}

/// What the model is told of attachments that were stored.
pub open spec fn saved_notice(lines: Seq<Seq<char>>) -> Seq<char> {
    "[Attachment Saved]\n- "@ + text::join_of(lines, "\n- "@)
        + "\nUse these local paths directly when reading attachments."@
}

fn write_saved_notice(lines: &Vec<String>) -> (r: String)
    ensures
        r@ == saved_notice(text::views(lines@)),
{
    let mut out = "[Attachment Saved]\n- ".to_string();
    out.append(text::join(lines, "\n- ").as_str());
    out.append("\nUse these local paths directly when reading attachments.");
    out
}

/// A text and a further paragraph.
pub open spec fn paragraphs(t: Seq<char>, more: Seq<char>) -> Seq<char> {
    if t.len() == 0 {
        more
    } else {
        t + "\n\n"@ + more
    }
}

fn add_paragraph(t: String, more: &str) -> (r: String)
    ensures
        r@ == paragraphs(t@, more@),
{
    if t.as_str().unicode_len() == 0 {
        more.to_string()
    } else {
        let mut out = t;
        out.append("\n\n");
        out.append(more);
        out
    }
}

/// The text that stands for a message whose attachments are no images.
pub open spec fn fallback_of(message: Seq<char>, kinds: Seq<Seq<char>>, saved: Seq<Seq<char>>) -> Seq<
    char,
> {
    let t = text::trim_of(message);
    let noted = if kinds.len() == 0 {
        t
    } else {
        paragraphs(t, types_notice(kinds))
    };
    if saved.len() == 0 {
        noted
    } else {
        paragraphs(noted, saved_notice(saved))
    }
}

/// The text that stands for a message whose attachments are no images.
pub fn fallback_text(message: &str, kinds: &Vec<String>, saved: &Vec<String>) -> (r: String)
    ensures
        r@ == fallback_of(message@, text::views(kinds@), text::views(saved@)),
{
    let mut t = text::trim(message).to_string();
    if kinds.len() > 0 {
        t = add_paragraph(t, write_types_notice(kinds).as_str());
    }
    if saved.len() > 0 {
        t = add_paragraph(t, write_saved_notice(saved).as_str());
    }
    t
}

/// The text that goes with the images of a message.
pub open spec fn caption_of(message: Seq<char>, kinds: Seq<Seq<char>>, saved: Seq<Seq<char>>) -> Seq<
    char,
> {
    if kinds.len() == 0 {
        message
    } else {
        let notice = if saved.len() == 0 {
            types_notice(kinds)
        } else {
            types_notice(kinds) + "\n"@ + saved_notice(saved)
        };
        if text::trim_of(message).len() == 0 {
            notice
        } else {
            message + "\n\n"@ + notice
        }
    }
}

/// The text that goes with the images of a message.
pub fn image_caption(message: &str, kinds: &Vec<String>, saved: &Vec<String>) -> (r: String)
    ensures
        r@ == caption_of(message@, text::views(kinds@), text::views(saved@)),
{
    if kinds.len() == 0 {
        return message.to_string();
    }
    let mut notice = write_types_notice(kinds);
    if saved.len() > 0 {
        notice.append("\n");
        notice.append(write_saved_notice(saved).as_str());
    }
    if text::trim(message).unicode_len() == 0 {
        notice
    } else {
        let mut out = message.to_string();
        out.append("\n\n");
        out.append(notice.as_str());
        out
    }
}

/// The images and the text part: none where the text is blank, unless nothing else is sent.
pub open spec fn parts_of(images: Seq<Seq<char>>, caption: Seq<char>) -> ChatBody<
    Seq<char>,
    Seq<Seq<char>>,
> {
    ChatBody::Parts {
        images,
        text: if text::trim_of(caption).len() > 0 {
            Some(caption)
        } else if images.len() == 0 {
            Some("[Attachment]"@)
        } else {
            None
        },
    }
}

/// What the web interface shows of a message with attachments.
pub open spec fn shown_of(message: Seq<char>, images: nat, others: nat) -> Seq<char> {
    if message.len() == 0 {
        commands::placeholder_of(images > 0, others > 0)
    } else {
        message
    }
}

/// A message with images: what its agent is told, then on to be shown and sent.
pub open spec fn images_step(
    c: ChatCall,
    key: Seq<char>,
    message: Seq<char>,
    attachments: Seq<ChannelAttachment>,
    saved: Seq<Seq<char>>,
    h: Seq<Answer>,
    k: int,
) -> ActionView {
    let images = image_uris(attachments);
    let kinds = other_types(attachments);
    match handoff_context(c, key, message, h, k) {
        Progress::Wait(a) => a,
        Progress::Ready(b, n) => index_step(
            c,
            Outgoing {
                key,
                shown: shown_of(message, images.len(), kinds.len()),
                has_attachments: true,
                body: parts_of(images, caption_of(b.message, kinds, saved)),
                audio_filename: None,
            },
            b.used_up,
            h,
            n,
        ),
    }
}

fn run_images_step(
    c: &ChatCall,
    key: String,
    message: &str,
    attachments: &Vec<ChannelAttachment>,
    saved: &Vec<String>,
    h: &Vec<Answer>,
    k: usize,
) -> (r: Action)
    requires
        k <= h@.len(),
    ensures
        r@ == images_step(
            *c,
            key@,
            message@,
            attachments@,
            text::views(saved@),
            h@,
            k as int,
        ),
{
    let images = collect_image_uris(attachments);
    let kinds = collect_other_types(attachments);
    match maybe_apply_handoff_context(c, key.as_str(), message, h, k) {
        Progress::Wait(a) => a,
        Progress::Ready(b, n) => {
            let caption = image_caption(b.message.as_str(), &kinds, saved);
            let part = if text::trim(caption.as_str()).unicode_len() > 0 {
                Some(caption)
            } else if images.len() == 0 {
                Some("[Attachment]".to_string())
            } else {
                None
            };
            let shown = if message.unicode_len() == 0 {
                commands::attachment_placeholder_text(
                    images.len() > 0,
                    kinds.len() > 0,
                ).to_string()
            } else {
                message.to_string()
            };
            let o = Outgoing {
                key,
                shown,
                has_attachments: true,
                body: ChatBody::Parts { images, text: part },
                audio_filename: None,
            };
            run_index_step(c, o, b.used_up, h, n)
        },
    }
}

/// What was stored is known: a message without images goes on as a text.
pub open spec fn saved_step(
    c: ChatCall,
    key: Seq<char>,
    message: Seq<char>,
    attachments: Seq<ChannelAttachment>,
    saved: Seq<Seq<char>>,
    h: Seq<Answer>,
    k: int,
) -> ActionView {
    if image_uris(attachments).len() == 0 {
        text_step(c, fallback_of(message, other_types(attachments), saved), h, k)
    } else {
        images_step(c, key, message, attachments, saved, h, k)
    }
}

fn run_saved_step(
    c: &ChatCall,
    key: String,
    message: &str,
    attachments: &Vec<ChannelAttachment>,
    saved: &Vec<String>,
    h: &Vec<Answer>,
    k: usize,
) -> (r: Action)
    requires
        k <= h@.len(),
    ensures
        r@ == saved_step(
            *c,
            key@,
            message@,
            attachments@,
            text::views(saved@),
            h@,
            k as int,
        ),
{
    let images = collect_image_uris(attachments);
    if images.len() == 0 {
        let kinds = collect_other_types(attachments);
        let t = fallback_text(message, &kinds, saved);
        run_text_step(c, t.as_str(), h, k)
    } else {
        run_images_step(c, key, message, attachments, saved, h, k)
    }
}

/// What a message with attachments does next, given the answers so far.
pub open spec fn attachments_step(
    c: ChatCall,
    message: Seq<char>,
    attachments: Seq<ChannelAttachment>,
    h: Seq<Answer>,
) -> ActionView {
    if attachments.len() == 0 || !c.ready {
        chat_step(c, message, h)
    } else {
        match inbound_session(c.has_metadata, c.target, h, 0) {
            Progress::Wait(a) => a,
            Progress::Ready(key, k) => if !c.has_attachment_store {
                saved_step(c, key, message, attachments, Seq::empty(), h, k)
            } else if k >= h.len() {
                host::ask(Ask::SaveAttachments { key, target: c.target@ })
            } else {
                match h[k] {
                    Answer::Saved(saved) => saved_step(
                        c,
                        key,
                        message,
                        attachments,
                        saved_lines(saved@),
                        h,
                        k + 1,
                    ),
                    _ => host::off_script(),
                }
            },
        }
    }
}

/// What a message with attachments does next, given the answers so far.
pub fn dispatch_to_chat_with_attachments(
    c: &ChatCall,
    message: &str,
    attachments: &Vec<ChannelAttachment>,
    h: &Vec<Answer>,
) -> (r: Action)
    ensures
        r@ == attachments_step(*c, message@, attachments@, h@),
{
    if attachments.len() == 0 || !c.ready {
        return dispatch_to_chat(c, message, h);
    }
    let (key, k) = match resolve_inbound_channel_session(c.has_metadata, &c.target, h, 0) {
        Progress::Wait(a) => {
            return a;
        },
        Progress::Ready(key, n) => (key, n),
    };
    if !c.has_attachment_store {
        let none: Vec<String> = Vec::new();
        assert(text::views(none@) =~= Seq::<Seq<char>>::empty());
        return run_saved_step(c, key, message, attachments, &none, h, k);
    }
    if k >= h.len() {
        return host::just(Ask::SaveAttachments { key, target: c.target.copy() });
    }
    match &h[k] {
        Answer::Saved(saved) => {
            let lines = write_saved_lines(saved);
            run_saved_step(c, key, message, attachments, &lines, h, k + 1)
        },
        _ => host::strayed(),
    }
}

} // verus!
