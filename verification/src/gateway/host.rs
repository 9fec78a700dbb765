//! What the gateway asks of its host: the work to be done and the answers that come back.
//!
//! A request is a conversation. Its next action is a function of the request and of the answers
//! so far; the host performs the effects of the action in order, then does what it asks, and adds
//! the answer to the conversation.

use crate::channel;
use crate::channel::{ChannelError, ChannelMessageMeta, ChannelReplyTarget};
use crate::gateway::commands::{AgentPersona, HandoffMode};
use crate::gateway::reports::{CachedImage, SessionEntry};
use crate::json;
use crate::json::{Json, JsonView};
use crate::text;
use vstd::prelude::*;

verus! {

/// What happened to a session.
#[derive(Debug, Clone, Copy, PartialEq, Eq, Structural)]
pub enum Change {
    Created,
    Switched,
    Patched,
}

impl Change {
    /// The name of the change.
    pub open spec fn name(self) -> Seq<char> {
        match self {
            Change::Created => "created"@,
            Change::Switched => "switched"@,
            Change::Patched => "patched"@,
        }
    }

    /// The name of the change.
    pub fn as_str(self) -> (r: &'static str)
        ensures
            r@ == self.name(),
    {
        match self {
            Change::Created => "created",
            Change::Switched => "switched",
            Change::Patched => "patched",
        }
    }
}

/// What the next agent of a session is told.
#[derive(Debug)]
pub struct HandoffPacket<S> {
    pub version: u8,
    pub mode: HandoffMode,
    pub from_agent_id: S,
    pub to_agent_id: S,
    pub source_session_key: S,
    pub target_session_key: S,
    pub note: S,
    pub created_at_ms: u64,
}

impl View for HandoffPacket<String> {
    type V = HandoffPacket<Seq<char>>;

    open spec fn view(&self) -> HandoffPacket<Seq<char>> {
        HandoffPacket {
            version: self.version,
            mode: self.mode,
            from_agent_id: self.from_agent_id@,
            to_agent_id: self.to_agent_id@,
            source_session_key: self.source_session_key@,
            target_session_key: self.target_session_key@,
            note: self.note@,
            created_at_ms: self.created_at_ms,
        }
    }
}

/// Work whose outcome decides nothing.
#[derive(Debug)]
pub enum Effect<S> {
    /// Store where the replies of a session go.
    SetBinding { key: S, binding: S },
    /// Store a session under a label; a failure is passed over.
    EnsureSession { key: S, label: S },
    /// Store the agent of a session; a failure is passed over.
    SetAgent { key: S, agent: S },
    /// Make a session the active one of the chat.
    SetActive { chat: ChannelReplyTarget<S>, key: S },
    /// Patch the model of a session through the session service; a failure is passed over.
    PatchModel { key: S, model: S },
    /// Store the model of a session.
    SetModel { key: S, model: S },
    /// Store the project of a session.
    SetProject { key: S, project: S },
    /// Store whether a session has its tools switched off.
    SetMcpDisabled { key: S, disabled: bool },
    /// Tell the web interface that a session changed.
    Announce { change: Change, key: S, version: Option<u64> },
    /// Store what the next agent of a session is told.
    StorePacket { key: S, packet: HandoffPacket<S> },
    /// Delete what the next agent of a session is told.
    DropPacket { key: S },
    /// Switch the command mode of a session.
    SetCommandMode { key: S, enabled: bool },
    /// Add a line to the status log of a session.
    LogStatus { key: S, message: S },
    /// Show a message of the user in the web interface, with what is known of it.
    ShowMessage {
        key: S,
        text: S,
        index: u64,
        has_attachments: bool,
        meta: ChannelMessageMeta<S>,
    },
    /// Send a text to the chat.
    SendText { target: ChannelReplyTarget<S>, text: S },
}

/// What is sent to the model: a text, or images and an optional text.
#[derive(Debug)]
pub enum ChatBody<S, L> {
    Text(S),
    Parts { images: L, text: Option<S> },
}

/// A message for the model, with where its reply goes and what is known of it.
#[derive(Debug)]
pub struct ChatParams<S, L> {
    pub body: ChatBody<S, L>,
    pub session_key: S,
    pub target: ChannelReplyTarget<S>,
    pub meta: ChannelMessageMeta<S>,
    pub audio_filename: Option<S>,
    pub model: Option<S>,
}

/// Work whose answer decides how the conversation goes on.
#[derive(Debug)]
pub enum Ask<S, L> {
    /// The session that the chat was switched to.
    ActiveSession { chat: ChannelReplyTarget<S> },
    /// The sessions of the chat.
    ListSessions { chat: ChannelReplyTarget<S> },
    /// The stored session `key`.
    Session { key: S },
    /// The state of all channels.
    ChannelStatus,
    /// The agent that sessions get by default.
    DefaultAgent,
    /// All agents.
    ListAgents,
    /// All models.
    ListModels,
    /// Store a session under a label.
    CreateSession { key: S, label: S },
    /// Store the agent of a session.
    AssignAgent { key: S, agent: S },
    /// Patch the model of a session.
    PatchModel { key: S, model: S },
    /// Patch whether a session runs in the sandbox.
    PatchSandbox { key: S, enabled: bool },
    /// Patch the sandbox image of a session; the empty image takes the choice back.
    PatchImage { key: S, image: S },
    /// Clear the conversation of a session.
    Clear { key: S },
    /// Compact the conversation of a session.
    Compact { key: S },
    /// Describe a session.
    Context { key: S },
    /// Archive a session, or take it back.
    Archive { key: S, archived: bool },
    /// Archive each of the sessions; the answer is how many were archived.
    ArchiveEach { keys: L },
    /// Copy a session.
    Fork { key: S },
    /// Whether a session runs in the sandbox.
    Sandboxed { key: S },
    /// The image of the sandbox.
    DefaultImage,
    /// The images that were built and kept.
    ListImages,
    /// Whether a session is in command mode.
    CommandMode { key: S },
    /// The time in milliseconds since 1970.
    Now,
    /// What the next agent of a session is to be told.
    Pending { key: S },
    /// The number of messages of a session.
    MessageCount { key: S },
    /// Store the attachments that are no images, as attachments of the chat's message.
    SaveAttachments { key: S, target: ChannelReplyTarget<S> },
    /// Send a message to the model, showing that the bot is typing where the channel can.
    Send { params: ChatParams<S, L> },
    /// Nothing is left to do: the answer to the request.
    Finish(Result<S, ChannelError<S>>),
}

/// What the host does next: the effects in order, then what is asked.
#[derive(Debug)]
pub struct Action {
    pub effects: Vec<Effect<String>>,
    pub ask: Ask<String, Vec<String>>,
}

/// What an action holds.
#[verifier::ext_equal]
pub struct ActionView {
    pub effects: Seq<Effect<Seq<char>>>,
    pub ask: Ask<Seq<char>, Seq<Seq<char>>>,
}

impl View for Effect<String> {
    type V = Effect<Seq<char>>;

    open spec fn view(&self) -> Effect<Seq<char>> {
        match *self {
            Effect::SetBinding { key, binding } => Effect::SetBinding {
                key: key@,
                binding: binding@,
            },
            Effect::EnsureSession { key, label } => Effect::EnsureSession {
                key: key@,
                label: label@,
            },
            Effect::SetAgent { key, agent } => Effect::SetAgent { key: key@, agent: agent@ },
            Effect::SetActive { chat, key } => Effect::SetActive { chat: chat@, key: key@ },
            Effect::PatchModel { key, model } => Effect::PatchModel { key: key@, model: model@ },
            Effect::SetModel { key, model } => Effect::SetModel { key: key@, model: model@ },
            Effect::SetProject { key, project } => Effect::SetProject {
                key: key@,
                project: project@,
            },
            Effect::SetMcpDisabled { key, disabled } => Effect::SetMcpDisabled {
                key: key@,
                disabled,
            },
            Effect::Announce { change, key, version } => Effect::Announce {
                change,
                key: key@,
                version,
            },
            Effect::StorePacket { key, packet } => Effect::StorePacket {
                key: key@,
                packet: packet@,
            },
            Effect::DropPacket { key } => Effect::DropPacket { key: key@ },
            Effect::SetCommandMode { key, enabled } => Effect::SetCommandMode {
                key: key@,
                enabled,
            },
            Effect::LogStatus { key, message } => Effect::LogStatus {
                key: key@,
                message: message@,
            },
            Effect::ShowMessage { key, text, index, has_attachments, meta } => Effect::ShowMessage {
                key: key@,
                text: text@,
                index,
                has_attachments,
                meta: meta@,
            },
            Effect::SendText { target, text } => Effect::SendText {
                target: target@,
                text: text@,
            },
        }
    }
}

impl View for ChatBody<String, Vec<String>> {
    type V = ChatBody<Seq<char>, Seq<Seq<char>>>;

    open spec fn view(&self) -> ChatBody<Seq<char>, Seq<Seq<char>>> {
        match *self {
            ChatBody::Text(t) => ChatBody::Text(t@),
            ChatBody::Parts { images, text } => ChatBody::Parts {
                images: text::views(images@),
                text: channel::opt_view(text),
            },
        }
    }
}

impl View for ChatParams<String, Vec<String>> {
    type V = ChatParams<Seq<char>, Seq<Seq<char>>>;

    open spec fn view(&self) -> ChatParams<Seq<char>, Seq<Seq<char>>> {
        ChatParams {
            body: self.body@,
            session_key: self.session_key@,
            target: self.target@,
            meta: self.meta@,
            audio_filename: channel::opt_view(self.audio_filename),
            model: channel::opt_view(self.model),
        }
    }
}

impl View for Ask<String, Vec<String>> {
    type V = Ask<Seq<char>, Seq<Seq<char>>>;

    open spec fn view(&self) -> Ask<Seq<char>, Seq<Seq<char>>> {
        match *self {
            Ask::ActiveSession { chat } => Ask::ActiveSession { chat: chat@ },
            Ask::ListSessions { chat } => Ask::ListSessions { chat: chat@ },
            Ask::Session { key } => Ask::Session { key: key@ },
            Ask::ChannelStatus => Ask::ChannelStatus,
            Ask::DefaultAgent => Ask::DefaultAgent,
            Ask::ListAgents => Ask::ListAgents,
            Ask::ListModels => Ask::ListModels,
            Ask::CreateSession { key, label } => Ask::CreateSession { key: key@, label: label@ },
            Ask::AssignAgent { key, agent } => Ask::AssignAgent { key: key@, agent: agent@ },
            Ask::PatchModel { key, model } => Ask::PatchModel { key: key@, model: model@ },
            Ask::PatchSandbox { key, enabled } => Ask::PatchSandbox { key: key@, enabled },
            Ask::PatchImage { key, image } => Ask::PatchImage { key: key@, image: image@ },
            Ask::Clear { key } => Ask::Clear { key: key@ },
            Ask::Compact { key } => Ask::Compact { key: key@ },
            Ask::Context { key } => Ask::Context { key: key@ },
            Ask::Archive { key, archived } => Ask::Archive { key: key@, archived },
            Ask::ArchiveEach { keys } => Ask::ArchiveEach { keys: text::views(keys@) },
            Ask::Fork { key } => Ask::Fork { key: key@ },
            Ask::Sandboxed { key } => Ask::Sandboxed { key: key@ },
            Ask::DefaultImage => Ask::DefaultImage,
            Ask::ListImages => Ask::ListImages,
            Ask::CommandMode { key } => Ask::CommandMode { key: key@ },
            Ask::Now => Ask::Now,
            Ask::Pending { key } => Ask::Pending { key: key@ },
            Ask::MessageCount { key } => Ask::MessageCount { key: key@ },
            Ask::SaveAttachments { key, target } => Ask::SaveAttachments {
                key: key@,
                target: target@,
            },
            Ask::Send { params } => Ask::Send { params: params@ },
            Ask::Finish(r) => Ask::Finish(channel::reply_view(r)),
        }
    }
}

/// What a list of effects holds.
pub open spec fn effects_view(effects: Seq<Effect<String>>) -> Seq<Effect<Seq<char>>> {
    effects.map_values(|e: Effect<String>| e@)
}

impl View for Action {
    type V = ActionView;

    open spec fn view(&self) -> ActionView {
        ActionView { effects: effects_view(self.effects@), ask: self.ask@ }
    }
}

/// What the next agent of a session is to be told, as it was stored.
#[derive(Debug)]
pub enum Pending {
    /// Nothing is stored, or it could not be read.
    Nothing,
    /// What is stored is no packet.
    Garbled,
    Packet(HandoffPacket<String>),
}

/// An attachment that was stored: the name and path that the user sees, its type and size.
#[derive(Debug)]
pub struct SavedAttachment {
    pub original_name: String,
    pub absolute_path: String,
    pub media_type: String,
    pub size_bytes: u64,
}

/// What the host answers.
#[derive(Debug)]
pub enum Answer {
    /// To `ActiveSession`.
    Key(Option<String>),
    /// To `ListSessions`.
    Sessions(Vec<SessionEntry>),
    /// To `Session`.
    Session(Option<SessionEntry>),
    /// To `ChannelStatus`: nothing where the state could not be had.
    Status(Option<Json>),
    /// To `DefaultAgent`: nothing where it could not be had.
    Agent(Option<String>),
    /// To `ListAgents`.
    Agents(Result<Vec<AgentPersona>, String>),
    /// To `ListModels`, `Context`, `Fork` and the patches: a document or the message of an error.
    Document(Result<Json, String>),
    /// To work that only succeeds or fails.
    Outcome(Result<(), String>),
    /// To `ArchiveEach` and `MessageCount`.
    Count(u64),
    /// To `Sandboxed` and `CommandMode`.
    Flag(bool),
    /// To `DefaultImage`.
    Image(String),
    /// To `ListImages`.
    Images(Vec<CachedImage>),
    /// To `Now`.
    Time(u64),
    /// To `Pending`.
    Packet(Pending),
    /// To `SaveAttachments`: those that could be stored.
    Saved(Vec<SavedAttachment>),
}

// ---- making actions ----

/// Ask without effects.
pub open spec fn ask(a: Ask<Seq<char>, Seq<Seq<char>>>) -> ActionView {
    ActionView { effects: Seq::empty(), ask: a }
}

/// Do the effects, then ask.
pub open spec fn ask_after(
    effects: Seq<Effect<Seq<char>>>,
    a: Ask<Seq<char>, Seq<Seq<char>>>,
) -> ActionView {
    ActionView { effects, ask: a }
}

/// End the conversation with an error.
pub open spec fn fail(e: ChannelError<Seq<char>>) -> ActionView {
    ask(Ask::Finish(Err(e)))
}

/// Do the effects, then end the conversation with a text.
pub open spec fn done(effects: Seq<Effect<Seq<char>>>, t: Seq<char>) -> ActionView {
    ask_after(effects, Ask::Finish(Ok(t)))
}

/// End the conversation after an answer to something that was not asked.
pub open spec fn off_script() -> ActionView {
    fail(ChannelError::Unavailable("unexpected answer"@))
}

/// Ask without effects.
pub fn just(a: Ask<String, Vec<String>>) -> (r: Action)
    ensures
        r@ == ask(a@),
{
    let r = Action { effects: Vec::new(), ask: a };
    assert(r@ =~= ask(a@));
    r
}

/// Do the effects, then ask.
pub fn after(effects: Vec<Effect<String>>, a: Ask<String, Vec<String>>) -> (r: Action)
    ensures
        r@ == ask_after(effects_view(effects@), a@),
{
    Action { effects, ask: a }
}

/// End the conversation with an error.
pub fn failed(e: ChannelError<String>) -> (r: Action)
    ensures
        r@ == fail(e@),
{
    just(Ask::Finish(Err(e)))
}

/// Do the effects, then end the conversation with a text.
pub fn finished(effects: Vec<Effect<String>>, t: String) -> (r: Action)
    ensures
        r@ == done(effects_view(effects@), t@),
{
    after(effects, Ask::Finish(Ok(t)))
}

/// End the conversation after an answer to something that was not asked.
pub fn strayed() -> (r: Action)
    ensures
        r@ == off_script(),
{
    failed(channel::unavailable("unexpected answer"))
}

/// Adds an effect to a list.
pub fn push_effect(effects: &mut Vec<Effect<String>>, e: Effect<String>)
    ensures
        effects_view(final(effects)@) == effects_view(old(effects)@).push(e@),
{
    let ghost before = effects_view(effects@);
    effects.push(e);
    assert(effects_view(effects@) =~= before.push(e@));
}

/// The list without effects.
pub fn no_effects() -> (r: Vec<Effect<String>>)
    ensures
        effects_view(r@) == Seq::<Effect<Seq<char>>>::empty(),
{
    let r: Vec<Effect<String>> = Vec::new();
    assert(effects_view(r@) =~= Seq::<Effect<Seq<char>>>::empty());
    r
}

/// The list of one effect.
pub fn one_effect(e: Effect<String>) -> (r: Vec<Effect<String>>)
    ensures
        effects_view(r@) == seq![e@],
{
    let mut r = no_effects();
    push_effect(&mut r, e);
    assert(effects_view(r@) =~= seq![e@]);
    r
}

/// The list of two effects.
pub fn two_effects(a: Effect<String>, b: Effect<String>) -> (r: Vec<Effect<String>>)
    ensures
        effects_view(r@) == seq![a@, b@],
{
    let mut r = one_effect(a);
    push_effect(&mut r, b);
    assert(effects_view(r@) =~= seq![a@, b@]);
    r
}

/// A part of a conversation: it waits for the host, or it is over with a result and the number of
/// answers that were used up.
pub enum Progress<A, T, K> {
    Wait(A),
    Ready(T, K),
}

// ---- the configuration of an account ----

/// The first channel at or after `i` of that account, and of that kind where one is given.
pub open spec fn channel_from(
    channels: Seq<JsonView>,
    kind: Option<Seq<char>>,
    account: Seq<char>,
    i: int,
) -> Option<JsonView>
    decreases channels.len() - i,
{
    if i < 0 || i >= channels.len() {
        None
    } else if (kind is None || channels[i].text_at("type"@) == kind) && channels[i].text_at(
        "account_id"@,
    ) == Some(account) {
        Some(channels[i])
    } else {
        channel_from(channels, kind, account, i + 1)
    }
}

/// The configuration of an account in the state of the channels.
pub open spec fn config_in(
    status: Option<JsonView>,
    kind: Option<Seq<char>>,
    account: Seq<char>,
) -> Option<JsonView> {
    match status {
        None => None,
        Some(s) => match s.items_at("channels"@) {
            None => None,
            Some(channels) => match channel_from(channels, kind, account, 0) {
                None => None,
                Some(ch) => ch.member("config"@),
            },
        },
    }
}

/// The state of the channels in an option.
pub open spec fn status_view(status: Option<Json>) -> Option<JsonView> {
    match status {
        Some(j) => Some(j@),
        None => None,
    }
}

/// The configuration of the account that a reply goes to.
pub open spec fn account_config(status: Option<Json>, target: ChannelReplyTarget) -> Option<
    JsonView,
> {
    config_in(status_view(status), Some(target.channel_type.name()), target.account_id@)
}

/// A text of the configuration, if it is not blank.
pub open spec fn config_text(config: Option<JsonView>, name: Seq<char>) -> Option<Seq<char>> {
    match config {
        None => None,
        Some(c) => match c.text_at(name) {
            None => None,
            Some(t) => if text::trim_of(t).len() == 0 {
                None
            } else {
                Some(t)
            },
        },
    }
}

/// A truth value of the configuration.
pub open spec fn config_truth(config: Option<JsonView>, name: Seq<char>) -> Option<bool> {
    match config {
        None => None,
        Some(c) => c.truth_at(name),
    }
}

/// A number of the configuration, as a number or spelled out.
pub open spec fn config_number(config: Option<JsonView>, name: Seq<char>) -> Option<nat> {
    match config {
        None => None,
        Some(c) => match c.member(name) {
            None => None,
            Some(v) => match v.unsigned() {
                Some(n) => Some(n as nat),
                None => match v.text() {
                    None => None,
                    Some(t) => text::number_up_to(text::trim_of(t), u64::MAX as nat),
                },
            },
        },
    }
}

/// The configuration of an account in the state of the channels.
pub fn find_config<'a>(status: &'a Option<Json>, kind: Option<&str>, account: &str) -> (r: Option<
    &'a Json,
>)
    ensures
        json::json_view(r) == config_in(status_view(*status), json::text_view(kind), account@),
{
    match status {
        None => None,
        Some(s) => match s.items_at("channels") {
            None => None,
            Some(channels) => {
                let ghost all = json::views(channels@);
                let ghost wanted = json::text_view(kind);
                let mut i: usize = 0;
                while i < channels.len()
                    invariant
                        i <= channels@.len(),
                        all == json::views(channels@),
                        wanted == json::text_view(kind),
                        status_view(*status) == Some(s@),
                        s@.items_at("channels"@) == Some(all),
                        channel_from(all, wanted, account@, 0) == channel_from(
                            all,
                            wanted,
                            account@,
                            i as int,
                        ),
                    decreases channels@.len() - i,
                {
                    let ch = &channels[i];
                    assert(all[i as int] == ch@);
                    if (kind.is_none() || channel::opt_eq(ch.text_at("type"), kind))
                        && channel::opt_eq(ch.text_at("account_id"), Some(account)) {
                        return ch.get("config");
                    }
                    i += 1;
                }
                None
            },
        },
    }
}

/// The configuration of the account that a reply goes to.
pub fn channel_account_config<'a>(status: &'a Option<Json>, target: &ChannelReplyTarget) -> (r:
    Option<&'a Json>)
    ensures
        json::json_view(r) == account_config(*status, *target),
{
    find_config(status, Some(target.channel_type.as_str()), target.account_id.as_str())
}

/// A text of the configuration, if it is not blank.
pub fn channel_config_string(config: Option<&Json>, name: &str) -> (r: Option<String>)
    ensures
        channel::opt_view(r) == config_text(json::json_view(config), name@),
{
    match config {
        None => None,
        Some(c) => match c.text_at(name) {
            None => None,
            Some(t) => {
                if text::trim(t).unicode_len() == 0 {
                    None
                } else {
                    Some(t.to_string())
                }
            },
        },
    }
}

/// A truth value of the configuration.
pub fn channel_config_bool(config: Option<&Json>, name: &str) -> (r: Option<bool>)
    ensures
        r == config_truth(json::json_view(config), name@),
{
    match config {
        None => None,
        Some(c) => c.truth_at(name),
    }
}

/// A number of the configuration, as a number or spelled out.
pub fn channel_config_u64(config: Option<&Json>, name: &str) -> (r: Option<u64>)
    ensures
        r matches Some(n) ==> config_number(json::json_view(config), name@) == Some(n as nat),
        r is None <==> config_number(json::json_view(config), name@) is None,
{
    match config {
        None => None,
        Some(c) => match c.get(name) {
            None => None,
            Some(v) => match v.as_u64() {
                Some(n) => Some(n),
                None => match v.as_str() {
                    None => None,
                    Some(t) => text::parse_u64(text::trim(t)),
                },
            },
        },
    }
}

} // verus!
