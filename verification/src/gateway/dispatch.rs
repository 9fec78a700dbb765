//! The commands of a channel, carried out as a conversation with the host.

use crate::channel;
use crate::channel::{ChannelError, ChannelReplyTarget, ChannelType};
use crate::gateway::commands;
use crate::gateway::commands::{AgentPersona, HandoffMode, SessionsCommand};
use crate::gateway::host;
use crate::gateway::host::{Action, ActionView, Answer, Ask, Change, Effect, HandoffPacket, Progress};
use crate::gateway::reports;
use crate::gateway::reports::SessionEntry;
use crate::gateway::sessions;
use crate::json;
use crate::json::Json;
use crate::text;
use vstd::prelude::*;

verus! {

// ---- fresh sessions ----

/// A lower-case hexadecimal digit.
pub open spec fn is_hex(c: char) -> bool {
    ('0' <= c && c <= '9') || ('a' <= c && c <= 'f')
}

/// The shape of a random UUID: hexadecimal digits in five groups, with the version digit four and
/// a variant digit from eight to eleven.
pub open spec fn is_uuid(s: Seq<char>) -> bool {
    &&& s.len() == 36
    &&& s[8] == '-' && s[13] == '-' && s[18] == '-' && s[23] == '-'
    &&& s[14] == '4'
    &&& s[19] == '8' || s[19] == '9' || s[19] == 'a' || s[19] == 'b'
    &&& forall|i: int|
        0 <= i < 36 && i != 8 && i != 13 && i != 18 && i != 23 ==> is_hex(#[trigger] s[i])
}

/// `uuid::Uuid::new_v4` draws a random UUID, with the version four and the variant of RFC 4122; its
/// `Display` writes it in lower case and hyphenated. Which one is drawn is left open.
#[verifier::external_body]
pub(crate) fn random_uuid() -> (r: String)
    ensures
        is_uuid(r@),
{
    uuid::Uuid::new_v4().to_string()
}

/// The key of a session that did not exist before.
pub open spec fn is_fresh_key(s: Seq<char>) -> bool {
    text::begins(s, "session:"@) && is_uuid(s.skip("session:"@.len() as int))
}

/// Draws the key of a new session.
pub fn fresh_session_key() -> (r: String)
    ensures
        is_fresh_key(r@),
{
    let id = random_uuid();
    let mut out = "session:".to_string();
    let ghost head = out@;
    out.append(id.as_str());
    assert(out@.subrange(0, head.len() as int) =~= head);
    assert(out@.skip(head.len() as int) =~= id@);
    out
}

// ---- the request ----

/// A command of a chat and what the host has at hand for it.
#[derive(Debug)]
pub struct CommandCall {
    /// Whether the gateway is up.
    pub ready: bool,
    /// Whether the sessions are stored.
    pub has_metadata: bool,
    /// Whether there is an agent store.
    pub has_agents: bool,
    /// Whether there is a sandbox router.
    pub has_router: bool,
    /// Whether there is a store for what the next agent is told.
    pub has_state_store: bool,
    pub target: ChannelReplyTarget,
    /// What the user sees of the channel kind.
    pub display_name: String,
    /// The reply target as it is stored with a session, or why it could not be written.
    pub binding: Result<String, String>,
    /// The key for a session that the command may create.
    pub fresh_key: String,
    /// The image that the sandbox has of itself.
    pub default_image: String,
    /// The name of the command.
    pub name: String,
    /// The arguments of the command, trimmed.
    pub args: String,
}

/// What the host has at hand for commands.
#[derive(Debug)]
pub struct HostFacts {
    pub ready: bool,
    pub has_metadata: bool,
    pub has_agents: bool,
    pub has_router: bool,
    pub has_state_store: bool,
    pub display_name: String,
    pub binding: Result<String, String>,
    pub default_image: String,
}

impl CommandCall {
    /// Takes a command apart and draws the key for a session that it may create.
    pub fn new(facts: HostFacts, target: ChannelReplyTarget, command: &str) -> (r: Self)
        ensures
            (r.name@, r.args@) == commands::command_parts(command@),
            is_fresh_key(r.fresh_key@),
            r.ready == facts.ready,
            r.has_metadata == facts.has_metadata,
            r.has_agents == facts.has_agents,
            r.has_router == facts.has_router,
            r.has_state_store == facts.has_state_store,
            r.target == target,
            r.display_name == facts.display_name,
            r.binding == facts.binding,
            r.default_image == facts.default_image,
    {
        let (name, args) = commands::split_command(command);
        CommandCall {
            ready: facts.ready,
            has_metadata: facts.has_metadata,
            has_agents: facts.has_agents,
            has_router: facts.has_router,
            has_state_store: facts.has_state_store,
            target,
            display_name: facts.display_name,
            binding: facts.binding,
            fresh_key: fresh_session_key(),
            default_image: facts.default_image,
            name,
            args,
        }
    }
}

// Each specification below says what the conversation does next, given the answers from the `k`-th
// on; the function after it computes that.

/// The label of the next session of a chat.
pub open spec fn session_label(display: Seq<char>, existing: nat) -> Seq<char> {
    display + " "@ + text::decimal(existing + 1)
}

/// The label of the next session of a chat.
pub fn write_session_label(display: &str, existing: usize) -> (r: String)
    ensures
        r@ == session_label(display@, existing as nat),
{
    let mut out = display.to_string();
    out.append(" ");
    out.append(text::decimal_wide(existing as u128 + 1).as_str());
    out
}

/// The error of an operation that failed with a message.
pub open spec fn external_error(context: Seq<char>, message: Seq<char>) -> ActionView {
    host::fail(ChannelError::External { context, message })
}

fn failed_externally(context: &str, message: &str) -> (r: Action)
    ensures
        r@ == external_error(context@, message@),
{
    host::failed(channel::external(context, message))
}

/// The error for input that cannot be used.
pub open spec fn bad_input(message: Seq<char>) -> ActionView {
    host::fail(ChannelError::InvalidInput(message))
}

fn failed_input(message: &str) -> (r: Action)
    ensures
        r@ == bad_input(message@),
{
    host::failed(channel::invalid_input(message))
}

/// The error of a service that failed with a message.
pub open spec fn no_service(message: Seq<char>) -> ActionView {
    host::fail(ChannelError::Unavailable(message))
}

fn failed_service(message: &str) -> (r: Action)
    ensures
        r@ == no_service(message@),
{
    host::failed(channel::unavailable(message))
}

fn reply(t: &str) -> (r: Action)
    ensures
        r@ == host::done(Seq::empty(), t@),
{
    host::finished(host::no_effects(), t.to_string())
}

fn two_parts(a: &str, b: &str) -> (r: String)
    ensures
        r@ == a@ + b@,
{
    let mut out = a.to_string();
    out.append(b);
    out
}

// ---- new ----

/// What the user is told of a new session.
pub open spec fn new_reply(model: Option<(Seq<char>, Seq<char>)>) -> Seq<char> {
    match model {
        Some((_, display)) => if display.len() == 0 {
            "New session started."@
        } else {
            "New session started. Using *"@ + display + "*. Use /model to change."@
        },
        None => "New session started."@,
    }
}

/// The model of a new session: that of the account, else the first registered one.
pub open spec fn new_model(
    c: CommandCall,
    status: Option<Json>,
    models: Result<Json, String>,
) -> Option<(Seq<char>, Seq<char>)> {
    let config = host::config_in(host::status_view(status), None, c.target.account_id@);
    let own = match config {
        Some(j) => j.text_at("model"@),
        None => None,
    };
    match own {
        Some(id) => Some((id, sessions::display_of(sessions::models_in(models), id))),
        None => sessions::first_model(sessions::models_in(models)),
    }
}

/// The agent is known: the session is given to it and made the active one, then gets its model.
pub open spec fn new_with_agent(c: CommandCall, agent: Seq<char>, h: Seq<Answer>, k: int) -> ActionView {
    if k >= h.len() {
        host::ask_after(
            seq![
                Effect::SetAgent { key: c.fresh_key@, agent },
                Effect::SetActive { chat: c.target@, key: c.fresh_key@ },
            ],
            Ask::ChannelStatus,
        )
    } else {
        match h[k] {
            Answer::Status(status) => if k + 1 >= h.len() {
                host::ask(Ask::ListModels)
            } else {
                match h[k + 1] {
                    Answer::Document(models) => {
                        let model = new_model(c, status, models);
                        let patch = match model {
                            Some((id, _)) => seq![
                                Effect::PatchModel { key: c.fresh_key@, model: id },
                            ],
                            None => Seq::empty(),
                        };
                        host::done(
                            patch.push(
                                Effect::Announce {
                                    change: Change::Created,
                                    key: c.fresh_key@,
                                    version: None,
                                },
                            ),
                            new_reply(model),
                        )
                    },
                    _ => host::off_script(),
                }
            },
            _ => host::off_script(),
        }
    }
}

fn run_new_with_agent(c: &CommandCall, agent: String, h: &Vec<Answer>, k: usize) -> (r: Action)
    requires
        k <= h@.len(),
    ensures
        r@ == new_with_agent(*c, agent@, h@, k as int),
{
    if k >= h.len() {
        return host::after(
            host::two_effects(
                Effect::SetAgent { key: c.fresh_key.clone(), agent },
                Effect::SetActive { chat: c.target.copy(), key: c.fresh_key.clone() },
            ),
            Ask::ChannelStatus,
        );
    }
    match &h[k] {
        Answer::Status(status) => {
            if k + 1 >= h.len() {
                return host::just(Ask::ListModels);
            }
            match &h[k + 1] {
                Answer::Document(models) => {
                    let config = host::find_config(status, None, c.target.account_id.as_str());
                    let own = match config {
                        Some(j) => j.text_at("model"),
                        None => None,
                    };
                    let model = match own {
                        Some(id) => Some((id.to_string(), sessions::model_display(models, id))),
                        None => sessions::take_first_model(models),
                    };
                    assert(sessions::pair_view(model) == new_model(*c, *status, *models));
                    let mut effects = host::no_effects();
                    let mut t = "New session started.".to_string();
                    if let Some((id, display)) = model {
                        if display.as_str().unicode_len() > 0 {
                            t = two_parts("New session started. Using *", display.as_str());
                            t.append("*. Use /model to change.");
                        }
                        host::push_effect(
                            &mut effects,
                            Effect::PatchModel { key: c.fresh_key.clone(), model: id },
                        );
                        assert(host::effects_view(effects@) =~= seq![
                            Effect::PatchModel { key: c.fresh_key@, model: id@ },
                        ]);
                    }
                    host::push_effect(
                        &mut effects,
                        Effect::Announce {
                            change: Change::Created,
                            key: c.fresh_key.clone(),
                            version: None,
                        },
                    );
                    host::finished(effects, t)
                },
                _ => host::strayed(),
            }
        },
        _ => host::strayed(),
    }
}

/// Whether a stored session knows where its replies go.
pub open spec fn is_bound(entry: Option<SessionEntry>) -> bool {
    entry matches Some(e) && e.channel_binding is Some
}

/// The old session is known: it is bound too if it was not, and its agent is inherited.
pub open spec fn new_after_old(
    c: CommandCall,
    key: Seq<char>,
    binding: Seq<char>,
    old: Option<SessionEntry>,
    h: Seq<Answer>,
    k: int,
) -> ActionView {
    if k >= h.len() {
        host::ask_after(
            if is_bound(old) {
                Seq::empty()
            } else {
                seq![Effect::SetBinding { key, binding }]
            },
            Ask::ChannelStatus,
        )
    } else {
        match h[k] {
            Answer::Status(status) => match sessions::agent_of(old) {
                Some(a) => new_with_agent(c, a, h, k + 1),
                None => match host::config_text(
                    host::account_config(status, c.target),
                    "agent_id"@,
                ) {
                    Some(a) => new_with_agent(c, a, h, k + 1),
                    None => match sessions::default_agent(c.has_agents, h, k + 1) {
                        Progress::Wait(a) => a,
                        Progress::Ready(a, n) => new_with_agent(c, a, h, n),
                    },
                },
            },
            _ => host::off_script(),
        }
    }
}

fn run_new_after_old(
    c: &CommandCall,
    key: &str,
    binding: &str,
    old: &Option<SessionEntry>,
    h: &Vec<Answer>,
    k: usize,
) -> (r: Action)
    requires
        k <= h@.len(),
    ensures
        r@ == new_after_old(*c, key@, binding@, *old, h@, k as int),
{
    if k >= h.len() {
        let bound = match old {
            Some(e) => e.channel_binding.is_some(),
            None => false,
        };
        return host::after(
            if bound {
                host::no_effects()
            } else {
                host::one_effect(
                    Effect::SetBinding { key: key.to_string(), binding: binding.to_string() },
                )
            },
            Ask::ChannelStatus,
        );
    }
    match &h[k] {
        Answer::Status(status) => match sessions::session_agent(old) {
            Some(a) => run_new_with_agent(c, a, h, k + 1),
            None => match host::channel_config_string(
                host::channel_account_config(status, &c.target),
                "agent_id",
            ) {
                Some(a) => run_new_with_agent(c, a, h, k + 1),
                None => match sessions::ask_default_agent(c.has_agents, h, k + 1) {
                    Progress::Wait(a) => a,
                    Progress::Ready(a, n) => run_new_with_agent(c, a, h, n),
                },
            },
        },
        _ => host::strayed(),
    }
}

/// `new`: a fresh session for the chat, with the next label, the agent of the old session and a
/// model.
pub open spec fn new_command(c: CommandCall, key: Seq<char>, h: Seq<Answer>, k: int) -> ActionView {
    match c.binding {
        Err(e) => external_error("serialize channel binding"@, e@),
        Ok(binding) => if k >= h.len() {
            host::ask(Ask::ListSessions { chat: c.target@ })
        } else {
            match h[k] {
                Answer::Sessions(existing) => if k + 1 >= h.len() {
                    host::ask(
                        Ask::CreateSession {
                            key: c.fresh_key@,
                            label: session_label(c.display_name@, existing@.len()),
                        },
                    )
                } else {
                    match h[k + 1] {
                        Answer::Outcome(Err(e)) => external_error("create channel session"@, e@),
                        Answer::Outcome(Ok(_)) => if k + 2 >= h.len() {
                            host::ask_after(
                                seq![
                                    Effect::SetBinding { key: c.fresh_key@, binding: binding@ },
                                ],
                                Ask::Session { key },
                            )
                        } else {
                            match h[k + 2] {
                                Answer::Session(old) => new_after_old(
                                    c,
                                    key,
                                    binding@,
                                    old,
                                    h,
                                    k + 3,
                                ),
                                _ => host::off_script(),
                            }
                        },
                        _ => host::off_script(),
                    }
                },
                _ => host::off_script(),
            }
        },
    }
}

fn run_new(c: &CommandCall, key: &str, h: &Vec<Answer>, k: usize) -> (r: Action)
    requires
        k <= h@.len(),
    ensures
        r@ == new_command(*c, key@, h@, k as int),
{
    let binding = match &c.binding {
        Err(e) => {
            return failed_externally("serialize channel binding", e.as_str());
        },
        Ok(b) => b,
    };
    if k >= h.len() {
        return host::just(Ask::ListSessions { chat: c.target.copy() });
    }
    let count: usize = match &h[k] {
        Answer::Sessions(existing) => existing.len(),
        _ => {
            return host::strayed();
        },
    };
    if k + 1 >= h.len() {
        return host::just(
            Ask::CreateSession {
                key: c.fresh_key.clone(),
                label: write_session_label(c.display_name.as_str(), count),
            },
        );
    }
    match &h[k + 1] {
        Answer::Outcome(Err(e)) => failed_externally("create channel session", e.as_str()),
        Answer::Outcome(Ok(_)) => {
            if k + 2 >= h.len() {
                return host::after(
                    host::one_effect(
                        Effect::SetBinding { key: c.fresh_key.clone(), binding: binding.clone() },
                    ),
                    Ask::Session { key: key.to_string() },
                );
            }
            match &h[k + 2] {
                Answer::Session(old) => run_new_after_old(c, key, binding.as_str(), old, h, k + 3),
                _ => host::strayed(),
            }
        },
        _ => host::strayed(),
    }
}

// ---- clear, compact, context ----

/// `clear` and `compact`: one piece of work and a fixed reply.
pub open spec fn plain_command(
    work: Ask<Seq<char>, Seq<Seq<char>>>,
    t: Seq<char>,
    h: Seq<Answer>,
    k: int,
) -> ActionView {
    if k >= h.len() {
        host::ask(work)
    } else {
        match h[k] {
            Answer::Outcome(Ok(_)) => host::done(Seq::empty(), t),
            Answer::Outcome(Err(e)) => no_service(e@),
            _ => host::off_script(),
        }
    }
}

fn run_plain(work: Ask<String, Vec<String>>, t: &str, h: &Vec<Answer>, k: usize) -> (r: Action)
    requires
        k <= h@.len(),
    ensures
        r@ == plain_command(work@, t@, h@, k as int),
{
    if k >= h.len() {
        return host::just(work);
    }
    match &h[k] {
        Answer::Outcome(Ok(_)) => reply(t),
        Answer::Outcome(Err(e)) => failed_service(e.as_str()),
        _ => host::strayed(),
    }
}

/// `context`: the description of the session.
pub open spec fn context_command(key: Seq<char>, h: Seq<Answer>, k: int) -> ActionView {
    if k >= h.len() {
        host::ask(Ask::Context { key })
    } else {
        match h[k] {
            Answer::Document(Ok(j)) => host::done(Seq::empty(), reports::context_text(key, j@)),
            Answer::Document(Err(e)) => no_service(e@),
            _ => host::off_script(),
        }
    }
}

fn run_context(key: &str, h: &Vec<Answer>, k: usize) -> (r: Action)
    requires
        k <= h@.len(),
    ensures
        r@ == context_command(key@, h@, k as int),
{
    if k >= h.len() {
        return host::just(Ask::Context { key: key.to_string() });
    }
    match &h[k] {
        Answer::Document(Ok(j)) => {
            host::finished(host::no_effects(), reports::context_report(key, j))
        },
        Answer::Document(Err(e)) => failed_service(e.as_str()),
        _ => host::strayed(),
    }
}

// ---- sessions ----

/// The error for a number that no session has.
pub open spec fn bad_session_number(count: nat) -> ActionView {
    bad_input("invalid session number. Use 1–"@ + text::decimal(count) + "."@)
}

fn failed_session_number(count: usize) -> (r: Action)
    ensures
        r@ == bad_session_number(count as nat),
{
    let mut m = "invalid session number. Use 1–".to_string();
    m.append(text::decimal_text(count as u64).as_str());
    m.append(".");
    failed_input(m.as_str())
}

/// Archiving a session or taking it back, and what the user is told.
pub open spec fn archive_step(
    s: SessionEntry,
    archived: bool,
    context: Seq<char>,
    told: Seq<char>,
    h: Seq<Answer>,
    k: int,
) -> ActionView {
    if k >= h.len() {
        host::ask(Ask::Archive { key: s.key@, archived })
    } else {
        match h[k] {
            Answer::Outcome(Ok(_)) => host::done(Seq::empty(), told + s.title()),
            Answer::Outcome(Err(e)) => external_error(context, e@),
            _ => host::off_script(),
        }
    }
}

fn run_archive_step(
    s: &SessionEntry,
    archived: bool,
    context: &str,
    told: &str,
    h: &Vec<Answer>,
    k: usize,
) -> (r: Action)
    requires
        k <= h@.len(),
    ensures
        r@ == archive_step(*s, archived, context@, told@, h@, k as int),
{
    if k >= h.len() {
        return host::just(Ask::Archive { key: s.key.clone(), archived });
    }
    match &h[k] {
        Answer::Outcome(Ok(_)) => {
            host::finished(host::no_effects(), two_parts(told, s.label_or_key()))
        },
        Answer::Outcome(Err(e)) => failed_externally(context, e.as_str()),
        _ => host::strayed(),
    }
}

/// What the arguments ask of the sessions that the chat has.
pub open spec fn sessions_choice(
    target: ChannelReplyTarget,
    args: Seq<char>,
    key: Seq<char>,
    all: Seq<SessionEntry>,
    auto_archived: u64,
    h: Seq<Answer>,
    k: int,
) -> ActionView {
    match commands::sessions_args_of(args) {
        Err(e) => host::fail(e),
        Ok(SessionsCommand::List) => host::done(
            Seq::empty(),
            reports::sessions_text(all, key, auto_archived as nat),
        ),
        Ok(SessionsCommand::Archive(n)) => if n > all.len() {
            bad_session_number(all.len())
        } else if all[n - 1].key@ == key {
            bad_input("cannot archive the currently active session"@)
        } else if all[n - 1].archived {
            host::done(Seq::empty(), "Session is already archived."@)
        } else {
            archive_step(all[n - 1], true, "archive session"@, "Archived: "@, h, k)
        },
        Ok(SessionsCommand::Unarchive(n)) => if n > all.len() {
            bad_session_number(all.len())
        } else if !all[n - 1].archived {
            host::done(Seq::empty(), "Session is already active."@)
        } else {
            archive_step(all[n - 1], false, "unarchive session"@, "Unarchived: "@, h, k)
        },
        Ok(SessionsCommand::Switch(n)) => if n > all.len() {
            bad_session_number(all.len())
        } else if all[n - 1].archived {
            bad_input("selected session is archived. Use /sessions unarchive N first."@)
        } else {
            host::done(
                seq![
                    Effect::SetActive { chat: target@, key: all[n - 1].key@ },
                    Effect::Announce {
                        change: Change::Switched,
                        key: all[n - 1].key@,
                        version: None,
                    },
                ],
                "Switched to: "@ + all[n - 1].title(),
            )
        },
    }
}

/// The numbers of sessions start at one.
pub proof fn lemma_session_numbers(args: Seq<char>)
    ensures
        commands::sessions_args_of(args) matches Ok(SessionsCommand::Switch(n)) ==> n >= 1,
        commands::sessions_args_of(args) matches Ok(SessionsCommand::Archive(n)) ==> n >= 1,
        commands::sessions_args_of(args) matches Ok(SessionsCommand::Unarchive(n)) ==> n >= 1,
{
}

fn run_sessions_choice(
    target: &ChannelReplyTarget,
    args: &str,
    key: &str,
    all: &Vec<SessionEntry>,
    auto_archived: u64,
    h: &Vec<Answer>,
    k: usize,
) -> (r: Action)
    requires
        k <= h@.len(),
    ensures
        r@ == sessions_choice(*target, args@, key@, all@, auto_archived, h@, k as int),
{
    proof {
        lemma_session_numbers(args@);
    }
    match commands::parse_sessions_command_args(args) {
        Err(e) => host::failed(e),
        Ok(SessionsCommand::List) => {
            host::finished(host::no_effects(), reports::sessions_report(all, key, auto_archived))
        },
        Ok(SessionsCommand::Archive(n)) => {
            if n > all.len() {
                return failed_session_number(all.len());
            }
            let s = &all[n - 1];
            if text::str_eq(s.key.as_str(), key) {
                failed_input("cannot archive the currently active session")
            } else if s.archived {
                reply("Session is already archived.")
            } else {
                run_archive_step(s, true, "archive session", "Archived: ", h, k)
            }
        },
        Ok(SessionsCommand::Unarchive(n)) => {
            if n > all.len() {
                return failed_session_number(all.len());
            }
            let s = &all[n - 1];
            if !s.archived {
                reply("Session is already active.")
            } else {
                run_archive_step(s, false, "unarchive session", "Unarchived: ", h, k)
            }
        },
        Ok(SessionsCommand::Switch(n)) => {
            if n > all.len() {
                return failed_session_number(all.len());
            }
            let s = &all[n - 1];
            if s.archived {
                failed_input("selected session is archived. Use /sessions unarchive N first.")
            } else {
                host::finished(
                    host::two_effects(
                        Effect::SetActive { chat: target.copy(), key: s.key.clone() },
                        Effect::Announce {
                            change: Change::Switched,
                            key: s.key.clone(),
                            version: None,
                        },
                    ),
                    two_parts("Switched to: ", s.label_or_key()),
                )
            }
        },
    }
}

/// `sessions`: archive what went stale, then list, switch, archive or take back.
pub open spec fn sessions_command(c: CommandCall, key: Seq<char>, h: Seq<Answer>, k: int) -> ActionView {
    match sessions::auto_archive(c.target, key, h, k) {
        Progress::Wait(a) => a,
        Progress::Ready(n, k1) => if k1 >= h.len() {
            host::ask(Ask::ListSessions { chat: c.target@ })
        } else {
            match h[k1] {
                Answer::Sessions(all) => if all@.len() == 0 {
                    host::done(Seq::empty(), "No sessions found. Send a message to start one."@)
                } else {
                    sessions_choice(c.target, c.args@, key, all@, n, h, k1 + 1)
                },
                _ => host::off_script(),
            }
        },
    }
}

fn run_sessions(c: &CommandCall, key: &str, h: &Vec<Answer>, k: usize) -> (r: Action)
    requires
        k <= h@.len(),
    ensures
        r@ == sessions_command(*c, key@, h@, k as int),
{
    match sessions::auto_archive_stale_channel_sessions(&c.target, key, h, k) {
        Progress::Wait(a) => a,
        Progress::Ready(n, k1) => {
            if k1 >= h.len() {
                return host::just(Ask::ListSessions { chat: c.target.copy() });
            }
            match &h[k1] {
                Answer::Sessions(all) => {
                    if all.len() == 0 {
                        reply("No sessions found. Send a message to start one.")
                    } else {
                        run_sessions_choice(&c.target, c.args.as_str(), key, all, n, h, k1 + 1)
                    }
                },
                _ => host::strayed(),
            }
        },
    }
}

// ---- agents ----

/// What a look at the agents gives: the default agent, all agents and the next answer.
pub enum Agents<'a> {
    Wait(Action),
    Ready(String, &'a Vec<AgentPersona>, usize),
}

/// What a look at the agents gives.
pub enum AgentsView {
    Wait(ActionView),
    Ready(Seq<char>, Seq<AgentPersona>, int),
}

/// What a look at the agents gives.
pub open spec fn agents_progress(a: Agents) -> AgentsView {
    match a {
        Agents::Wait(a) => AgentsView::Wait(a@),
        Agents::Ready(d, all, k) => AgentsView::Ready(d@, all@, k as int),
    }
}

/// The default agent and all agents.
pub open spec fn agents_listed(c: CommandCall, h: Seq<Answer>, k: int) -> AgentsView {
    if !c.has_agents {
        AgentsView::Wait(no_service("agent personas are not available"@))
    } else {
        match sessions::default_agent(true, h, k) {
            Progress::Wait(a) => AgentsView::Wait(a),
            Progress::Ready(default_id, k1) => if k1 >= h.len() {
                AgentsView::Wait(host::ask(Ask::ListAgents))
            } else {
                match h[k1] {
                    Answer::Agents(Ok(agents)) => AgentsView::Ready(default_id, agents@, k1 + 1),
                    Answer::Agents(Err(e)) => AgentsView::Wait(
                        external_error("listing agents"@, e@),
                    ),
                    _ => AgentsView::Wait(host::off_script()),
                }
            },
        }
    }
}

/// Whether a look at the agents is allowed: on Feishu only where the account says so.
pub open spec fn agents_allowed(c: CommandCall, h: Seq<Answer>, k: int) -> AgentsView {
    if c.target.channel_type is Feishu {
        if k >= h.len() {
            AgentsView::Wait(host::ask(Ask::ChannelStatus))
        } else {
            match h[k] {
                Answer::Status(status) => if host::config_truth(
                    host::account_config(status, c.target),
                    "allow_agent_switch"@,
                ) == Some(true) {
                    agents_listed(c, h, k + 1)
                } else {
                    AgentsView::Wait(bad_input("agent switching is disabled for this bot"@))
                },
                _ => AgentsView::Wait(host::off_script()),
            }
        }
    } else {
        agents_listed(c, h, k)
    }
}

fn list_agents<'a>(c: &CommandCall, h: &'a Vec<Answer>, k: usize) -> (r: Agents<'a>)
    requires
        k <= h@.len(),
    ensures
        agents_progress(r) == agents_listed(*c, h@, k as int),
        r matches Agents::Ready(_, _, n) ==> n <= h@.len(),
{
    if !c.has_agents {
        return Agents::Wait(failed_service("agent personas are not available"));
    }
    match sessions::ask_default_agent(true, h, k) {
        Progress::Wait(a) => Agents::Wait(a),
        Progress::Ready(default_id, k1) => {
            if k1 >= h.len() {
                return Agents::Wait(host::just(Ask::ListAgents));
            }
            match &h[k1] {
                Answer::Agents(Ok(agents)) => Agents::Ready(default_id, agents, k1 + 1),
                Answer::Agents(Err(e)) => Agents::Wait(
                    failed_externally("listing agents", e.as_str()),
                ),
                _ => Agents::Wait(host::strayed()),
            }
        },
    }
}

fn allow_agents<'a>(c: &CommandCall, h: &'a Vec<Answer>, k: usize) -> (r: Agents<'a>)
    requires
        k <= h@.len(),
    ensures
        agents_progress(r) == agents_allowed(*c, h@, k as int),
        r matches Agents::Ready(_, _, n) ==> n <= h@.len(),
{
    match &c.target.channel_type {
        ChannelType::Feishu => {
            if k >= h.len() {
                return Agents::Wait(host::just(Ask::ChannelStatus));
            }
            match &h[k] {
                Answer::Status(status) => {
                    let allowed = match host::channel_config_bool(
                        host::channel_account_config(status, &c.target),
                        "allow_agent_switch",
                    ) {
                        Some(b) => b,
                        None => false,
                    };
                    if allowed {
                        list_agents(c, h, k + 1)
                    } else {
                        Agents::Wait(failed_input("agent switching is disabled for this bot"))
                    }
                },
                _ => Agents::Wait(host::strayed()),
            }
        },
        _ => list_agents(c, h, k),
    }
}

/// The announcement that a session changed.
pub open spec fn patched(key: Seq<char>, version: Option<u64>) -> Seq<Effect<Seq<char>>> {
    seq![Effect::Announce { change: Change::Patched, key, version }]
}

fn announce_patched(key: &str, version: Option<u64>) -> (r: Vec<Effect<String>>)
    ensures
        host::effects_view(r@) == patched(key@, version),
{
    host::one_effect(Effect::Announce { change: Change::Patched, key: key.to_string(), version })
}

/// The agent that a list marks: that of the session as it is stored, else the default.
pub open spec fn marked_agent(entry: Option<SessionEntry>, default_id: Seq<char>) -> Seq<char> {
    match entry {
        Some(e) => match e.agent_id {
            Some(a) => if text::trim_of(a@).len() == 0 {
                default_id
            } else {
                a@
            },
            None => default_id,
        },
        None => default_id,
    }
}

/// `agent`: list the agents, or give the session to one of them.
pub open spec fn agent_command(c: CommandCall, key: Seq<char>, h: Seq<Answer>, k: int) -> ActionView {
    match agents_allowed(c, h, k) {
        AgentsView::Wait(a) => a,
        AgentsView::Ready(default_id, agents, k1) => if k1 >= h.len() {
            host::ask(Ask::Session { key })
        } else {
            match h[k1] {
                Answer::Session(entry) => if c.args@.len() == 0 {
                    host::done(
                        Seq::empty(),
                        reports::agents_text(
                            agents,
                            default_id,
                            marked_agent(entry, default_id),
                            true,
                            "\nUse /agent <id> to switch."@,
                        ),
                    )
                } else {
                    match commands::agent_choice(agents, c.args@) {
                        Err(e) => host::fail(e),
                        Ok(i) => if k1 + 1 >= h.len() {
                            host::ask(Ask::AssignAgent { key, agent: agents[i].id@ })
                        } else {
                            match h[k1 + 1] {
                                Answer::Outcome(Ok(_)) => host::done(
                                    patched(key, None),
                                    "Agent switched to: "@ + reports::agent_label(agents[i], true),
                                ),
                                Answer::Outcome(Err(e)) => external_error(
                                    "setting session agent"@,
                                    e@,
                                ),
                                _ => host::off_script(),
                            }
                        },
                    }
                },
                _ => host::off_script(),
            }
        },
    }
}

fn run_agent(c: &CommandCall, key: &str, h: &Vec<Answer>, k: usize) -> (r: Action)
    requires
        k <= h@.len(),
    ensures
        r@ == agent_command(*c, key@, h@, k as int),
{
    let (default_id, agents, k1) = match allow_agents(c, h, k) {
        Agents::Wait(a) => {
            return a;
        },
        Agents::Ready(d, all, n) => (d, all, n),
    };
    if k1 >= h.len() {
        return host::just(Ask::Session { key: key.to_string() });
    }
    match &h[k1] {
        Answer::Session(entry) => {
            if c.args.as_str().unicode_len() == 0 {
                let mut current = default_id.as_str();
                if let Some(e) = entry {
                    if let Some(a) = &e.agent_id {
                        if text::trim(a.as_str()).unicode_len() > 0 {
                            current = a.as_str();
                        }
                    }
                }
                assert(current@ == marked_agent(*entry, default_id@));
                return host::finished(
                    host::no_effects(),
                    reports::agents_report(
                        agents,
                        default_id.as_str(),
                        current,
                        true,
                        "\nUse /agent <id> to switch.",
                    ),
                );
            }
            match commands::choose_agent(agents.as_slice(), c.args.as_str()) {
                Err(e) => host::failed(e),
                Ok(i) => {
                    if k1 + 1 >= h.len() {
                        return host::just(
                            Ask::AssignAgent { key: key.to_string(), agent: agents[i].id.clone() },
                        );
                    }
                    match &h[k1 + 1] {
                        Answer::Outcome(Ok(_)) => host::finished(
                            announce_patched(key, None),
                            two_parts(
                                "Agent switched to: ",
                                reports::write_agent_label(&agents[i], true).as_str(),
                            ),
                        ),
                        Answer::Outcome(Err(e)) => failed_externally(
                            "setting session agent",
                            e.as_str(),
                        ),
                        _ => host::strayed(),
                    }
                },
            }
        },
        _ => host::strayed(),
    }
}

// ---- hand-off ----

/// The reply to a hand-off.
pub open spec fn handoff_reply(d: Handing<Seq<char>>, to_key: Seq<char>) -> Seq<char> {
    "Handoff to "@ + d.to_name + " ["@ + d.to_id + "] via "@ + d.mode.name() + ". Session: "@
        + to_key + (if d.note.len() == 0 {
        ""@
    } else {
        "\nNote: "@ + d.note
    })
}

fn write_handoff_reply(d: &Handing<String>, to_key: &str) -> (r: String)
    ensures
        r@ == handoff_reply(d@, to_key@),
{
    let mut out = "Handoff to ".to_string();
    out.append(d.to_name.as_str());
    out.append(" [");
    out.append(d.to_id.as_str());
    out.append("] via ");
    out.append(d.mode.as_str());
    out.append(". Session: ");
    out.append(to_key);
    let mut suffix = "".to_string();
    if d.note.as_str().unicode_len() > 0 {
        suffix = two_parts("\nNote: ", d.note.as_str());
    }
    out.append(suffix.as_str());
    out
}

/// A hand-off that is under way: who hands what to whom.
pub struct Handing<S> {
    /// The session that the chat is in.
    pub key: S,
    /// The agent that hands over.
    pub from: S,
    /// The agent that takes over.
    pub to_id: S,
    pub to_name: S,
    pub mode: HandoffMode,
    pub note: S,
}

impl View for Handing<String> {
    type V = Handing<Seq<char>>;

    open spec fn view(&self) -> Handing<Seq<char>> {
        Handing {
            key: self.key@,
            from: self.from@,
            to_id: self.to_id@,
            to_name: self.to_name@,
            mode: self.mode,
            note: self.note@,
        }
    }
}

/// What the next agent is told.
pub open spec fn packet_of(d: Handing<Seq<char>>, to_key: Seq<char>, now: u64) -> HandoffPacket<Seq<char>> {
    HandoffPacket {
        version: 1,
        mode: d.mode,
        from_agent_id: d.from,
        to_agent_id: d.to_id,
        source_session_key: d.key,
        target_session_key: to_key,
        note: d.note,
        created_at_ms: now,
    }
}

/// The end of a hand-off: the effects, then what the next agent is told is stored, where there is
/// a store for it.
pub open spec fn handoff_end(
    c: CommandCall,
    d: Handing<Seq<char>>,
    to_key: Seq<char>,
    effects: Seq<Effect<Seq<char>>>,
    h: Seq<Answer>,
    k: int,
) -> ActionView {
    let t = handoff_reply(d, to_key);
    if !c.has_state_store {
        host::done(effects, t)
    } else if k >= h.len() {
        host::ask_after(effects, Ask::Now)
    } else {
        match h[k] {
            Answer::Time(now) => host::done(
                seq![Effect::StorePacket { key: to_key, packet: packet_of(d, to_key, now) }],
                t,
            ),
            _ => host::off_script(),
        }
    }
}

fn run_handoff_end(
    c: &CommandCall,
    d: &Handing<String>,
    to_key: &str,
    effects: Vec<Effect<String>>,
    h: &Vec<Answer>,
    k: usize,
) -> (r: Action)
    requires
        k <= h@.len(),
    ensures
        r@ == handoff_end(*c, d@, to_key@, host::effects_view(effects@), h@, k as int),
{
    let t = write_handoff_reply(d, to_key);
    if !c.has_state_store {
        return host::finished(effects, t);
    }
    if k >= h.len() {
        return host::after(effects, Ask::Now);
    }
    match &h[k] {
        Answer::Time(now) => {
            let packet = HandoffPacket {
                version: 1,
                mode: d.mode,
                from_agent_id: d.from.clone(),
                to_agent_id: d.to_id.clone(),
                source_session_key: d.key.clone(),
                target_session_key: to_key.to_string(),
                note: d.note.clone(),
                created_at_ms: *now,
            };
            host::finished(
                host::one_effect(Effect::StorePacket { key: to_key.to_string(), packet }),
                t,
            )
        },
        _ => host::strayed(),
    }
}

/// The new session takes over the agent and becomes the active one.
pub open spec fn handoff_activate(
    c: CommandCall,
    d: Handing<Seq<char>>,
    to_key: Seq<char>,
    effects: Seq<Effect<Seq<char>>>,
    h: Seq<Answer>,
    k: int,
) -> ActionView {
    if k >= h.len() {
        host::ask_after(effects, Ask::AssignAgent { key: to_key, agent: d.to_id })
    } else {
        match h[k] {
            Answer::Outcome(Err(e)) => external_error("setting handoff agent"@, e@),
            Answer::Outcome(Ok(_)) => handoff_end(
                c,
                d,
                to_key,
                seq![
                    Effect::SetActive { chat: c.target@, key: to_key },
                    Effect::Announce { change: Change::Created, key: to_key, version: None },
                ],
                h,
                k + 1,
            ),
            _ => host::off_script(),
        }
    }
}

fn run_handoff_activate(
    c: &CommandCall,
    d: &Handing<String>,
    to_key: &str,
    effects: Vec<Effect<String>>,
    h: &Vec<Answer>,
    k: usize,
) -> (r: Action)
    requires
        k <= h@.len(),
    ensures
        r@ == handoff_activate(*c, d@, to_key@, host::effects_view(effects@), h@, k as int),
{
    if k >= h.len() {
        return host::after(
            effects,
            Ask::AssignAgent { key: to_key.to_string(), agent: d.to_id.clone() },
        );
    }
    match &h[k] {
        Answer::Outcome(Err(e)) => failed_externally("setting handoff agent", e.as_str()),
        Answer::Outcome(Ok(_)) => run_handoff_end(
            c,
            d,
            to_key,
            host::two_effects(
                Effect::SetActive { chat: c.target.copy(), key: to_key.to_string() },
                Effect::Announce {
                    change: Change::Created,
                    key: to_key.to_string(),
                    version: None,
                },
            ),
            h,
            k + 1,
        ),
        _ => host::strayed(),
    }
}

/// What a new session takes over from the old one: model, project and tool setting, where set.
pub open spec fn inherited_settings(key: Seq<char>, source: Option<SessionEntry>) -> Seq<
    Effect<Seq<char>>,
> {
    match source {
        None => Seq::empty(),
        Some(e) => (match e.model {
            Some(m) => seq![Effect::SetModel { key, model: m@ }],
            None => Seq::empty(),
        }) + (match e.project_id {
            Some(p) => seq![Effect::SetProject { key, project: p@ }],
            None => Seq::empty(),
        }) + (match e.mcp_disabled {
            Some(b) => seq![Effect::SetMcpDisabled { key, disabled: b }],
            None => Seq::empty(),
        }),
    }
}

fn inherit_settings(key: &str, source: &Option<SessionEntry>) -> (r: Vec<Effect<String>>)
    ensures
        host::effects_view(r@) == inherited_settings(key@, *source),
{
    let mut effects = host::no_effects();
    if let Some(e) = source {
        if let Some(m) = &e.model {
            host::push_effect(
                &mut effects,
                Effect::SetModel { key: key.to_string(), model: m.clone() },
            );
        }
        if let Some(p) = &e.project_id {
            host::push_effect(
                &mut effects,
                Effect::SetProject { key: key.to_string(), project: p.clone() },
            );
        }
        if let Some(b) = e.mcp_disabled {
            host::push_effect(
                &mut effects,
                Effect::SetMcpDisabled { key: key.to_string(), disabled: b },
            );
        }
    }
    assert(host::effects_view(effects@) =~= inherited_settings(key@, *source));
    effects
}

/// A hand-off in the same session: the session gets the new agent.
pub open spec fn handoff_same(c: CommandCall, d: Handing<Seq<char>>, h: Seq<Answer>, k: int) -> ActionView {
    if k >= h.len() {
        host::ask(Ask::AssignAgent { key: d.key, agent: d.to_id })
    } else {
        match h[k] {
            Answer::Outcome(Err(e)) => external_error("setting session agent"@, e@),
            Answer::Outcome(Ok(_)) => handoff_end(c, d, d.key, patched(d.key, None), h, k + 1),
            _ => host::off_script(),
        }
    }
}

fn run_handoff_same(c: &CommandCall, d: &Handing<String>, h: &Vec<Answer>, k: usize) -> (r: Action)
    requires
        k <= h@.len(),
    ensures
        r@ == handoff_same(*c, d@, h@, k as int),
{
    if k >= h.len() {
        return host::just(
            Ask::AssignAgent { key: d.key.clone(), agent: d.to_id.clone() },
        );
    }
    match &h[k] {
        Answer::Outcome(Err(e)) => failed_externally("setting session agent", e.as_str()),
        Answer::Outcome(Ok(_)) => run_handoff_end(
            c,
            d,
            d.key.as_str(),
            announce_patched(d.key.as_str(), None),
            h,
            k + 1,
        ),
        _ => host::strayed(),
    }
}

/// A hand-off to a new session: it is created, bound and given the settings of the old one.
pub open spec fn handoff_new(c: CommandCall, d: Handing<Seq<char>>, h: Seq<Answer>, k: int) -> ActionView {
    match c.binding {
        Err(e) => external_error("serialize channel binding"@, e@),
        Ok(binding) => if k >= h.len() {
            host::ask(Ask::ListSessions { chat: c.target@ })
        } else {
            match h[k] {
                Answer::Sessions(existing) => if k + 1 >= h.len() {
                    host::ask(
                        Ask::CreateSession {
                            key: c.fresh_key@,
                            label: session_label(c.display_name@, existing@.len()),
                        },
                    )
                } else {
                    match h[k + 1] {
                        Answer::Outcome(Err(e)) => external_error("create handoff session"@, e@),
                        Answer::Outcome(Ok(_)) => if k + 2 >= h.len() {
                            host::ask_after(
                                seq![
                                    Effect::SetBinding { key: c.fresh_key@, binding: binding@ },
                                ],
                                Ask::Session { key: d.key },
                            )
                        } else {
                            match h[k + 2] {
                                Answer::Session(source) => handoff_activate(
                                    c,
                                    d,
                                    c.fresh_key@,
                                    inherited_settings(c.fresh_key@, source),
                                    h,
                                    k + 3,
                                ),
                                _ => host::off_script(),
                            }
                        },
                        _ => host::off_script(),
                    }
                },
                _ => host::off_script(),
            }
        },
    }
}

fn run_handoff_new(c: &CommandCall, d: &Handing<String>, h: &Vec<Answer>, k: usize) -> (r: Action)
    requires
        k <= h@.len(),
    ensures
        r@ == handoff_new(*c, d@, h@, k as int),
{
    let binding = match &c.binding {
        Err(e) => {
            return failed_externally("serialize channel binding", e.as_str());
        },
        Ok(b) => b,
    };
    if k >= h.len() {
        return host::just(Ask::ListSessions { chat: c.target.copy() });
    }
    let count: usize = match &h[k] {
        Answer::Sessions(existing) => existing.len(),
        _ => {
            return host::strayed();
        },
    };
    if k + 1 >= h.len() {
        return host::just(
            Ask::CreateSession {
                key: c.fresh_key.clone(),
                label: write_session_label(c.display_name.as_str(), count),
            },
        );
    }
    match &h[k + 1] {
        Answer::Outcome(Err(e)) => failed_externally("create handoff session", e.as_str()),
        Answer::Outcome(Ok(_)) => {
            if k + 2 >= h.len() {
                return host::after(
                    host::one_effect(
                        Effect::SetBinding { key: c.fresh_key.clone(), binding: binding.clone() },
                    ),
                    Ask::Session { key: d.key.clone() },
                );
            }
            match &h[k + 2] {
                Answer::Session(source) => run_handoff_activate(
                    c,
                    d,
                    c.fresh_key.as_str(),
                    inherit_settings(c.fresh_key.as_str(), source),
                    h,
                    k + 3,
                ),
                _ => host::strayed(),
            }
        },
        _ => host::strayed(),
    }
}

/// A hand-off to a copy of the session.
pub open spec fn handoff_fork(c: CommandCall, d: Handing<Seq<char>>, h: Seq<Answer>, k: int) -> ActionView {
    if k >= h.len() {
        host::ask(Ask::Fork { key: d.key })
    } else {
        match h[k] {
            Answer::Document(Err(e)) => no_service(e@),
            Answer::Document(Ok(j)) => match j@.text_at("sessionKey"@) {
                None => no_service("session fork did not return sessionKey"@),
                Some(key) => handoff_activate(
                    c,
                    d,
                    key,
                    match c.binding {
                        Ok(binding) => seq![Effect::SetBinding { key, binding: binding@ }],
                        Err(_) => Seq::empty(),
                    },
                    h,
                    k + 1,
                ),
            },
            _ => host::off_script(),
        }
    }
}

fn run_handoff_fork(c: &CommandCall, d: &Handing<String>, h: &Vec<Answer>, k: usize) -> (r: Action)
    requires
        k <= h@.len(),
    ensures
        r@ == handoff_fork(*c, d@, h@, k as int),
{
    if k >= h.len() {
        return host::just(Ask::Fork { key: d.key.clone() });
    }
    match &h[k] {
        Answer::Document(Err(e)) => failed_service(e.as_str()),
        Answer::Document(Ok(j)) => match j.text_at("sessionKey") {
            None => failed_service("session fork did not return sessionKey"),
            Some(key) => {
                let effects = match &c.binding {
                    Ok(binding) => host::one_effect(
                        Effect::SetBinding { key: key.to_string(), binding: binding.clone() },
                    ),
                    Err(_) => host::no_effects(),
                };
                run_handoff_activate(c, d, key, effects, h, k + 1)
            },
        },
        _ => host::strayed(),
    }
}

/// A hand-off in its mode.
pub open spec fn handoff_by_mode(c: CommandCall, d: Handing<Seq<char>>, h: Seq<Answer>, k: int) -> ActionView {
    match d.mode {
        HandoffMode::SameSession => handoff_same(c, d, h, k),
        HandoffMode::NewSession => handoff_new(c, d, h, k),
        HandoffMode::ForkSession => handoff_fork(c, d, h, k),
    }
}

fn run_handoff_by_mode(c: &CommandCall, d: &Handing<String>, h: &Vec<Answer>, k: usize) -> (r: Action)
    requires
        k <= h@.len(),
    ensures
        r@ == handoff_by_mode(*c, d@, h@, k as int),
{
    match d.mode {
        HandoffMode::SameSession => run_handoff_same(c, d, h, k),
        HandoffMode::NewSession => run_handoff_new(c, d, h, k),
        HandoffMode::ForkSession => run_handoff_fork(c, d, h, k),
    }
}

/// `handoff`: list the agents, or hand the chat to one of them.
pub open spec fn handoff_command(c: CommandCall, key: Seq<char>, h: Seq<Answer>, k: int) -> ActionView {
    match agents_allowed(c, h, k) {
        AgentsView::Wait(a) => a,
        AgentsView::Ready(default_id, agents, k1) => match sessions::current_agent(
            c.has_agents,
            key,
            h,
            k1,
        ) {
            Progress::Wait(a) => a,
            Progress::Ready(current, k2) => if c.args@.len() == 0 {
                host::done(
                    Seq::empty(),
                    reports::agents_text(
                        agents,
                        default_id,
                        current,
                        false,
                        "\nUse /handoff <id> [--mode same_session|new_session|fork_session] [note]"@,
                    ),
                )
            } else {
                match commands::handoff_args_of(c.args@) {
                    Err(e) => host::fail(e),
                    Ok((selector, mode, note)) => match commands::agent_choice(agents, selector) {
                        Err(e) => host::fail(e),
                        Ok(i) => handoff_by_mode(
                            c,
                            Handing {
                                key,
                                from: current,
                                to_id: agents[i].id@,
                                to_name: agents[i].name@,
                                mode,
                                note,
                            },
                            h,
                            k2,
                        ),
                    },
                }
            },
        },
    }
}

fn run_handoff(c: &CommandCall, key: &str, h: &Vec<Answer>, k: usize) -> (r: Action)
    requires
        k <= h@.len(),
    ensures
        r@ == handoff_command(*c, key@, h@, k as int),
{
    let (default_id, agents, k1) = match allow_agents(c, h, k) {
        Agents::Wait(a) => {
            return a;
        },
        Agents::Ready(d, all, n) => (d, all, n),
    };
    match sessions::current_agent_id_for_session(c.has_agents, key, h, k1) {
        Progress::Wait(a) => a,
        Progress::Ready(current, k2) => {
            if c.args.as_str().unicode_len() == 0 {
                return host::finished(
                    host::no_effects(),
                    reports::agents_report(
                        agents,
                        default_id.as_str(),
                        current.as_str(),
                        false,
                        "\nUse /handoff <id> [--mode same_session|new_session|fork_session] [note]",
                    ),
                );
            }
            match commands::parse_handoff_args(c.args.as_str()) {
                Err(e) => host::failed(e),
                Ok((selector, mode, note)) => {
                    match commands::choose_agent(agents.as_slice(), selector.as_str()) {
                        Err(e) => host::failed(e),
                        Ok(i) => {
                            let d = Handing {
                                key: key.to_string(),
                                from: current,
                                to_id: agents[i].id.clone(),
                                to_name: agents[i].name.clone(),
                                mode,
                                note,
                            };
                            run_handoff_by_mode(c, &d, h, k2)
                        },
                    }
                },
            }
        },
    }
}

// ---- models ----

/// The version that a patch answers with.
pub open spec fn version_in(j: Json) -> u64 {
    match j@.unsigned_at("version"@) {
        Some(n) => n,
        None => 0,
    }
}

fn patch_version(j: &Json) -> (r: u64)
    ensures
        r == version_in(*j),
{
    match j.unsigned_at("version") {
        Some(n) => n,
        None => 0,
    }
}

/// A patch of the session, its announcement and the reply.
pub open spec fn patch_step(
    work: Ask<Seq<char>, Seq<Seq<char>>>,
    key: Seq<char>,
    t: Seq<char>,
    h: Seq<Answer>,
    k: int,
) -> ActionView {
    if k >= h.len() {
        host::ask(work)
    } else {
        match h[k] {
            Answer::Document(Ok(j)) => host::done(patched(key, Some(version_in(j))), t),
            Answer::Document(Err(e)) => no_service(e@),
            _ => host::off_script(),
        }
    }
}

fn run_patch_step(
    work: Ask<String, Vec<String>>,
    key: &str,
    t: String,
    h: &Vec<Answer>,
    k: usize,
) -> (r: Action)
    requires
        k <= h@.len(),
    ensures
        r@ == patch_step(work@, key@, t@, h@, k as int),
{
    if k >= h.len() {
        return host::just(work);
    }
    match &h[k] {
        Answer::Document(Ok(j)) => host::finished(
            announce_patched(key, Some(patch_version(j))),
            t,
        ),
        Answer::Document(Err(e)) => failed_service(e.as_str()),
        _ => host::strayed(),
    }
}

/// What the arguments ask of the models: a list, the models of a provider, or a switch.
pub open spec fn model_choice(
    args: Seq<char>,
    key: Seq<char>,
    models: Seq<json::JsonView>,
    current: Option<Seq<char>>,
    h: Seq<Answer>,
    k: int,
) -> ActionView {
    if args.len() == 0 {
        host::done(Seq::empty(), reports::model_overview(models, current))
    } else if text::begins(args, "provider:"@) {
        host::done(
            Seq::empty(),
            reports::models_text(models, current, Some(args.skip("provider:"@.len() as int))),
        )
    } else {
        match text::number_up_to(args, usize::MAX as nat) {
            None => bad_input("usage: /model [number]"@),
            Some(n) => if n == 0 || n > models.len() {
                bad_input("invalid model number. Use 1–"@ + text::decimal(models.len()) + "."@)
            } else {
                match models[n - 1].text_at("id"@) {
                    None => bad_input("model has no id"@),
                    Some(id) => patch_step(
                        Ask::PatchModel { key, model: id },
                        key,
                        "Model switched to: "@ + reports::text_or(
                            models[n - 1],
                            "displayName"@,
                            id,
                        ),
                        h,
                        k,
                    ),
                }
            },
        }
    }
}

fn run_model_choice(
    args: &str,
    key: &str,
    models: &Vec<Json>,
    current: Option<&str>,
    h: &Vec<Answer>,
    k: usize,
) -> (r: Action)
    requires
        k <= h@.len(),
    ensures
        r@ == model_choice(
            args@,
            key@,
            json::views(models@),
            json::text_view(current),
            h@,
            k as int,
        ),
{
    if args.unicode_len() == 0 {
        return host::finished(host::no_effects(), reports::model_report(models, current));
    }
    if let Some(provider) = text::strip_prefix(args, "provider:") {
        return host::finished(
            host::no_effects(),
            reports::format_model_list(models, current, Some(provider)),
        );
    }
    match text::parse_usize(args) {
        None => failed_input("usage: /model [number]"),
        Some(n) => {
            if n == 0 || n > models.len() {
                let mut m = "invalid model number. Use 1–".to_string();
                m.append(text::decimal_text(models.len() as u64).as_str());
                m.append(".");
                return failed_input(m.as_str());
            }
            let chosen = &models[n - 1];
            assert(json::views(models@)[n - 1] == chosen@);
            match chosen.text_at("id") {
                None => failed_input("model has no id"),
                Some(id) => {
                    let t = two_parts(
                        "Model switched to: ",
                        reports::get_text_or(chosen, "displayName", id),
                    );
                    run_patch_step(
                        Ask::PatchModel { key: key.to_string(), model: id.to_string() },
                        key,
                        t,
                        h,
                        k,
                    )
                },
            }
        },
    }
}

/// The model of a stored session.
pub open spec fn model_of(entry: Option<SessionEntry>) -> Option<Seq<char>> {
    match entry {
        Some(e) => channel::opt_view(e.model),
        None => None,
    }
}

/// The model of a stored session.
pub fn session_model(entry: &Option<SessionEntry>) -> (r: Option<&str>)
    ensures
        json::text_view(r) == model_of(*entry),
{
    match entry {
        Some(e) => channel::opt_str(&e.model),
        None => None,
    }
}

/// `model`: list the models, or switch to one of them.
pub open spec fn model_command(c: CommandCall, key: Seq<char>, h: Seq<Answer>, k: int) -> ActionView {
    if k >= h.len() {
        host::ask(Ask::ListModels)
    } else {
        match h[k] {
            Answer::Document(Err(e)) => no_service(e@),
            Answer::Document(Ok(j)) => match j@.items() {
                None => bad_input("bad model list"@),
                Some(models) => if k + 1 >= h.len() {
                    host::ask(Ask::Session { key })
                } else {
                    match h[k + 1] {
                        Answer::Session(entry) => model_choice(
                            c.args@,
                            key,
                            models,
                            model_of(entry),
                            h,
                            k + 2,
                        ),
                        _ => host::off_script(),
                    }
                },
            },
            _ => host::off_script(),
        }
    }
}

fn run_model(c: &CommandCall, key: &str, h: &Vec<Answer>, k: usize) -> (r: Action)
    requires
        k <= h@.len(),
    ensures
        r@ == model_command(*c, key@, h@, k as int),
{
    if k >= h.len() {
        return host::just(Ask::ListModels);
    }
    match &h[k] {
        Answer::Document(Err(e)) => failed_service(e.as_str()),
        Answer::Document(Ok(j)) => match j.as_array() {
            None => failed_input("bad model list"),
            Some(models) => {
                if k + 1 >= h.len() {
                    return host::just(Ask::Session { key: key.to_string() });
                }
                match &h[k + 1] {
                    Answer::Session(entry) => run_model_choice(
                        c.args.as_str(),
                        key,
                        models,
                        session_model(entry),
                        h,
                        k + 2,
                    ),
                    _ => host::strayed(),
                }
            },
        },
        _ => host::strayed(),
    }
}

// ---- sandbox ----

/// The list of images, with the image of the session marked.
pub open spec fn sandbox_list(
    c: CommandCall,
    enabled: bool,
    current: Seq<char>,
    h: Seq<Answer>,
    k: int,
) -> ActionView {
    if k >= h.len() {
        host::ask(Ask::ListImages)
    } else {
        match h[k] {
            Answer::Images(cached) => host::done(
                Seq::empty(),
                reports::images_text(enabled, c.default_image@, cached@, current),
            ),
            _ => host::off_script(),
        }
    }
}

fn run_sandbox_list(c: &CommandCall, enabled: bool, current: &str, h: &Vec<Answer>, k: usize) -> (r:
    Action)
    requires
        k <= h@.len(),
    ensures
        r@ == sandbox_list(*c, enabled, current@, h@, k as int),
{
    if k >= h.len() {
        return host::just(Ask::ListImages);
    }
    match &h[k] {
        Answer::Images(cached) => host::finished(
            host::no_effects(),
            reports::images_report(enabled, c.default_image.as_str(), cached, current),
        ),
        _ => host::strayed(),
    }
}

/// The image of a stored session, if it has one of its own.
pub open spec fn image_of(entry: Option<SessionEntry>) -> Option<Seq<char>> {
    match entry {
        Some(e) => match e.sandbox_image {
            Some(i) => if i@.len() == 0 {
                None
            } else {
                Some(i@)
            },
            None => None,
        },
        None => None,
    }
}

/// The state of the sandbox and its images.
pub open spec fn sandbox_status(
    c: CommandCall,
    key: Seq<char>,
    enabled: bool,
    h: Seq<Answer>,
    k: int,
) -> ActionView {
    if k >= h.len() {
        host::ask(Ask::Session { key })
    } else {
        match h[k] {
            Answer::Session(entry) => match image_of(entry) {
                Some(i) => sandbox_list(c, enabled, i, h, k + 1),
                None => if !c.has_router {
                    sandbox_list(c, enabled, c.default_image@, h, k + 1)
                } else if k + 1 >= h.len() {
                    host::ask(Ask::DefaultImage)
                } else {
                    match h[k + 1] {
                        Answer::Image(i) => sandbox_list(c, enabled, i@, h, k + 2),
                        _ => host::off_script(),
                    }
                },
            },
            _ => host::off_script(),
        }
    }
}

fn run_sandbox_status(c: &CommandCall, key: &str, enabled: bool, h: &Vec<Answer>, k: usize) -> (r:
    Action)
    requires
        k <= h@.len(),
    ensures
        r@ == sandbox_status(*c, key@, enabled, h@, k as int),
{
    if k >= h.len() {
        return host::just(Ask::Session { key: key.to_string() });
    }
    match &h[k] {
        Answer::Session(entry) => {
            if let Some(e) = entry {
                if let Some(i) = &e.sandbox_image {
                    if i.as_str().unicode_len() > 0 {
                        return run_sandbox_list(c, enabled, i.as_str(), h, k + 1);
                    }
                }
            }
            if !c.has_router {
                return run_sandbox_list(c, enabled, c.default_image.as_str(), h, k + 1);
            }
            if k + 1 >= h.len() {
                return host::just(Ask::DefaultImage);
            }
            match &h[k + 1] {
                Answer::Image(i) => run_sandbox_list(c, enabled, i.as_str(), h, k + 2),
                _ => host::strayed(),
            }
        },
        _ => host::strayed(),
    }
}

/// Choosing an image by its number; the first takes the choice back.
pub open spec fn sandbox_image(
    c: CommandCall,
    key: Seq<char>,
    number: Seq<char>,
    h: Seq<Answer>,
    k: int,
) -> ActionView {
    match text::number_up_to(number, usize::MAX as nat) {
        None => bad_input("usage: /sandbox image [number]"@),
        Some(n) => if k >= h.len() {
            host::ask(Ask::ListImages)
        } else {
            match h[k] {
                Answer::Images(cached) => if n == 0 || n > cached@.len() + 1 {
                    bad_input(
                        "invalid image number. Use 1–"@ + text::decimal(cached@.len() + 1) + "."@,
                    )
                } else if n == 1 {
                    patch_step(
                        Ask::PatchImage { key, image: ""@ },
                        key,
                        "Image set to: "@ + c.default_image@,
                        h,
                        k + 1,
                    )
                } else {
                    patch_step(
                        Ask::PatchImage { key, image: cached@[n - 2].tag@ },
                        key,
                        "Image set to: "@ + cached@[n - 2].tag@,
                        h,
                        k + 1,
                    )
                },
                _ => host::off_script(),
            }
        },
    }
}

fn run_sandbox_image(c: &CommandCall, key: &str, number: &str, h: &Vec<Answer>, k: usize) -> (r:
    Action)
    requires
        k <= h@.len(),
    ensures
        r@ == sandbox_image(*c, key@, number@, h@, k as int),
{
    let n: usize = match text::parse_usize(number) {
        None => {
            return failed_input("usage: /sandbox image [number]");
        },
        Some(n) => n,
    };
    if k >= h.len() {
        return host::just(Ask::ListImages);
    }
    match &h[k] {
        Answer::Images(cached) => {
            if n == 0 || n - 1 > cached.len() {
                let mut m = "invalid image number. Use 1–".to_string();
                m.append(text::decimal_wide(cached.len() as u128 + 1).as_str());
                m.append(".");
                return failed_input(m.as_str());
            }
            let (image, shown) = if n == 1 {
                ("", c.default_image.as_str())
            } else {
                (cached[n - 2].tag.as_str(), cached[n - 2].tag.as_str())
            };
            run_patch_step(
                Ask::PatchImage { key: key.to_string(), image: image.to_string() },
                key,
                two_parts("Image set to: ", shown),
                h,
                k + 1,
            )
        },
        _ => host::strayed(),
    }
}

/// What the arguments ask of the sandbox.
pub open spec fn sandbox_choice(
    c: CommandCall,
    key: Seq<char>,
    enabled: bool,
    h: Seq<Answer>,
    k: int,
) -> ActionView {
    let args = c.args@;
    if args.len() == 0 {
        sandbox_status(c, key, enabled, h, k)
    } else if args == "on"@ {
        patch_step(Ask::PatchSandbox { key, enabled: true }, key, "Sandbox enabled."@, h, k)
    } else if args == "off"@ {
        patch_step(Ask::PatchSandbox { key, enabled: false }, key, "Sandbox disabled."@, h, k)
    } else if text::begins(args, "image "@) {
        sandbox_image(c, key, args.skip("image "@.len() as int), h, k)
    } else {
        bad_input("usage: /sandbox [on|off|image N]"@)
    }
}

fn run_sandbox_choice(c: &CommandCall, key: &str, enabled: bool, h: &Vec<Answer>, k: usize) -> (r:
    Action)
    requires
        k <= h@.len(),
    ensures
        r@ == sandbox_choice(*c, key@, enabled, h@, k as int),
{
    let args = c.args.as_str();
    if args.unicode_len() == 0 {
        return run_sandbox_status(c, key, enabled, h, k);
    }
    if text::str_eq(args, "on") {
        return run_patch_step(
            Ask::PatchSandbox { key: key.to_string(), enabled: true },
            key,
            "Sandbox enabled.".to_string(),
            h,
            k,
        );
    }
    if text::str_eq(args, "off") {
        return run_patch_step(
            Ask::PatchSandbox { key: key.to_string(), enabled: false },
            key,
            "Sandbox disabled.".to_string(),
            h,
            k,
        );
    }
    match text::strip_prefix(args, "image ") {
        Some(rest) => run_sandbox_image(c, key, rest, h, k),
        None => failed_input("usage: /sandbox [on|off|image N]"),
    }
}

/// `sandbox`: show, switch or choose the image.
pub open spec fn sandbox_command(c: CommandCall, key: Seq<char>, h: Seq<Answer>, k: int) -> ActionView {
    if !c.has_router {
        sandbox_choice(c, key, false, h, k)
    } else if k >= h.len() {
        host::ask(Ask::Sandboxed { key })
    } else {
        match h[k] {
            Answer::Flag(enabled) => sandbox_choice(c, key, enabled, h, k + 1),
            _ => host::off_script(),
        }
    }
}

fn run_sandbox(c: &CommandCall, key: &str, h: &Vec<Answer>, k: usize) -> (r: Action)
    requires
        k <= h@.len(),
    ensures
        r@ == sandbox_command(*c, key@, h@, k as int),
{
    if !c.has_router {
        return run_sandbox_choice(c, key, false, h, k);
    }
    if k >= h.len() {
        return host::just(Ask::Sandboxed { key: key.to_string() });
    }
    match &h[k] {
        Answer::Flag(enabled) => run_sandbox_choice(c, key, *enabled, h, k + 1),
        _ => host::strayed(),
    }
}

// ---- command mode ----

/// Where commands run.
pub open spec fn route_name(sandboxed: bool) -> Seq<char> {
    if sandboxed {
        "sandboxed"@
    } else {
        "host"@
    }
}

/// What the arguments ask of the command mode.
pub open spec fn sh_choice(
    args: Seq<char>,
    key: Seq<char>,
    sandboxed: bool,
    h: Seq<Answer>,
    k: int,
) -> ActionView {
    let route = route_name(sandboxed);
    if args.len() == 0 || args == "on"@ {
        host::done(
            seq![Effect::SetCommandMode { key, enabled: true }],
            "Command mode enabled ("@ + route
                + "). Send commands as plain messages. Use /sh off (or /sh exit) to leave."@,
        )
    } else if args == "off"@ || args == "exit"@ {
        host::done(
            seq![Effect::SetCommandMode { key, enabled: false }],
            "Command mode disabled. Back to normal chat mode."@,
        )
    } else if args == "status"@ {
        if k >= h.len() {
            host::ask(Ask::CommandMode { key })
        } else {
            match h[k] {
                Answer::Flag(true) => host::done(
                    Seq::empty(),
                    "Command mode is enabled ("@ + route
                        + "). Use /sh off (or /sh exit) to leave."@,
                ),
                Answer::Flag(false) => host::done(
                    Seq::empty(),
                    "Command mode is disabled ("@ + route + "). Use /sh to enable."@,
                ),
                _ => host::off_script(),
            }
        }
    } else {
        bad_input("usage: /sh [on|off|exit|status]"@)
    }
}

fn run_sh_choice(args: &str, key: &str, sandboxed: bool, h: &Vec<Answer>, k: usize) -> (r: Action)
    requires
        k <= h@.len(),
    ensures
        r@ == sh_choice(args@, key@, sandboxed, h@, k as int),
{
    let route = if sandboxed {
        "sandboxed"
    } else {
        "host"
    };
    if args.unicode_len() == 0 || text::str_eq(args, "on") {
        let mut t = two_parts("Command mode enabled (", route);
        t.append("). Send commands as plain messages. Use /sh off (or /sh exit) to leave.");
        return host::finished(
            host::one_effect(Effect::SetCommandMode { key: key.to_string(), enabled: true }),
            t,
        );
    }
    if text::str_eq(args, "off") || text::str_eq(args, "exit") {
        return host::finished(
            host::one_effect(Effect::SetCommandMode { key: key.to_string(), enabled: false }),
            "Command mode disabled. Back to normal chat mode.".to_string(),
        );
    }
    if text::str_eq(args, "status") {
        if k >= h.len() {
            return host::just(Ask::CommandMode { key: key.to_string() });
        }
        match &h[k] {
            Answer::Flag(enabled) => {
                if *enabled {
                    let mut t = two_parts("Command mode is enabled (", route);
                    t.append("). Use /sh off (or /sh exit) to leave.");
                    host::finished(host::no_effects(), t)
                } else {
                    let mut t = two_parts("Command mode is disabled (", route);
                    t.append("). Use /sh to enable.");
                    host::finished(host::no_effects(), t)
                }
            },
            _ => host::strayed(),
        }
    } else {
        failed_input("usage: /sh [on|off|exit|status]")
    }
}

/// `sh`: switch the command mode, or show it.
pub open spec fn sh_command(c: CommandCall, key: Seq<char>, h: Seq<Answer>, k: int) -> ActionView {
    if !c.has_router {
        sh_choice(c.args@, key, false, h, k)
    } else if k >= h.len() {
        host::ask(Ask::Sandboxed { key })
    } else {
        match h[k] {
            Answer::Flag(sandboxed) => sh_choice(c.args@, key, sandboxed, h, k + 1),
            _ => host::off_script(),
        }
    }
}

fn run_sh(c: &CommandCall, key: &str, h: &Vec<Answer>, k: usize) -> (r: Action)
    requires
        k <= h@.len(),
    ensures
        r@ == sh_command(*c, key@, h@, k as int),
{
    if !c.has_router {
        return run_sh_choice(c.args.as_str(), key, false, h, k);
    }
    if k >= h.len() {
        return host::just(Ask::Sandboxed { key: key.to_string() });
    }
    match &h[k] {
        Answer::Flag(sandboxed) => run_sh_choice(c.args.as_str(), key, *sandboxed, h, k + 1),
        _ => host::strayed(),
    }
}

// ---- all commands ----

/// The command by its name, in the session `key`.
pub open spec fn by_name(c: CommandCall, key: Seq<char>, h: Seq<Answer>, k: int) -> ActionView {
    let name = c.name@;
    if name == "new"@ {
        new_command(c, key, h, k)
    } else if name == "clear"@ {
        plain_command(Ask::Clear { key }, "Session cleared."@, h, k)
    } else if name == "compact"@ {
        plain_command(Ask::Compact { key }, "Session compacted."@, h, k)
    } else if name == "context"@ {
        context_command(key, h, k)
    } else if name == "sessions"@ {
        sessions_command(c, key, h, k)
    } else if name == "agent"@ {
        agent_command(c, key, h, k)
    } else if name == "handoff"@ {
        handoff_command(c, key, h, k)
    } else if name == "model"@ {
        model_command(c, key, h, k)
    } else if name == "sandbox"@ {
        sandbox_command(c, key, h, k)
    } else if name == "sh"@ {
        sh_command(c, key, h, k)
    } else {
        bad_input("unknown command: /"@ + name)
    }
}

fn run_by_name(c: &CommandCall, key: &str, h: &Vec<Answer>, k: usize) -> (r: Action)
    requires
        k <= h@.len(),
    ensures
        r@ == by_name(*c, key@, h@, k as int),
{
    let name = c.name.as_str();
    if text::str_eq(name, "new") {
        run_new(c, key, h, k)
    } else if text::str_eq(name, "clear") {
        run_plain(Ask::Clear { key: key.to_string() }, "Session cleared.", h, k)
    } else if text::str_eq(name, "compact") {
        run_plain(Ask::Compact { key: key.to_string() }, "Session compacted.", h, k)
    } else if text::str_eq(name, "context") {
        run_context(key, h, k)
    } else if text::str_eq(name, "sessions") {
        run_sessions(c, key, h, k)
    } else if text::str_eq(name, "agent") {
        run_agent(c, key, h, k)
    } else if text::str_eq(name, "handoff") {
        run_handoff(c, key, h, k)
    } else if text::str_eq(name, "model") {
        run_model(c, key, h, k)
    } else if text::str_eq(name, "sandbox") {
        run_sandbox(c, key, h, k)
    } else if text::str_eq(name, "sh") {
        run_sh(c, key, h, k)
    } else {
        failed_input(two_parts("unknown command: /", name).as_str())
    }
}

/// The session that the chat is in: the one it was switched to, else the one it has of itself.
pub open spec fn session_in(target: ChannelReplyTarget, switched: Option<String>) -> Seq<char> {
    sessions::or_text(channel::opt_view(switched), commands::session_key_of(target))
}

/// The session that the chat is in.
pub fn resolve_channel_session(target: &ChannelReplyTarget, switched: &Option<String>) -> (r: String)
    ensures
        r@ == session_in(*target, *switched),
{
    match switched {
        Some(key) => key.clone(),
        None => commands::default_channel_session_key(target),
    }
}

/// What a command does next, given the answers so far.
pub open spec fn next_step(c: CommandCall, h: Seq<Answer>) -> ActionView {
    if !c.ready {
        no_service("gateway not ready"@)
    } else if !c.has_metadata {
        no_service("session metadata not available"@)
    } else if h.len() == 0 {
        host::ask(Ask::ActiveSession { chat: c.target@ })
    } else {
        match h[0] {
            Answer::Key(switched) => by_name(c, session_in(c.target, switched), h, 1),
            _ => host::off_script(),
        }
    }
}

/// What a command does next, given the answers so far.
pub fn dispatch_command(c: &CommandCall, h: &Vec<Answer>) -> (r: Action)
    ensures
        r@ == next_step(*c, h@),
{
    if !c.ready {
        return failed_service("gateway not ready");
    }
    if !c.has_metadata {
        return failed_service("session metadata not available");
    }
    if h.len() == 0 {
        return host::just(Ask::ActiveSession { chat: c.target.copy() });
    }
    match &h[0] {
        Answer::Key(switched) => {
            let key = resolve_channel_session(&c.target, switched);
            run_by_name(c, key.as_str(), h, 1)
        },
        _ => host::strayed(),
    }
}

} // verus!
