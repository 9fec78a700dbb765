//! What the commands of a chat do and leave alone, whatever is answered to them.

use crate::channel;
use crate::channel::ChannelError;
use crate::gateway::commands;
use crate::gateway::commands::{AgentPersona, HandoffMode, SessionsCommand};
use crate::gateway::dispatch;
use crate::gateway::dispatch::{AgentsView, CommandCall};
use crate::gateway::host;
use crate::gateway::host::{Answer, Ask, Change, Effect, Progress};
use crate::gateway::reports::SessionEntry;
use crate::gateway::sessions;
use crate::json::JsonView;
use crate::text;
use vstd::prelude::*;

verus! {

/// The session that a command is about: the one that the chat was switched to, else the one that
/// the chat has of itself.
pub open spec fn session_of(c: CommandCall, h: Seq<Answer>) -> Seq<char> {
    match h[0] {
        Answer::Key(Some(key)) => key@,
        _ => c.target.channel_type.name() + ":"@ + c.target.account_id@ + ":"@ + c.target.chat_id@,
    }
}

/// The agents that an answer lists.
pub open spec fn agents_in(a: Answer) -> Seq<AgentPersona> {
    match a {
        Answer::Agents(Ok(agents)) => agents@,
        _ => Seq::empty(),
    }
}

/// Whether an agent with that id was listed.
pub open spec fn is_listed(h: Seq<Answer>, id: Seq<char>) -> bool {
    exists|j: int, i: int|
        0 <= j < h.len() && 0 <= i < agents_in(h[j]).len() && (#[trigger] agents_in(h[j])[i]).id@
            == id
}

/// Whether a copy of a session was made under that key.
pub open spec fn is_copy(h: Seq<Answer>, key: Seq<char>) -> bool {
    exists|j: int| 0 <= j < h.len() && #[trigger] copy_in(h[j]) == Some(key)
}

/// The key of the copy that an answer tells of.
pub open spec fn copy_in(a: Answer) -> Option<Seq<char>> {
    match a {
        Answer::Document(Ok(d)) => d@.text_at("sessionKey"@),
        _ => None,
    }
}

/// Whether a session with that key was listed that is archived, or one that is not.
pub open spec fn is_session(h: Seq<Answer>, key: Seq<char>, archived: bool) -> bool {
    exists|j: int, i: int|
        0 <= j < h.len() && 0 <= i < sessions_in(h[j]).len() && (#[trigger] sessions_in(h[j])[i]).key@
            == key && sessions_in(h[j])[i].archived == archived
}

/// The sessions that an answer lists.
pub open spec fn sessions_in(a: Answer) -> Seq<SessionEntry> {
    match a {
        Answer::Sessions(all) => all@,
        _ => Seq::empty(),
    }
}

/// What is asked in one command is asked in no other, and it is about the command's session, the
/// session that it creates, or what its arguments say.
pub open spec fn work_fits(
    c: CommandCall,
    key: Seq<char>,
    h: Seq<Answer>,
    a: Ask<Seq<char>, Seq<Seq<char>>>,
) -> bool {
    match a {
        Ask::Clear { key: k } => c.name@ == "clear"@ && k == key && h.len() == 1,
        Ask::Compact { key: k } => c.name@ == "compact"@ && k == key && h.len() == 1,
        Ask::Context { key: k } => c.name@ == "context"@ && k == key && h.len() == 1,
        Ask::Session { key: k } => k == key,
        Ask::ListSessions { chat } => {
            c.name@ == "new"@ || c.name@ == "sessions"@ || c.name@ == "handoff"@
        },
        Ask::CreateSession { key: k, label } => {
            &&& c.name@ == "new"@ || c.name@ == "handoff"@
            &&& k == c.fresh_key@
            &&& h.last() matches Answer::Sessions(existing)
            &&& label == c.display_name@ + " "@ + text::decimal(existing@.len() + 1)
        },
        Ask::AssignAgent { key: k, agent } => {
            &&& c.name@ == "agent"@ || c.name@ == "handoff"@
            &&& c.name@ == "agent"@ ==> k == key && agent == text::lower_of(text::trim_of(c.args@))
            &&& c.name@ == "handoff"@ ==> agent == text::lower_of(text::words_of(c.args@)[0])
            &&& is_listed(h, agent)
        },
        Ask::PatchModel { key: k, model } => {
            &&& c.name@ == "model"@
            &&& k == key
            &&& h.len() == 3
            &&& h[1] matches Answer::Document(Ok(d))
            &&& d@.items() matches Some(models)
            &&& exists|n: nat|
                1 <= n <= models.len() && text::number_of(c.args@) == Some(n) && (
                #[trigger] models[n - 1]).text_at("id"@) == Some(model)
        },
        Ask::PatchSandbox { key: k, enabled } => {
            &&& c.name@ == "sandbox"@
            &&& k == key
            &&& enabled ==> c.args@ == "on"@
            &&& !enabled ==> c.args@ == "off"@
        },
        Ask::PatchImage { key: k, image } => {
            &&& c.name@ == "sandbox"@
            &&& k == key
            &&& text::begins(c.args@, "image "@)
            &&& h.last() matches Answer::Images(cached)
            &&& text::number_of(c.args@.skip(6)) matches Some(n)
            &&& n == 1 && image == ""@ || 2 <= n <= cached@.len() + 1 && image == cached@[n - 2].tag@
        },
        Ask::Archive { key: k, archived } => {
            &&& c.name@ == "sessions"@
            &&& is_session(h, k, !archived)
            &&& archived ==> k != key
            &&& text::words_of(text::trim_of(c.args@))[0] == (if archived {
                "archive"@
            } else {
                "unarchive"@
            })
        },
        Ask::ArchiveEach { keys } => {
            &&& c.name@ == "sessions"@
            &&& forall|i: int|
                0 <= i < keys.len() ==> is_session(h, #[trigger] keys[i], false) && keys[i] != key
        },
        Ask::Fork { key: k } => c.name@ == "handoff"@ && k == key,
        Ask::Sandboxed { key: k } => {
            (c.name@ == "sandbox"@ || c.name@ == "sh"@) && k == key && h.len() == 1
        },
        Ask::CommandMode { key: k } => c.name@ == "sh"@ && k == key && c.args@ == "status"@,
        Ask::ListModels => c.name@ == "new"@ || c.name@ == "model"@,
        Ask::ListAgents => c.name@ == "agent"@ || c.name@ == "handoff"@,
        Ask::DefaultAgent => {
            c.name@ == "new"@ || c.name@ == "agent"@ || c.name@ == "handoff"@
        },
        Ask::DefaultImage => c.name@ == "sandbox"@,
        Ask::ListImages => c.name@ == "sandbox"@,
        Ask::Now => c.name@ == "sessions"@ || c.name@ == "handoff"@,
        Ask::ChannelStatus => {
            c.name@ == "new"@ || c.name@ == "sessions"@ || c.name@ == "agent"@ || c.name@
                == "handoff"@
        },
        Ask::Finish(r) => true,
        _ => false,
    }
}

/// The names of the commands differ.
proof fn lemma_command_names()
    ensures
        "new"@.len() == 3,
        "sh"@.len() == 2,
        "clear"@.len() == 5 && "clear"@[0] == 'c',
        "agent"@.len() == 5 && "agent"@[0] == 'a',
        "model"@.len() == 5 && "model"@[0] == 'm',
        "compact"@.len() == 7 && "compact"@[0] == 'c' && "compact"@[2] == 'm',
        "context"@.len() == 7 && "context"@[0] == 'c' && "context"@[2] == 'n',
        "handoff"@.len() == 7 && "handoff"@[0] == 'h',
        "sandbox"@.len() == 7 && "sandbox"@[0] == 's',
        "sessions"@.len() == 8,
{
    reveal_strlit("new");
    reveal_strlit("sh");
    reveal_strlit("clear");
    reveal_strlit("agent");
    reveal_strlit("model");
    reveal_strlit("compact");
    reveal_strlit("context");
    reveal_strlit("handoff");
    reveal_strlit("sandbox");
    reveal_strlit("sessions");
}

proof fn lemma_trim_twice(s: Seq<char>)
    ensures
        text::trim_of(text::trim_of(s)) == text::trim_of(s),
{
    text::lemma_trimmed(s);
    text::lemma_trim_id(text::trim_of(s));
}

/// The first word of a text has no white space around it.
proof fn lemma_word_trimmed(s: Seq<char>)
    ensures
        text::words_of(s).len() > 0 ==> text::trim_of(text::words_of(s)[0]) == text::words_of(s)[0],
{
    text::lemma_first_word(s);
    let t = text::trim_start_of(s);
    let n = text::lead(t, text::not_white());
    text::lemma_lead_bounds(t, text::not_white());
    let w = text::first_word_of(s);
    if w.len() > 0 {
        assert(w == t.take(n as int));
        assert(text::not_white()(t[0]));
        assert(text::not_white()(t[n - 1]));
        assert(w[0] == t[0] && w.last() == t[n - 1]);
        text::lemma_trim_id(w);
    }
}

/// An agent that is chosen by a selector is listed under the selector in lower case.
proof fn lemma_chosen(agents: Seq<AgentPersona>, selector: Seq<char>)
    ensures
        commands::agent_choice(agents, selector) matches Ok(i) ==> 0 <= i < agents.len()
            && agents[i].id@ == text::lower_of(text::trim_of(selector)),
{
    crate::gateway::laws::law_chosen_by_id(agents, selector);
    lemma_trim_twice(selector);
    lemma_trim_twice(text::trim_of(selector));
}

#[verifier::rlimit(60)]
proof fn lemma_new_work(c: CommandCall, key: Seq<char>, h: Seq<Answer>)
    requires
        c.name@ == "new"@,
        h.len() > 0,
    ensures
        work_fits(c, key, h, dispatch::new_command(c, key, h, 1).ask),
{
    lemma_command_names();
}

#[verifier::rlimit(60)]
proof fn lemma_sessions_work(c: CommandCall, key: Seq<char>, h: Seq<Answer>)
    requires
        c.name@ == "sessions"@,
        h.len() > 0,
    ensures
        work_fits(c, key, h, dispatch::sessions_command(c, key, h, 1).ask),
{
    lemma_command_names();
    dispatch::lemma_session_numbers(c.args@);
    let a = dispatch::sessions_command(c, key, h, 1).ask;
    if let Ask::ArchiveEach { keys } = a {
        let last = h.len() - 1;
        assert forall|i: int| 0 <= i < keys.len() implies is_session(h, #[trigger] keys[i], false)
            && keys[i] != key by {
            assert(keys.contains(keys[i]));
            if let Answer::Status(status) = h[1] {
                if let Answer::Time(now) = h[2] {
                    let cutoff = sessions::cutoff_of(now, sessions::archive_days(status, c.target));
                    let all = sessions_in(h[last]);
                    assert(keys == sessions::stale_keys(all, key, cutoff));
                    sessions::law_stale_keys(all, key, cutoff, keys[i]);
                    let x = choose|x: int|
                        0 <= x < all.len() && all[x].key@ == keys[i] && #[trigger] sessions::is_stale(
                            all[x],
                            key,
                            cutoff,
                        );
                    assert(sessions_in(h[last])[x].key@ == keys[i]);
                }
            }
        }
    }
    if let Ask::Archive { key: k, archived } = a {
        match sessions::auto_archive(c.target, key, h, 1) {
            Progress::Wait(w) => {},
            Progress::Ready(n, k1) => {
                let all = sessions_in(h[k1]);
                match commands::sessions_args_of(c.args@) {
                    Ok(SessionsCommand::Archive(n)) => {
                        assert(sessions_in(h[k1])[n - 1].key@ == k);
                    },
                    Ok(SessionsCommand::Unarchive(n)) => {
                        assert(sessions_in(h[k1])[n - 1].key@ == k);
                    },
                    _ => {},
                }
            },
        }
    }
}

#[verifier::rlimit(60)]
proof fn lemma_agent_work(c: CommandCall, key: Seq<char>, h: Seq<Answer>)
    requires
        c.name@ == "agent"@,
        h.len() > 0,
    ensures
        work_fits(c, key, h, dispatch::agent_command(c, key, h, 1).ask),
{
    lemma_command_names();
    if let AgentsView::Ready(d, agents, k1) = dispatch::agents_allowed(c, h, 1) {
        lemma_chosen(agents, c.args@);
        assert(agents == agents_in(h[k1 - 1]));
        if let Ok(i) = commands::agent_choice(agents, c.args@) {
            assert(agents_in(h[k1 - 1])[i].id@ == agents[i].id@);
        }
    }
}

#[verifier::rlimit(60)]
proof fn lemma_handoff_work(c: CommandCall, key: Seq<char>, h: Seq<Answer>)
    requires
        c.name@ == "handoff"@,
        h.len() > 0,
    ensures
        work_fits(c, key, h, dispatch::handoff_command(c, key, h, 1).ask),
{
    lemma_command_names();
    if let AgentsView::Ready(d, agents, k1) = dispatch::agents_allowed(c, h, 1) {
        assert(agents == agents_in(h[k1 - 1]));
        if let Ok((selector, mode, note)) = commands::handoff_args_of(c.args@) {
            lemma_chosen(agents, selector);
            lemma_word_trimmed(c.args@);
            if let Ok(i) = commands::agent_choice(agents, selector) {
                assert(agents_in(h[k1 - 1])[i].id@ == agents[i].id@);
            }
        }
    }
}

#[verifier::rlimit(60)]
proof fn lemma_model_work(c: CommandCall, key: Seq<char>, h: Seq<Answer>)
    requires
        c.name@ == "model"@,
        h.len() > 0,
    ensures
        work_fits(c, key, h, dispatch::model_command(c, key, h, 1).ask),
{
    lemma_command_names();
}

#[verifier::rlimit(60)]
proof fn lemma_sandbox_work(c: CommandCall, key: Seq<char>, h: Seq<Answer>)
    requires
        c.name@ == "sandbox"@,
        h.len() > 0,
    ensures
        work_fits(c, key, h, dispatch::sandbox_command(c, key, h, 1).ask),
{
    lemma_command_names();
    reveal_strlit("image ");
}

#[verifier::rlimit(60)]
proof fn lemma_sh_work(c: CommandCall, key: Seq<char>, h: Seq<Answer>)
    requires
        c.name@ == "sh"@,
        h.len() > 0,
    ensures
        work_fits(c, key, h, dispatch::sh_command(c, key, h, 1).ask),
{
    lemma_command_names();
}

/// What a command asks is what its name and its arguments say: only `clear` clears and only
/// `compact` compacts, only `sandbox on` switches the sandbox on, only a number chooses a model, and
/// so on; and whatever is asked is about the session of the chat, or about the one that is created.
#[verifier::rlimit(60)]
pub proof fn law_command_work(c: CommandCall, h: Seq<Answer>)
    requires
        h.len() > 0,
    ensures
        work_fits(c, session_of(c, h), h, dispatch::next_step(c, h).ask),
{
    lemma_command_names();
    let key = session_of(c, h);
    if c.name@ == "new"@ {
        lemma_new_work(c, key, h);
    } else if c.name@ == "sessions"@ {
        lemma_sessions_work(c, key, h);
    } else if c.name@ == "agent"@ {
        lemma_agent_work(c, key, h);
    } else if c.name@ == "handoff"@ {
        lemma_handoff_work(c, key, h);
    } else if c.name@ == "model"@ {
        lemma_model_work(c, key, h);
    } else if c.name@ == "sandbox"@ {
        lemma_sandbox_work(c, key, h);
    } else if c.name@ == "sh"@ {
        lemma_sh_work(c, key, h);
    }
    if let Answer::Key(switched) = h[0] {
        assert(dispatch::session_in(c.target, switched) == key);
    }
}

// ---- what a command changes ----

/// The stored session that an answer tells of.
pub open spec fn entry_in(a: Answer) -> Option<SessionEntry> {
    match a {
        Answer::Session(e) => e,
        _ => None,
    }
}

/// What a command changes without waiting for an answer is what its name and its arguments say, and
/// it is about the command's session, or about the one that the command creates.
pub open spec fn change_fits(
    c: CommandCall,
    key: Seq<char>,
    h: Seq<Answer>,
    e: Effect<Seq<char>>,
) -> bool {
    match e {
        Effect::SetBinding { key: k, binding } => {
            &&& c.binding matches Ok(b)
            &&& b@ == binding
            &&& c.name@ == "new"@ && (k == c.fresh_key@ || k == key) || c.name@ == "handoff"@ && (k
                == c.fresh_key@ || is_copy(h, k))
        },
        Effect::SetAgent { key: k, agent } => c.name@ == "new"@ && k == c.fresh_key@,
        Effect::SetActive { chat, key: k } => {
            &&& chat == c.target@
            &&& c.name@ == "new"@ && k == c.fresh_key@ || c.name@ == "sessions"@ && is_session(
                h,
                k,
                false,
            ) || c.name@ == "handoff"@ && (k == c.fresh_key@ || is_copy(h, k))
        },
        Effect::PatchModel { key: k, model } => c.name@ == "new"@ && k == c.fresh_key@,
        Effect::SetModel { key: k, model } => {
            &&& c.name@ == "handoff"@
            &&& k == c.fresh_key@
            &&& entry_in(h.last()) matches Some(from)
            &&& channel::opt_view(from.model) == Some(model)
        },
        Effect::SetProject { key: k, project } => {
            &&& c.name@ == "handoff"@
            &&& k == c.fresh_key@
            &&& entry_in(h.last()) matches Some(from)
            &&& channel::opt_view(from.project_id) == Some(project)
        },
        Effect::SetMcpDisabled { key: k, disabled } => {
            &&& c.name@ == "handoff"@
            &&& k == c.fresh_key@
            &&& entry_in(h.last()) matches Some(from)
            &&& from.mcp_disabled == Some(disabled)
        },
        Effect::Announce { change, key: k, version } => match change {
            Change::Created => c.name@ == "new"@ && k == c.fresh_key@ || c.name@ == "handoff"@ && (k
                == c.fresh_key@ || is_copy(h, k)),
            Change::Switched => c.name@ == "sessions"@ && is_session(h, k, false),
            Change::Patched => {
                &&& k == key
                &&& c.name@ == "agent"@ || c.name@ == "handoff"@ || c.name@ == "model"@ || c.name@
                    == "sandbox"@
            },
        },
        Effect::StorePacket { key: k, packet } => {
            &&& c.name@ == "handoff"@
            &&& packet.target_session_key == k
            &&& packet.source_session_key == key
            &&& packet.to_agent_id == text::lower_of(text::words_of(c.args@)[0])
            &&& h.contains(Answer::Time(packet.created_at_ms))
            &&& match packet.mode {
                HandoffMode::SameSession => k == key,
                HandoffMode::NewSession => k == c.fresh_key@,
                HandoffMode::ForkSession => is_copy(h, k),
            }
        },
        Effect::SetCommandMode { key: k, enabled } => {
            &&& c.name@ == "sh"@
            &&& k == key
            &&& enabled ==> c.args@.len() == 0 || c.args@ == "on"@
            &&& !enabled ==> c.args@ == "off"@ || c.args@ == "exit"@
        },
        _ => false,
    }
}

/// Whether all that a command changes fits.
pub open spec fn changes_fit(
    c: CommandCall,
    key: Seq<char>,
    h: Seq<Answer>,
    effects: Seq<Effect<Seq<char>>>,
) -> bool {
    forall|i: int| 0 <= i < effects.len() ==> change_fits(c, key, h, #[trigger] effects[i])
}

#[verifier::rlimit(60)]
proof fn lemma_new_changes(c: CommandCall, key: Seq<char>, h: Seq<Answer>)
    requires
        c.name@ == "new"@,
        h.len() > 0,
    ensures
        changes_fit(c, key, h, dispatch::new_command(c, key, h, 1).effects),
{
    lemma_command_names();
}

#[verifier::rlimit(60)]
proof fn lemma_sessions_changes(c: CommandCall, key: Seq<char>, h: Seq<Answer>)
    requires
        c.name@ == "sessions"@,
        h.len() > 0,
    ensures
        changes_fit(c, key, h, dispatch::sessions_command(c, key, h, 1).effects),
{
    lemma_command_names();
    dispatch::lemma_session_numbers(c.args@);
    if let Progress::Ready(n, k1) = sessions::auto_archive(c.target, key, h, 1) {
        if let Ok(SessionsCommand::Switch(n)) = commands::sessions_args_of(c.args@) {
            if k1 < h.len() && n <= sessions_in(h[k1]).len() {
                assert(sessions_in(h[k1])[n - 1].key@ == sessions_in(h[k1])[n - 1].key@);
            }
        }
    }
}

#[verifier::rlimit(60)]
proof fn lemma_agent_changes(c: CommandCall, key: Seq<char>, h: Seq<Answer>)
    requires
        c.name@ == "agent"@,
        h.len() > 0,
    ensures
        changes_fit(c, key, h, dispatch::agent_command(c, key, h, 1).effects),
{
    lemma_command_names();
}

proof fn lemma_inherited(key: Seq<char>, source: Option<SessionEntry>, i: int)
    requires
        0 <= i < dispatch::inherited_settings(key, source).len(),
    ensures
        source matches Some(from) && match dispatch::inherited_settings(key, source)[i] {
            Effect::SetModel { key: k, model } => k == key && channel::opt_view(from.model) == Some(
                model,
            ),
            Effect::SetProject { key: k, project } => k == key && channel::opt_view(from.project_id)
                == Some(project),
            Effect::SetMcpDisabled { key: k, disabled } => k == key && from.mcp_disabled == Some(
                disabled,
            ),
            _ => false,
        },
{
}

#[verifier::rlimit(60)]
proof fn lemma_handoff_changes(c: CommandCall, key: Seq<char>, h: Seq<Answer>)
    requires
        c.name@ == "handoff"@,
        h.len() > 0,
    ensures
        changes_fit(c, key, h, dispatch::handoff_command(c, key, h, 1).effects),
{
    lemma_command_names();
    if let AgentsView::Ready(d, agents, k1) = dispatch::agents_allowed(c, h, 1) {
        if let Progress::Ready(current, k2) = sessions::current_agent(c.has_agents, key, h, k1) {
            if let Ok((selector, mode, note)) = commands::handoff_args_of(c.args@) {
                lemma_chosen(agents, selector);
                lemma_word_trimmed(c.args@);
                if let Ok(i) = commands::agent_choice(agents, selector) {
                    lemma_mode_changes(
                        c,
                        dispatch::Handing {
                            key,
                            from: current,
                            to_id: agents[i].id@,
                            to_name: agents[i].name@,
                            mode,
                            note,
                        },
                        h,
                        k2,
                    );
                }
            }
        }
    }
}

#[verifier::rlimit(60)]
proof fn lemma_mode_changes(c: CommandCall, d: dispatch::Handing<Seq<char>>, h: Seq<Answer>, k: int)
    requires
        c.name@ == "handoff"@,
        0 < k <= h.len(),
        d.to_id == text::lower_of(text::words_of(c.args@)[0]),
    ensures
        changes_fit(c, d.key, h, dispatch::handoff_by_mode(c, d, h, k).effects),
{
    lemma_command_names();
    let effects = dispatch::handoff_by_mode(c, d, h, k).effects;
    assert forall|j: int, now: u64| 0 <= j < h.len() && #[trigger] h[j] == Answer::Time(now) implies
        #[trigger] h.contains(Answer::Time(now)) by {
        assert(h[j] == Answer::Time(now));
    }
    if d.mode == HandoffMode::ForkSession && k < h.len() {
        assert(copy_in(h[k]) == copy_in(h[k]));
    }
    if d.mode == HandoffMode::NewSession && k + 3 == h.len() {
        if let Answer::Session(source) = h[k + 2] {
            assert forall|i: int| 0 <= i < effects.len() implies change_fits(
                c,
                d.key,
                h,
                #[trigger] effects[i],
            ) by {
                if effects == dispatch::inherited_settings(c.fresh_key@, source) {
                    lemma_inherited(c.fresh_key@, source, i);
                }
            }
        }
    }
}

#[verifier::rlimit(60)]
proof fn lemma_model_changes(c: CommandCall, key: Seq<char>, h: Seq<Answer>)
    requires
        c.name@ == "model"@,
        h.len() > 0,
    ensures
        changes_fit(c, key, h, dispatch::model_command(c, key, h, 1).effects),
{
    lemma_command_names();
}

#[verifier::rlimit(60)]
proof fn lemma_sandbox_changes(c: CommandCall, key: Seq<char>, h: Seq<Answer>)
    requires
        c.name@ == "sandbox"@,
        h.len() > 0,
    ensures
        changes_fit(c, key, h, dispatch::sandbox_command(c, key, h, 1).effects),
{
    lemma_command_names();
}

#[verifier::rlimit(60)]
proof fn lemma_sh_changes(c: CommandCall, key: Seq<char>, h: Seq<Answer>)
    requires
        c.name@ == "sh"@,
        h.len() > 0,
    ensures
        changes_fit(c, key, h, dispatch::sh_command(c, key, h, 1).effects),
{
    lemma_command_names();
}

/// What a command changes is what its name and its arguments say, and nothing else: the command mode
/// only by `sh`, the active session of the chat only by `new`, `sessions` and `handoff`, and so on.
/// What the next agent is told names that agent, the session that is left and the one that is
/// entered.
#[verifier::rlimit(60)]
pub proof fn law_command_changes(c: CommandCall, h: Seq<Answer>)
    ensures
        h.len() == 0 ==> dispatch::next_step(c, h).effects.len() == 0,
        h.len() > 0 ==> changes_fit(c, session_of(c, h), h, dispatch::next_step(c, h).effects),
{
    lemma_command_names();
    if h.len() > 0 {
        let key = session_of(c, h);
        if c.name@ == "new"@ {
            lemma_new_changes(c, key, h);
        } else if c.name@ == "sessions"@ {
            lemma_sessions_changes(c, key, h);
        } else if c.name@ == "agent"@ {
            lemma_agent_changes(c, key, h);
        } else if c.name@ == "handoff"@ {
            lemma_handoff_changes(c, key, h);
        } else if c.name@ == "model"@ {
            lemma_model_changes(c, key, h);
        } else if c.name@ == "sandbox"@ {
            lemma_sandbox_changes(c, key, h);
        } else if c.name@ == "sh"@ {
            lemma_sh_changes(c, key, h);
        }
        if let Answer::Key(switched) = h[0] {
            assert(dispatch::session_in(c.target, switched) == key);
        }
    }
}

// ---- how a command goes on and ends ----

/// Whether work was answered to have succeeded.
pub open spec fn worked(a: Answer) -> bool {
    a matches Answer::Outcome(r) && r is Ok
}

/// Whether this is what is asked.
pub open spec fn is_work(a: Ask<Seq<char>, Seq<Seq<char>>>, b: Ask<Seq<char>, Seq<Seq<char>>>) -> bool {
    a == b
}

/// `clear` clears the session of the chat, and says so only where that worked.
#[verifier::rlimit(60)]
pub proof fn law_clear(c: CommandCall, h: Seq<Answer>, switched: Option<String>)
    requires
        c.ready,
        c.has_metadata,
        c.name@ == "clear"@,
        h.len() > 0,
        h[0] == Answer::Key(switched),
    ensures
        h.len() == 1 ==> is_work(dispatch::next_step(c, h).ask, Ask::Clear { key: session_of(c, h) }),
        h.len() > 1 ==> (dispatch::next_step(c, h).ask matches Ask::Finish(Ok(t)) ==> t
            == "Session cleared."@ && worked(h[1])),
        h.len() > 1 && worked(h[1]) ==> dispatch::next_step(c, h).ask
            == Ask::<Seq<char>, Seq<Seq<char>>>::Finish(Ok("Session cleared."@)),
        h.len() > 1 ==> (h[1] matches Answer::Outcome(Err(e)) ==> dispatch::next_step(c, h).ask
            == Ask::<Seq<char>, Seq<Seq<char>>>::Finish(Err(ChannelError::Unavailable(e@)))),
{
    lemma_command_names();
    assert(dispatch::session_in(c.target, switched) == session_of(c, h));
}

/// `compact` compacts the session of the chat, and says so only where that worked.
#[verifier::rlimit(60)]
pub proof fn law_compact(c: CommandCall, h: Seq<Answer>, switched: Option<String>)
    requires
        c.ready,
        c.has_metadata,
        c.name@ == "compact"@,
        h.len() > 0,
        h[0] == Answer::Key(switched),
    ensures
        h.len() == 1 ==> is_work(dispatch::next_step(c, h).ask, Ask::Compact { key: session_of(c, h) }),
        h.len() > 1 ==> (dispatch::next_step(c, h).ask matches Ask::Finish(Ok(t)) ==> t
            == "Session compacted."@ && worked(h[1])),
        h.len() > 1 && worked(h[1]) ==> dispatch::next_step(c, h).ask
            == Ask::<Seq<char>, Seq<Seq<char>>>::Finish(Ok("Session compacted."@)),
        h.len() > 1 ==> (h[1] matches Answer::Outcome(Err(e)) ==> dispatch::next_step(c, h).ask
            == Ask::<Seq<char>, Seq<Seq<char>>>::Finish(Err(ChannelError::Unavailable(e@)))),
{
    lemma_command_names();
    assert(dispatch::session_in(c.target, switched) == session_of(c, h));
}

/// `context` describes the session of the chat: the reply names it and gives the number of messages,
/// the provider, the model and the tokens that the description holds.
#[verifier::rlimit(60)]
pub proof fn law_context(c: CommandCall, h: Seq<Answer>, switched: Option<String>)
    requires
        c.ready,
        c.has_metadata,
        c.name@ == "context"@,
        h.len() > 0,
        h[0] == Answer::Key(switched),
    ensures
        h.len() == 1 ==> is_work(dispatch::next_step(c, h).ask, Ask::Context { key: session_of(c, h) }),
        h.len() > 1 ==> (dispatch::next_step(c, h).ask matches Ask::Finish(Ok(t)) ==> {
            &&& h[1] matches Answer::Document(Ok(d))
            &&& text::begins(t, "**Session:** `"@ + session_of(c, h) + "`\n**Messages:** "@)
        }),
        h.len() > 1 ==> (h[1] matches Answer::Document(Ok(d)) ==> dispatch::next_step(c, h).ask
            matches Ask::Finish(Ok(t))),
{
    lemma_command_names();
    assert(dispatch::session_in(c.target, switched) == session_of(c, h));
    if h.len() > 1 {
        if let Answer::Document(Ok(d)) = h[1] {
            let head = "**Session:** `"@ + session_of(c, h) + "`\n**Messages:** "@;
            let t = crate::gateway::reports::context_text(session_of(c, h), d@);
            assert(t.subrange(0, head.len() as int) =~= head);
        }
    }
}

/// `sh` and `sh on` switch the command mode of the session on, `sh off` and `sh exit` switch it off,
/// as soon as it is known where commands run.
#[verifier::rlimit(60)]
pub proof fn law_command_mode(c: CommandCall, h: Seq<Answer>, switched: Option<String>, sandboxed: bool)
    requires
        c.ready,
        c.has_metadata,
        c.name@ == "sh"@,
        h.len() > 0,
        h[0] == Answer::Key(switched),
        c.has_router ==> h.len() > 1 && h[1] == Answer::Flag(sandboxed),
    ensures
        c.args@.len() == 0 || c.args@ == "on"@ ==> dispatch::next_step(c, h).effects == seq![
            Effect::SetCommandMode { key: session_of(c, h), enabled: true },
        ],
        c.args@ == "off"@ || c.args@ == "exit"@ ==> dispatch::next_step(c, h).effects == seq![
            Effect::SetCommandMode { key: session_of(c, h), enabled: false },
        ],
{
    lemma_command_names();
    assert(dispatch::session_in(c.target, switched) == session_of(c, h));
    reveal_strlit("on");
    reveal_strlit("off");
    reveal_strlit("exit");
    reveal_strlit("status");
}

/// What a command asked before, after the first `n` answers.
pub open spec fn asked_before(c: CommandCall, h: Seq<Answer>, n: int) -> Ask<Seq<char>, Seq<Seq<char>>> {
    dispatch::next_step(c, h.take(n)).ask
}

/// `sandbox on` and `sandbox off` patch the session, and say so only after the patch worked.
#[verifier::rlimit(60)]
pub proof fn law_sandbox_switch(c: CommandCall, h: Seq<Answer>, switched: Option<String>, n: int, on: bool)
    requires
        c.ready,
        c.has_metadata,
        c.name@ == "sandbox"@,
        c.args@ == (if on {
            "on"@
        } else {
            "off"@
        }),
        h.len() > 0,
        h[0] == Answer::Key(switched),
        n == (if c.has_router {
            2int
        } else {
            1
        }),
        n <= h.len(),
        c.has_router ==> h[1] is Flag,
    ensures
        is_work(
            asked_before(c, h, n),
            Ask::PatchSandbox { key: session_of(c, h), enabled: on },
        ),
        dispatch::next_step(c, h).ask matches Ask::Finish(Ok(t)) ==> {
            &&& h.len() > n
            &&& h[n] matches Answer::Document(Ok(d))
            &&& t == (if on {
                "Sandbox enabled."@
            } else {
                "Sandbox disabled."@
            })
        },
{
    lemma_command_names();
    assert(dispatch::session_in(c.target, switched) == session_of(c, h));
    reveal_strlit("on");
    reveal_strlit("off");
    assert(h.take(n)[0] == h[0]);
    if c.has_router {
        assert(h.take(n)[1] == h[1]);
    }
}

/// A text without white space is one word.
proof fn lemma_one_word(s: Seq<char>)
    requires
        s.len() > 0,
        forall|i: int| 0 <= i < s.len() ==> !text::is_white(#[trigger] s[i]),
    ensures
        text::words_of(s) == seq![s],
        text::trim_of(s) == s,
{
    assert(!text::is_white(s[0]) && !text::is_white(s[s.len() - 1]));
    text::lemma_trim_id(s);
    text::lemma_trim_start_id(s);
    text::lemma_lead(s, text::not_white(), s.len() as int);
    assert(s.take(s.len() as int) =~= s);
    let rest = s.skip(s.len() as int);
    assert(rest.len() == 0);
    text::lemma_lead_bounds(rest, text::white());
    assert(text::trim_start_of(rest).len() == 0);
    assert(text::words_of(rest) =~= Seq::empty());
    assert(seq![s] + Seq::<Seq<char>>::empty() =~= seq![s]);
}

proof fn lemma_numeral_word(n: nat)
    ensures
        text::words_of(text::decimal(n)) == seq![text::decimal(n)],
        text::trim_of(text::decimal(n)) == text::decimal(n),
        text::number_of(text::decimal(n)) == Some(n),
        text::decimal(n).len() > 0,
        text::all_digits(text::decimal(n)),
{
    text::law_decimal_inverse(n);
    text::lemma_decimal(n);
    let s = text::decimal(n);
    assert forall|i: int| 0 <= i < s.len() implies !text::is_white(#[trigger] s[i]) by {
        assert('0' <= s[i] && s[i] <= '9');
    }
    lemma_one_word(s);
}

/// The number that stands before a session in the list is the number by which the chat is switched
/// to that session; a session that is archived is not entered.
pub proof fn law_session_number(
    target: channel::ChannelReplyTarget,
    key: Seq<char>,
    all: Seq<SessionEntry>,
    auto_archived: u64,
    h: Seq<Answer>,
    k: int,
    i: int,
)
    requires
        0 <= i < all.len(),
        all.len() <= usize::MAX,
    ensures
        text::begins(
            crate::gateway::reports::session_lines(all, key)[i],
            text::decimal((i + 1) as nat) + ". "@ + (match all[i].label {
                Some(l) => l@,
                None => all[i].key@,
            }),
        ),
        ({
            let a = dispatch::sessions_choice(
                target,
                text::decimal((i + 1) as nat),
                key,
                all,
                auto_archived,
                h,
                k,
            );
            if all[i].archived {
                a.ask matches Ask::Finish(Err(e)) && a.effects.len() == 0
            } else {
                &&& a.effects.len() == 2
                &&& a.effects[0] == (Effect::SetActive { chat: target@, key: all[i].key@ })
                &&& a.ask matches Ask::Finish(Ok(t))
            }
        }),
{
    let number = text::decimal((i + 1) as nat);
    lemma_numeral_word((i + 1) as nat);
    reveal_strlit("archive");
    reveal_strlit("unarchive");
    assert(number[0] <= '9');
    let line = crate::gateway::reports::session_lines(all, key)[i];
    let head = number + ". "@ + all[i].title();
    assert(line.subrange(0, head.len() as int) =~= head);
}

/// The number that stands before a model in the list is the number by which the session gets that
/// model.
pub proof fn law_model_number(
    key: Seq<char>,
    models: Seq<JsonView>,
    current: Option<Seq<char>>,
    h: Seq<Answer>,
    k: int,
    i: int,
    id: Seq<char>,
)
    requires
        0 <= i < models.len(),
        models.len() <= usize::MAX,
        models[i].text_at("id"@) == Some(id),
        k >= h.len(),
    ensures
        is_work(
            dispatch::model_choice(text::decimal((i + 1) as nat), key, models, current, h, k).ask,
            Ask::PatchModel { key, model: id },
        ),
        text::begins(
            crate::gateway::reports::model_line(i, models[i], current),
            text::decimal((i + 1) as nat) + ". "@ + (match models[i].text_at("displayName"@) {
                Some(name) => name,
                None => id,
            }),
        ),
{
    let number = text::decimal((i + 1) as nat);
    lemma_numeral_word((i + 1) as nat);
    reveal_strlit("provider:");
    assert(number[0] <= '9');
    if text::begins(number, "provider:"@) {
        assert(number.subrange(0, 9)[0] == 'p');
    }
    let line = crate::gateway::reports::model_line(i, models[i], current);
    let head = number + ". "@ + crate::gateway::reports::text_or(models[i], "displayName"@, id);
    assert(line.subrange(0, head.len() as int) =~= head);
}

/// The number that stands before an image in the list is the number by which the session gets that
/// image; the first takes the choice back.
pub proof fn law_image_number(
    c: CommandCall,
    key: Seq<char>,
    cached: Vec<crate::gateway::reports::CachedImage>,
    current: Seq<char>,
    h: Seq<Answer>,
    k: int,
    i: int,
)
    requires
        0 <= i <= cached@.len(),
        cached@.len() < usize::MAX,
        0 <= k,
        k + 1 == h.len(),
        h[k] == Answer::Images(cached),
    ensures
        is_work(
            dispatch::sandbox_image(c, key, text::decimal((i + 1) as nat), h, k).ask,
            Ask::PatchImage {
                key,
                image: if i == 0 {
                    ""@
                } else {
                    cached@[i - 1].tag@
                },
            },
        ),
        text::begins(
            crate::gateway::reports::image_line(i, c.default_image@, cached@, current),
            text::decimal((i + 1) as nat) + ". "@ + (if i == 0 {
                c.default_image@
            } else {
                cached@[i - 1].tag@
            }),
        ),
{
    lemma_numeral_word((i + 1) as nat);
    let line = crate::gateway::reports::image_line(i, c.default_image@, cached@, current);
    let head = text::decimal((i + 1) as nat) + ". "@ + (if i == 0 {
        c.default_image@
    } else {
        cached@[i - 1].tag@
    });
    assert(line.subrange(0, head.len() as int) =~= head);
}

// ---- handing a chat over ----

proof fn lemma_agents_prefix(c: CommandCall, h: Seq<Answer>, n: int)
    requires
        h.len() > 0,
        n <= h.len(),
        dispatch::agents_allowed(c, h, 1) matches AgentsView::Ready(d, agents, k1) && k1 <= n,
    ensures
        dispatch::agents_allowed(c, h.take(n), 1) == dispatch::agents_allowed(c, h, 1),
{
    let p = h.take(n);
    assert forall|i: int| 0 <= i < n implies #[trigger] p[i] == h[i] by {}
}

proof fn lemma_current_prefix(has_agents: bool, key: Seq<char>, h: Seq<Answer>, k: int, n: int)
    requires
        0 <= k,
        n <= h.len(),
        sessions::current_agent(has_agents, key, h, k) matches Progress::Ready(a, k2) && k2 <= n,
    ensures
        sessions::current_agent(has_agents, key, h.take(n), k) == sessions::current_agent(
            has_agents,
            key,
            h,
            k,
        ),
{
    let p = h.take(n);
    assert forall|i: int| 0 <= i < n implies #[trigger] p[i] == h[i] by {}
}

/// Where a hand-off in a mode leads: it stays, it goes to the session that was created, or to the
/// copy that was made.
pub open spec fn leads_to(c: CommandCall, h: Seq<Answer>, mode: HandoffMode, key: Seq<char>) -> bool {
    match mode {
        HandoffMode::SameSession => key == session_of(c, h),
        HandoffMode::NewSession => key == c.fresh_key@,
        HandoffMode::ForkSession => is_copy(h, key),
    }
}

/// When the agent of a hand-off is assigned, after the first `k` answers: at once in the same
/// session, after three answers for a new one, after one for a copy.
pub open spec fn assigned_at(mode: HandoffMode, k: int) -> int {
    match mode {
        HandoffMode::SameSession => k,
        HandoffMode::NewSession => k + 3,
        HandoffMode::ForkSession => k + 1,
    }
}

proof fn lemma_by_mode_done(
    c: CommandCall,
    d: dispatch::Handing<Seq<char>>,
    h: Seq<Answer>,
    k: int,
    t: Seq<char>,
) -> (to: Seq<char>)
    requires
        0 < k <= h.len(),
        d.key == session_of(c, h),
        dispatch::handoff_by_mode(c, d, h, k).ask == Ask::<Seq<char>, Seq<Seq<char>>>::Finish(Ok(t)),
    ensures
        k <= assigned_at(d.mode, k) < h.len(),
        worked(h[assigned_at(d.mode, k)]),
        is_work(
            dispatch::handoff_by_mode(c, d, h.take(assigned_at(d.mode, k)), k).ask,
            Ask::AssignAgent { key: to, agent: d.to_id },
        ),
        leads_to(c, h, d.mode, to),
        t == "Handoff to "@ + d.to_name + " ["@ + d.to_id + "] via "@ + d.mode.name()
            + ". Session: "@ + to + (if d.note.len() == 0 {
            ""@
        } else {
            "\nNote: "@ + d.note
        }),
{
    let n = assigned_at(d.mode, k);
    match d.mode {
        HandoffMode::SameSession => d.key,
        HandoffMode::NewSession => {
            assert(n < h.len());
            let p = h.take(n);
            assert(p[k] == h[k] && p[k + 1] == h[k + 1] && p[k + 2] == h[k + 2]);
            c.fresh_key@
        },
        HandoffMode::ForkSession => {
            assert(n < h.len());
            let p = h.take(n);
            assert(p[k] == h[k]);
            let to = copy_in(h[k])->0;
            assert(copy_in(h[k]) == Some(to));
            to
        },
    }
}

/// Whether the text about a hand-off that is done names the agent that took over and the session
/// that it leads to.
pub open spec fn tells_of(
    h: Seq<Answer>,
    agent: Seq<char>,
    mode: HandoffMode,
    note: Seq<char>,
    to: Seq<char>,
    t: Seq<char>,
) -> bool {
    exists|j: int, i: int|
        0 <= j < h.len() && 0 <= i < agents_in(h[j]).len() && (#[trigger] agents_in(h[j])[i]).id@
            == agent && t == "Handoff to "@ + agents_in(h[j])[i].name@ + " ["@ + agent + "] via "@
            + mode.name() + ". Session: "@ + to + (if note.len() == 0 {
            ""@
        } else {
            "\nNote: "@ + note
        })
}

/// A hand-off succeeds only after the session that it leads to was given to the agent that the first
/// word of the arguments names, and that work succeeded. The user is told of that agent and of that
/// session.
#[verifier::rlimit(60)]
pub proof fn law_handoff_done(
    c: CommandCall,
    h: Seq<Answer>,
    t: Seq<char>,
    mode: HandoffMode,
    selector: Seq<char>,
    note: Seq<char>,
)
    requires
        c.name@ == "handoff"@,
        c.args@.len() > 0,
        h.len() > 0,
        commands::handoff_args_of(c.args@) == Ok::<
            (Seq<char>, HandoffMode, Seq<char>),
            ChannelError<Seq<char>>,
        >((selector, mode, note)),
        dispatch::next_step(c, h).ask == Ask::<Seq<char>, Seq<Seq<char>>>::Finish(Ok(t)),
    ensures
        exists|n: int, to: Seq<char>|
            0 < n < h.len() && worked(h[n]) && #[trigger] is_work(
                asked_before(c, h, n),
                Ask::AssignAgent { key: to, agent: text::lower_of(text::words_of(c.args@)[0]) },
            ) && leads_to(c, h, mode, to) && tells_of(
                h,
                text::lower_of(text::words_of(c.args@)[0]),
                mode,
                note,
                to,
                t,
            ),
{
    lemma_command_names();
    let key = session_of(c, h);
    let agent = text::lower_of(text::words_of(c.args@)[0]);
    if let Answer::Key(switched) = h[0] {
        assert(dispatch::session_in(c.target, switched) == key);
    }
    assert(dispatch::next_step(c, h) == dispatch::handoff_command(c, key, h, 1));
    if let AgentsView::Ready(default_id, agents, k1) = dispatch::agents_allowed(c, h, 1) {
        assert(agents == agents_in(h[k1 - 1]));
        if let Progress::Ready(current, k2) = sessions::current_agent(c.has_agents, key, h, k1) {
            lemma_chosen(agents, selector);
            lemma_word_trimmed(c.args@);
            if let Ok(i) = commands::agent_choice(agents, selector) {
                let d = dispatch::Handing {
                    key,
                    from: current,
                    to_id: agents[i].id@,
                    to_name: agents[i].name@,
                    mode,
                    note,
                };
                let to = lemma_by_mode_done(c, d, h, k2, t);
                let n = assigned_at(mode, k2);
                lemma_agents_prefix(c, h, n);
                lemma_current_prefix(c.has_agents, key, h, k1, n);
                assert(h.take(n)[0] == h[0]);
                assert(asked_before(c, h, n) == dispatch::handoff_by_mode(c, d, h.take(n), k2).ask);
                assert(agents_in(h[k1 - 1])[i].id@ == agent);
                assert(is_work(asked_before(c, h, n), Ask::AssignAgent { key: to, agent }));
            }
        }
    }
}

/// The session that an agent is assigned to in a hand-off is the one that the hand-off leads to.
#[verifier::rlimit(60)]
pub proof fn law_handoff_assigns(
    c: CommandCall,
    h: Seq<Answer>,
    mode: HandoffMode,
    selector: Seq<char>,
    note: Seq<char>,
)
    requires
        c.name@ == "handoff"@,
        h.len() > 0,
        commands::handoff_args_of(c.args@) == Ok::<
            (Seq<char>, HandoffMode, Seq<char>),
            ChannelError<Seq<char>>,
        >((selector, mode, note)),
    ensures
        dispatch::next_step(c, h).ask matches Ask::AssignAgent { key, agent } ==> leads_to(
            c,
            h,
            mode,
            key,
        ) && agent == text::lower_of(text::words_of(c.args@)[0]) && is_listed(h, agent),
{
    law_command_work(c, h);
    lemma_command_names();
    let key = session_of(c, h);
    if let Answer::Key(switched) = h[0] {
        assert(dispatch::session_in(c.target, switched) == key);
    }
    if mode == HandoffMode::ForkSession {
        if let AgentsView::Ready(default_id, agents, k1) = dispatch::agents_allowed(c, h, 1) {
            if let Progress::Ready(current, k2) = sessions::current_agent(c.has_agents, key, h, k1) {
                if k2 < h.len() {
                    assert(copy_in(h[k2]) == copy_in(h[k2]));
                }
            }
        }
    }
}

/// Whether an agent speaks in a session, by what was answered: the session has it, or it is the
/// default one.
pub open spec fn speaks(h: Seq<Answer>, agent: Seq<char>) -> bool {
    ||| agent == "main"@
    ||| exists|j: int| 0 <= j < h.len() && #[trigger] agent_in(h[j]) == Some(agent)
}

/// The agent that an answer tells of.
pub open spec fn agent_in(a: Answer) -> Option<Seq<char>> {
    match a {
        Answer::Session(Some(e)) => match e.agent_id {
            Some(id) => Some(text::trim_of(id@)),
            None => None,
        },
        Answer::Agent(Some(id)) => Some(id@),
        _ => None,
    }
}

/// What the next agent is told of a hand-off: the note and the mode of the command, and who hands
/// over, which is the agent that speaks in the session that is left.
#[verifier::rlimit(60)]
pub proof fn law_handoff_packet(
    c: CommandCall,
    h: Seq<Answer>,
    i: int,
    mode: HandoffMode,
    selector: Seq<char>,
    note: Seq<char>,
)
    requires
        c.name@ == "handoff"@,
        h.len() > 0,
        commands::handoff_args_of(c.args@) == Ok::<
            (Seq<char>, HandoffMode, Seq<char>),
            ChannelError<Seq<char>>,
        >((selector, mode, note)),
        0 <= i < dispatch::next_step(c, h).effects.len(),
    ensures
        dispatch::next_step(c, h).effects[i] matches Effect::StorePacket { key, packet } ==> {
            &&& packet.note == note
            &&& packet.mode == mode
            &&& speaks(h, packet.from_agent_id)
            &&& leads_to(c, h, mode, key)
        },
{
    law_command_changes(c, h);
    lemma_command_names();
    let key = session_of(c, h);
    if let Answer::Key(switched) = h[0] {
        assert(dispatch::session_in(c.target, switched) == key);
    }
    assert(change_fits(c, key, h, dispatch::next_step(c, h).effects[i]));
    if let AgentsView::Ready(default_id, agents, k1) = dispatch::agents_allowed(c, h, 1) {
        if let Progress::Ready(current, k2) = sessions::current_agent(c.has_agents, key, h, k1) {
            assert(agent_in(h[k1]) == agent_in(h[k1]));
            if k1 + 1 < h.len() {
                assert(agent_in(h[k1 + 1]) == agent_in(h[k1 + 1]));
            }
            assert(speaks(h, current));
            if mode == HandoffMode::NewSession {
                if let Answer::Session(source) = h[k2 + 2] {
                    assert forall|j: int|
                        0 <= j < dispatch::inherited_settings(
                            c.fresh_key@,
                            source,
                        ).len() implies !(#[trigger] dispatch::inherited_settings(
                        c.fresh_key@,
                        source,
                    )[j] is StorePacket) by {
                        lemma_inherited(c.fresh_key@, source, j);
                    }
                }
            }
        }
    }
}

/// What must be done before the agent of a hand-off is assigned: a new session takes over the model,
/// the project and the tool setting of the session that is left, each where it is set; a copy is
/// bound to the chat.
#[verifier::rlimit(60)]
pub proof fn law_handoff_inherits(
    c: CommandCall,
    h: Seq<Answer>,
    mode: HandoffMode,
    selector: Seq<char>,
    note: Seq<char>,
    to: Seq<char>,
    agent: Seq<char>,
)
    requires
        c.name@ == "handoff"@,
        h.len() > 0,
        commands::handoff_args_of(c.args@) == Ok::<
            (Seq<char>, HandoffMode, Seq<char>),
            ChannelError<Seq<char>>,
        >((selector, mode, note)),
        is_work(dispatch::next_step(c, h).ask, Ask::AssignAgent { key: to, agent }),
    ensures
        mode == HandoffMode::NewSession ==> (entry_in(h.last()) matches Some(from) ==> {
            &&& from.model matches Some(m) ==> dispatch::next_step(c, h).effects.contains(
                Effect::SetModel { key: to, model: m@ },
            )
            &&& from.project_id matches Some(p) ==> dispatch::next_step(c, h).effects.contains(
                Effect::SetProject { key: to, project: p@ },
            )
            &&& from.mcp_disabled matches Some(b) ==> dispatch::next_step(c, h).effects.contains(
                Effect::SetMcpDisabled { key: to, disabled: b },
            )
        }),
        mode == HandoffMode::ForkSession ==> (c.binding matches Ok(b) ==> dispatch::next_step(
            c,
            h,
        ).effects.contains(Effect::SetBinding { key: to, binding: b@ })),
{
    lemma_command_names();
    let key = session_of(c, h);
    let all = dispatch::next_step(c, h).effects;
    if let Answer::Key(switched) = h[0] {
        assert(dispatch::session_in(c.target, switched) == key);
    }
    if mode == HandoffMode::NewSession {
        if let Some(from) = entry_in(h.last()) {
            assert(all == dispatch::inherited_settings(c.fresh_key@, Some(from)));
            lemma_inherits(c.fresh_key@, from);
        }
    }
    if mode == HandoffMode::ForkSession {
        if let Ok(b) = c.binding {
            assert(all[0] == (Effect::SetBinding { key: to, binding: b@ }));
        }
    }
}

proof fn lemma_inherits(key: Seq<char>, from: SessionEntry)
    ensures
        from.model matches Some(m) ==> dispatch::inherited_settings(key, Some(from)).contains(
            Effect::SetModel { key, model: m@ },
        ),
        from.project_id matches Some(p) ==> dispatch::inherited_settings(key, Some(from)).contains(
            Effect::SetProject { key, project: p@ },
        ),
        from.mcp_disabled matches Some(b) ==> dispatch::inherited_settings(key, Some(from)).contains(
            Effect::SetMcpDisabled { key, disabled: b },
        ),
{
    let all = dispatch::inherited_settings(key, Some(from));
    let a = if from.model is Some {
        1int
    } else {
        0
    };
    let b = if from.project_id is Some {
        1int
    } else {
        0
    };
    if let Some(m) = from.model {
        assert(all[0] == (Effect::SetModel { key, model: m@ }));
    }
    if let Some(p) = from.project_id {
        assert(all[a] == (Effect::SetProject { key, project: p@ }));
    }
    if let Some(d) = from.mcp_disabled {
        assert(all[a + b] == (Effect::SetMcpDisabled { key, disabled: d }));
    }
}

proof fn lemma_agents_extend(c: CommandCall, h: Seq<Answer>, n: int)
    requires
        0 < n <= h.len(),
        dispatch::agents_allowed(c, h.take(n), 1) is Ready,
    ensures
        dispatch::agents_allowed(c, h, 1) == dispatch::agents_allowed(c, h.take(n), 1),
{
    let p = h.take(n);
    assert forall|i: int| 0 <= i < n implies #[trigger] p[i] == h[i] by {}
}

proof fn lemma_current_extend(has_agents: bool, key: Seq<char>, h: Seq<Answer>, k: int, n: int)
    requires
        0 <= k <= n <= h.len(),
        sessions::current_agent(has_agents, key, h.take(n), k) is Ready,
    ensures
        sessions::current_agent(has_agents, key, h, k) == sessions::current_agent(
            has_agents,
            key,
            h.take(n),
            k,
        ),
{
    let p = h.take(n);
    assert forall|i: int| 0 <= i < n implies #[trigger] p[i] == h[i] by {}
}

/// A hand-off to another session enters it as soon as the agent was assigned: the session becomes the
/// active one of the chat. The time is asked for what the next agent is told, or it is over where
/// nothing can be stored.
#[verifier::rlimit(60)]
pub proof fn law_handoff_enters(
    c: CommandCall,
    h: Seq<Answer>,
    mode: HandoffMode,
    selector: Seq<char>,
    note: Seq<char>,
    to: Seq<char>,
    agent: Seq<char>,
)
    requires
        c.name@ == "handoff"@,
        h.len() > 1,
        commands::handoff_args_of(c.args@) == Ok::<
            (Seq<char>, HandoffMode, Seq<char>),
            ChannelError<Seq<char>>,
        >((selector, mode, note)),
        is_work(asked_before(c, h, h.len() - 1), Ask::AssignAgent { key: to, agent }),
        worked(h.last()),
    ensures
        mode != HandoffMode::SameSession ==> dispatch::next_step(c, h).effects.contains(
            Effect::SetActive { chat: c.target@, key: to },
        ),
        mode == HandoffMode::SameSession ==> dispatch::next_step(c, h).effects.contains(
            Effect::Announce { change: Change::Patched, key: to, version: None },
        ),
        c.has_state_store ==> dispatch::next_step(c, h).ask is Now,
        !c.has_state_store ==> (dispatch::next_step(c, h).ask matches Ask::Finish(r) && r is Ok),
{
    lemma_command_names();
    let n = h.len() - 1;
    let p = h.take(n);
    assert forall|i: int| 0 <= i < n implies #[trigger] p[i] == h[i] by {}
    let key = session_of(c, h);
    if let Answer::Key(switched) = h[0] {
        assert(dispatch::session_in(c.target, switched) == key);
    }
    if let AgentsView::Ready(default_id, agents, k1) = dispatch::agents_allowed(c, p, 1) {
        lemma_agents_extend(c, h, n);
        if let Progress::Ready(current, k2) = sessions::current_agent(c.has_agents, key, p, k1) {
            lemma_current_extend(c.has_agents, key, h, k1, n);
            if let Ok(i) = commands::agent_choice(agents, selector) {
                let d = dispatch::Handing {
                    key,
                    from: current,
                    to_id: agents[i].id@,
                    to_name: agents[i].name@,
                    mode,
                    note,
                };
                assert(dispatch::next_step(c, h) == dispatch::handoff_by_mode(c, d, h, k2));
                assert(dispatch::next_step(c, p) == dispatch::handoff_by_mode(c, d, p, k2));
                let all = dispatch::next_step(c, h).effects;
                assert(assigned_at(mode, k2) == n);
                if mode != HandoffMode::SameSession {
                    assert(all[0] == (Effect::SetActive { chat: c.target@, key: to }));
                } else {
                    assert(all[0] == (Effect::Announce {
                        change: Change::Patched,
                        key: to,
                        version: None,
                    }));
                }
            }
        }
    }
}

/// A hand-off that asked for the time stores what the next agent is told, and is over.
#[verifier::rlimit(60)]
pub proof fn law_handoff_remembers(c: CommandCall, h: Seq<Answer>, now: u64)
    requires
        c.name@ == "handoff"@,
        h.len() > 1,
        asked_before(c, h, h.len() - 1) is Now,
        h.last() == Answer::Time(now),
    ensures
        dispatch::next_step(c, h).effects.len() == 1,
        dispatch::next_step(c, h).effects[0] is StorePacket,
        dispatch::next_step(c, h).ask matches Ask::Finish(r) && r is Ok,
{
    lemma_command_names();
    let n = h.len() - 1;
    let p = h.take(n);
    assert forall|i: int| 0 <= i < n implies #[trigger] p[i] == h[i] by {}
    let key = session_of(c, h);
    if let Answer::Key(switched) = h[0] {
        assert(dispatch::session_in(c.target, switched) == key);
    }
    if let AgentsView::Ready(default_id, agents, k1) = dispatch::agents_allowed(c, p, 1) {
        lemma_agents_extend(c, h, n);
        if let Progress::Ready(current, k2) = sessions::current_agent(c.has_agents, key, p, k1) {
            lemma_current_extend(c.has_agents, key, h, k1, n);
        }
    }
}

// ---- other commands that change a session ----

/// `agent` gives the session of the chat to the agent that the arguments name, and says so only after
/// that worked.
#[verifier::rlimit(60)]
pub proof fn law_agent_done(c: CommandCall, h: Seq<Answer>, t: Seq<char>)
    requires
        c.name@ == "agent"@,
        c.args@.len() > 0,
        h.len() > 0,
        dispatch::next_step(c, h).ask == Ask::<Seq<char>, Seq<Seq<char>>>::Finish(Ok(t)),
    ensures
        text::begins(t, "Agent switched to: "@),
        exists|n: int|
            0 < n < h.len() && worked(h[n]) && #[trigger] is_work(
                asked_before(c, h, n),
                Ask::AssignAgent {
                    key: session_of(c, h),
                    agent: text::lower_of(text::trim_of(c.args@)),
                },
            ),
{
    lemma_command_names();
    let key = session_of(c, h);
    if let Answer::Key(switched) = h[0] {
        assert(dispatch::session_in(c.target, switched) == key);
    }
    if let AgentsView::Ready(default_id, agents, k1) = dispatch::agents_allowed(c, h, 1) {
        lemma_chosen(agents, c.args@);
        let n = k1 + 1;
        if let Ok(i) = commands::agent_choice(agents, c.args@) {
            lemma_agents_prefix(c, h, n);
            assert(h.take(n)[0] == h[0]);
            assert(h.take(n)[k1] == h[k1]);
            let head = "Agent switched to: "@;
            assert(t.subrange(0, head.len() as int) =~= head);
            assert(is_work(
                asked_before(c, h, n),
                Ask::AssignAgent {
                    key: session_of(c, h),
                    agent: text::lower_of(text::trim_of(c.args@)),
                },
            ));
        }
    }
}

/// `model` with a number patches the model of the session, and says so only after that worked.
#[verifier::rlimit(60)]
pub proof fn law_model_done(c: CommandCall, h: Seq<Answer>, t: Seq<char>, n: nat)
    requires
        c.name@ == "model"@,
        text::number_of(c.args@) == Some(n),
        h.len() > 0,
        dispatch::next_step(c, h).ask == Ask::<Seq<char>, Seq<Seq<char>>>::Finish(Ok(t)),
    ensures
        h.len() > 3,
        h[3] matches Answer::Document(r) && r is Ok,
        asked_before(c, h, 3) is PatchModel,
        text::begins(t, "Model switched to: "@),
{
    lemma_command_names();
    let key = session_of(c, h);
    if let Answer::Key(switched) = h[0] {
        assert(dispatch::session_in(c.target, switched) == key);
    }
    reveal_strlit("provider:");
    if text::begins(c.args@, "provider:"@) {
        assert(c.args@.subrange(0, 9)[0] == 'p');
        assert(c.args@.subrange(0, 9)[0] == c.args@[0]);
        assert(!text::all_digits(c.args@));
    }
    assert(c.args@.len() > 0);
    if h.len() >= 3 {
        assert(h.take(3)[0] == h[0] && h.take(3)[1] == h[1] && h.take(3)[2] == h[2]);
    }
    let head = "Model switched to: "@;
    assert(t.subrange(0, head.len() as int) =~= head);
}

/// `new` succeeds only after the session was created, and bound and made the active one of the chat
/// on the way, and it is announced.
#[verifier::rlimit(60)]
pub proof fn law_new_done(c: CommandCall, h: Seq<Answer>, t: Seq<char>)
    requires
        c.name@ == "new"@,
        h.len() > 0,
        dispatch::next_step(c, h).ask == Ask::<Seq<char>, Seq<Seq<char>>>::Finish(Ok(t)),
    ensures
        h.len() > 3,
        asked_before(c, h, 2) matches Ask::CreateSession { key, label } && key == c.fresh_key@,
        worked(h[2]),
        c.binding matches Ok(b) && dispatch::next_step(c, h.take(3)).effects.contains(
            Effect::SetBinding { key: c.fresh_key@, binding: b@ },
        ),
        exists|n: int|
            3 < n < h.len() && #[trigger] dispatch::next_step(c, h.take(n)).effects.contains(
                Effect::SetActive { chat: c.target@, key: c.fresh_key@ },
            ),
        dispatch::next_step(c, h).effects.contains(
            Effect::Announce { change: Change::Created, key: c.fresh_key@, version: None },
        ),
{
    lemma_command_names();
    let key = session_of(c, h);
    if let Answer::Key(switched) = h[0] {
        assert(dispatch::session_in(c.target, switched) == key);
    }
    assert(dispatch::next_step(c, h) == dispatch::new_command(c, key, h, 1));
    assert(h.len() > 3);
    assert(h.take(2)[0] == h[0] && h.take(2)[1] == h[1]);
    assert(h.take(3)[0] == h[0] && h.take(3)[1] == h[1] && h.take(3)[2] == h[2]);
    if let Ok(b) = c.binding {
        let e = dispatch::next_step(c, h.take(3)).effects;
        assert(e[0] == (Effect::SetBinding { key: c.fresh_key@, binding: b@ }));
    }
    let all = dispatch::next_step(c, h).effects;
    assert(all.last() == (Effect::Announce {
        change: Change::Created,
        key: c.fresh_key@,
        version: None,
    }));
    assert(all[all.len() - 1] == all.last());
    lemma_new_enters(c, key, h);
}

#[verifier::spinoff_prover]
#[verifier::rlimit(60)]
proof fn lemma_new_enters(c: CommandCall, key: Seq<char>, h: Seq<Answer>)
    requires
        c.name@ == "new"@,
        h.len() > 3,
        key == session_of(c, h),
        h[0] is Key,
        c.ready,
        c.has_metadata,
        dispatch::new_command(c, key, h, 1).ask matches Ask::Finish(r) && r is Ok,
    ensures
        exists|n: int|
            3 < n < h.len() && #[trigger] dispatch::next_step(c, h.take(n)).effects.contains(
                Effect::SetActive { chat: c.target@, key: c.fresh_key@ },
            ),
{
    lemma_command_names();
    let e = Effect::SetActive { chat: c.target@, key: c.fresh_key@ };
    if let Answer::Key(switched) = h[0] {
        assert(dispatch::session_in(c.target, switched) == key);
    }
    assert(h.len() > 5);
    let p = h.take(5);
    assert forall|i: int| 0 <= i < 5 implies #[trigger] p[i] == h[i] by {}
    let all = dispatch::next_step(c, p).effects;
    if all.len() == 2 {
        assert(all[1] == e);
        assert(all.contains(e));
    } else {
        assert(h.len() > 6);
        let q = h.take(6);
        assert forall|i: int| 0 <= i < 6 implies #[trigger] q[i] == h[i] by {}
        let more = dispatch::next_step(c, q).effects;
        assert(more[1] == e);
        assert(more.contains(e));
    }
}

/// The agent of a new session: that of the old one, where it has one; else that of the account, where
/// its settings name one; else the default one.
#[verifier::rlimit(60)]
pub proof fn law_new_agent(c: CommandCall, h: Seq<Answer>, i: int, agent: Seq<char>)
    requires
        c.name@ == "new"@,
        h.len() > 4,
        0 <= i < dispatch::next_step(c, h).effects.len(),
        dispatch::next_step(c, h).effects[i] == (Effect::SetAgent { key: c.fresh_key@, agent }),
    ensures
        speaks(h, agent) || (h[4] matches Answer::Status(status) && host::config_text(
            host::account_config(status, c.target),
            "agent_id"@,
        ) == Some(agent)),
        entry_in(h[3]) matches Some(old) ==> (old.agent_id matches Some(id) ==> (text::trim_of(id@).len()
            > 0 ==> agent == text::trim_of(id@))),
{
    lemma_command_names();
    assert(agent_in(h[3]) == agent_in(h[3]));
    if h.len() > 5 {
        assert(agent_in(h[5]) == agent_in(h[5]));
    }
}

} // verus!
