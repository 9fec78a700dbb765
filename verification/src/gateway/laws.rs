//! What holds of the commands and messages of a chat, whatever the host answers.

use crate::channel;
use crate::channel::ChannelError;
use crate::gateway::chat;
use crate::gateway::chat::{ChannelAttachment, ChatCall};
use crate::gateway::commands;
use crate::gateway::commands::{AgentPersona, HandoffMode, SessionsCommand};
use crate::gateway::dispatch;
use crate::gateway::dispatch::CommandCall;
use crate::gateway::host;
use crate::gateway::host::{ActionView, Answer, Ask, Effect, Pending, Progress};
use crate::gateway::reports::SessionEntry;
use crate::gateway::sessions;
use crate::text;
use vstd::prelude::*;

verus! {

// ---- choosing an agent ----

proof fn lemma_agent_from(agents: Seq<AgentPersona>, id: Seq<char>, i: int)
    requires
        0 <= i,
    ensures
        commands::agent_from(agents, id, i) matches Some(n) ==> i <= n < agents.len()
            && agents[n].id@ == id && (forall|j: int| i <= j < n ==> (#[trigger] agents[j]).id@ != id),
        commands::agent_from(agents, id, i) is None ==> (forall|j: int|
            i <= j < agents.len() ==> (#[trigger] agents[j]).id@ != id),
    decreases agents.len() - i,
{
    if i < agents.len() && agents[i].id@ != id {
        lemma_agent_from(agents, id, i + 1);
    }
}

/// An agent is chosen by its id and by nothing else, its aliases least of all: the first agent
/// with that id, and none where no agent has it.
pub proof fn law_chosen_by_id(agents: Seq<AgentPersona>, selector: Seq<char>)
    ensures
        commands::agent_choice(agents, selector) matches Ok(i) ==> 0 <= i < agents.len()
            && agents[i].id@ == commands::selector_of(text::trim_of(selector)),
        commands::agent_choice(agents, selector) is Err && text::trim_of(selector).len() > 0
            ==> (forall|j: int|
            0 <= j < agents.len() ==> (#[trigger] agents[j]).id@ != commands::selector_of(
                text::trim_of(selector),
            )),
{
    lemma_agent_from(agents, commands::selector_of(text::trim_of(selector)), 0);
}

/// On Feishu, where the account does not allow it, neither `agent` nor `handoff` does anything.
pub proof fn law_switch_refused(c: CommandCall, h: Seq<Answer>, switched: Option<String>, status: Option<crate::json::Json>)
    requires
        c.ready,
        c.has_metadata,
        c.target.channel_type is Feishu,
        c.name@ == "agent"@ || c.name@ == "handoff"@,
        h.len() > 1,
        h[0] == Answer::Key(switched),
        h[1] == Answer::Status(status),
        host::config_truth(host::account_config(status, c.target), "allow_agent_switch"@) != Some(
            true,
        ),
    ensures
        dispatch::next_step(c, h) == host::fail(
            ChannelError::InvalidInput("agent switching is disabled for this bot"@),
        ),
{
    lemma_names();
}

proof fn lemma_names()
    ensures
        "agent"@ != "new"@,
        "agent"@ != "clear"@,
        "agent"@ != "compact"@,
        "agent"@ != "context"@,
        "agent"@ != "sessions"@,
        "handoff"@ != "new"@,
        "handoff"@ != "clear"@,
        "handoff"@ != "compact"@,
        "handoff"@ != "context"@,
        "handoff"@ != "sessions"@,
        "handoff"@ != "agent"@,
        "sessions"@ != "new"@,
        "sessions"@ != "clear"@,
        "sessions"@ != "compact"@,
        "sessions"@ != "context"@,
{
    reveal_strlit("agent");
    reveal_strlit("handoff");
    reveal_strlit("sessions");
    reveal_strlit("new");
    reveal_strlit("clear");
    reveal_strlit("compact");
    reveal_strlit("context");
    assert("agent"@[0] == 'a');
    assert("handoff"@[0] == 'h');
    assert("sessions"@[0] == 's');
    assert("new"@[0] == 'n');
    assert("clear"@[0] == 'c');
    assert("compact"@[0] == 'c');
    assert("context"@[0] == 'c');
}

// ---- handing a chat over ----

/// Whether a word of a hand-off is plain: no flag and no mode.
pub open spec fn is_plain(w: Seq<char>) -> bool {
    !text::begins(w, "--"@) && commands::mode_of(w) is None
}

proof fn lemma_plain_words(words: Seq<Seq<char>>, i: int, note: Seq<Seq<char>>)
    requires
        0 <= i <= words.len(),
        forall|j: int| i <= j < words.len() ==> is_plain(#[trigger] words[j]),
    ensures
        commands::handoff_words(words, i, None, note) == Ok::<
            (Option<HandoffMode>, Seq<Seq<char>>),
            ChannelError<Seq<char>>,
        >((None, note + words.skip(i))),
    decreases words.len() - i,
{
    if i < words.len() {
        assert(is_plain(words[i]));
        reveal_strlit("--mode=");
        reveal_strlit("--mode");
        reveal_strlit("--");
        assert("--mode="@.subrange(0, 2) =~= "--"@);
        assert("--mode"@.subrange(0, 2) =~= "--"@);
        if text::begins(words[i], "--mode="@) {
            assert(words[i].subrange(0, 2) =~= words[i].subrange(0, 7).subrange(0, 2));
        }
        lemma_plain_words(words, i + 1, note.push(words[i]));
        assert(note.push(words[i]) + words.skip(i + 1) =~= note + words.skip(i));
    } else {
        assert(note + words.skip(i) =~= note);
    }
}

/// A hand-off that names no mode goes to a new session, with the other words as the note.
pub proof fn law_handoff_default(args: Seq<char>)
    requires
        text::words_of(args).len() > 0,
        forall|j: int|
            1 <= j < text::words_of(args).len() ==> is_plain(#[trigger] text::words_of(args)[j]),
    ensures
        commands::handoff_args_of(args) == Ok::<
            (Seq<char>, HandoffMode, Seq<char>),
            ChannelError<Seq<char>>,
        >(
            (
                text::words_of(args)[0],
                HandoffMode::NewSession,
                text::trim_of(text::join_of(text::words_of(args).skip(1), " "@)),
            ),
        ),
{
    let words = text::words_of(args);
    lemma_plain_words(words, 1, Seq::empty());
    assert(Seq::<Seq<char>>::empty() + words.skip(1) =~= words.skip(1));
}

proof fn lemma_rest_words(words: Seq<Seq<char>>, i: int, mode: HandoffMode, note: Seq<Seq<char>>)
    requires
        0 <= i <= words.len(),
        forall|j: int| i <= j < words.len() ==> !text::begins(#[trigger] words[j], "--"@),
    ensures
        commands::handoff_words(words, i, Some(mode), note) == Ok::<
            (Option<HandoffMode>, Seq<Seq<char>>),
            ChannelError<Seq<char>>,
        >((Some(mode), note + words.skip(i))),
    decreases words.len() - i,
{
    if i < words.len() {
        assert(!text::begins(words[i], "--"@));
        reveal_strlit("--mode=");
        reveal_strlit("--mode");
        reveal_strlit("--");
        assert("--mode="@.subrange(0, 2) =~= "--"@);
        assert("--mode"@.subrange(0, 2) =~= "--"@);
        if text::begins(words[i], "--mode="@) {
            assert(words[i].subrange(0, 2) =~= words[i].subrange(0, 7).subrange(0, 2));
        }
        lemma_rest_words(words, i + 1, mode, note.push(words[i]));
        assert(note.push(words[i]) + words.skip(i + 1) =~= note + words.skip(i));
    } else {
        assert(note + words.skip(i) =~= note);
    }
}

/// A hand-off that names a mode after `--mode` goes there, with the words after it as the note.
pub proof fn law_handoff_mode(args: Seq<char>, mode: HandoffMode)
    requires
        text::words_of(args).len() >= 3,
        text::words_of(args)[1] == "--mode"@,
        commands::mode_of(text::words_of(args)[2]) == Some(mode),
        forall|j: int|
            3 <= j < text::words_of(args).len() ==> !text::begins(
                #[trigger] text::words_of(args)[j],
                "--"@,
            ),
    ensures
        commands::handoff_args_of(args) == Ok::<
            (Seq<char>, HandoffMode, Seq<char>),
            ChannelError<Seq<char>>,
        >(
            (
                text::words_of(args)[0],
                mode,
                text::trim_of(text::join_of(text::words_of(args).skip(3), " "@)),
            ),
        ),
{
    let words = text::words_of(args);
    reveal_strlit("--mode=");
    reveal_strlit("--mode");
    assert(!text::begins(words[1], "--mode="@));
    lemma_rest_words(words, 3, mode, Seq::empty());
    assert(Seq::<Seq<char>>::empty() + words.skip(3) =~= words.skip(3));
}

/// The session that an effect of a hand-off changes.
pub open spec fn changes_only(e: Effect<Seq<char>>, key: Seq<char>) -> bool {
    match e {
        Effect::SetBinding { key: k, binding } => k == key,
        Effect::SetModel { key: k, model } => k == key,
        Effect::SetProject { key: k, project } => k == key,
        Effect::SetMcpDisabled { key: k, disabled } => k == key,
        Effect::SetActive { chat, key: k } => k == key,
        Effect::Announce { change, key: k, version } => k == key,
        Effect::StorePacket { key: k, packet } => k == key && packet.target_session_key == key,
        _ => false,
    }
}

/// Whether what is asked changes nothing but the session `key`.
pub open spec fn asks_only(a: Ask<Seq<char>, Seq<Seq<char>>>, key: Seq<char>) -> bool {
    match a {
        Ask::CreateSession { key: k, label } => k == key,
        Ask::AssignAgent { key: k, agent } => k == key,
        Ask::ActiveSession { chat } => true,
        Ask::ListSessions { chat } => true,
        Ask::Session { key: k } => true,
        Ask::ChannelStatus => true,
        Ask::DefaultAgent => true,
        Ask::ListAgents => true,
        Ask::Now => true,
        Ask::Finish(r) => true,
        _ => false,
    }
}

/// A hand-off to a new session changes that session only: it is created, gets the agent and every
/// setting, becomes the active one, and is told of the hand-off. The old session stays as it is.
pub proof fn law_handoff_isolated(c: CommandCall, h: Seq<Answer>, i: int)
    requires
        c.name@ == "handoff"@,
        commands::handoff_args_of(c.args@) matches Ok(x) && x.1 == HandoffMode::NewSession,
    ensures
        asks_only(dispatch::next_step(c, h).ask, c.fresh_key@),
        0 <= i < dispatch::next_step(c, h).effects.len() ==> changes_only(
            dispatch::next_step(c, h).effects[i],
            c.fresh_key@,
        ),
{
    lemma_names();
}

/// A message tells its agent of a hand-off only where one is stored for that session, and what it
/// tells is used up by it.
pub proof fn law_told_once(c: ChatCall, key: Seq<char>, message: Seq<char>, h: Seq<Answer>, k: int)
    ensures
        chat::handoff_context(c, key, message, h, k) matches Progress::Ready(b, n) ==> (b.message
            != message ==> {
            &&& b.used_up
            &&& k < h.len()
            &&& h[k] matches Answer::Packet(Pending::Packet(p))
            &&& b.message == chat::with_packet(p@, message)
        }),
{
}

/// What was used up is deleted first, before anything else is done about the message.
pub proof fn law_used_up_deleted(
    c: ChatCall,
    o: chat::Outgoing<Seq<char>, Seq<Seq<char>>>,
    h: Seq<Answer>,
    k: int,
)
    requires
        k >= h.len(),
    ensures
        chat::index_step(c, o, true, h, k).effects.len() > 0,
        chat::index_step(c, o, true, h, k).effects[0] == (Effect::DropPacket { key: o.key }),
{
}

// ---- where replies go ----

/// Whether a text that an effect sends goes to where a message came from, and a message that it
/// shows is shown with what is known of it.
pub open spec fn stays_there(c: ChatCall, e: Effect<Seq<char>>) -> bool {
    match e {
        Effect::SendText { target, text } => target == c.target@,
        Effect::ShowMessage { key, text, index, has_attachments, meta } => meta == c.meta@,
        _ => true,
    }
}

/// Whether all the effects stay where a message came from.
pub open spec fn all_there(c: ChatCall, effects: Seq<Effect<Seq<char>>>) -> bool {
    forall|i: int| 0 <= i < effects.len() ==> stays_there(c, #[trigger] effects[i])
}

/// Whether an action is about the place that a message came from, and sends it with that place and
/// with what is known of it.
pub open spec fn is_there(c: ChatCall, a: ActionView) -> bool {
    &&& all_there(c, a.effects)
    &&& match a.ask {
        Ask::Send { params } => params.target == c.target@ && params.meta == c.meta@,
        Ask::ActiveSession { chat } => chat == c.target@,
        Ask::ListSessions { chat } => chat == c.target@,
        Ask::SaveAttachments { key, target } => target == c.target@,
        _ => true,
    }
}

proof fn lemma_send_there(
    c: ChatCall,
    o: chat::Outgoing<Seq<char>, Seq<Seq<char>>>,
    model: Option<Seq<char>>,
    effects: Seq<Effect<Seq<char>>>,
    h: Seq<Answer>,
    k: int,
)
    requires
        all_there(c, effects),
    ensures
        is_there(c, chat::send_step(c, o, model, effects, h, k)),
{
}

proof fn lemma_model_there(
    c: ChatCall,
    o: chat::Outgoing<Seq<char>, Seq<Seq<char>>>,
    has_model: bool,
    effects: Seq<Effect<Seq<char>>>,
    h: Seq<Answer>,
    k: int,
)
    requires
        all_there(c, effects),
    ensures
        is_there(c, chat::model_step(c, o, has_model, effects, h, k)),
{
    assert forall|m: Option<Seq<char>>, e: Seq<Effect<Seq<char>>>, n: int| all_there(c, e) implies is_there(
        c,
        #[trigger] chat::send_step(c, o, m, e, h, n),
    ) by {
        lemma_send_there(c, o, m, e, h, n);
    }
}

proof fn lemma_model_look_there(
    c: ChatCall,
    o: chat::Outgoing<Seq<char>, Seq<Seq<char>>>,
    effects: Seq<Effect<Seq<char>>>,
    h: Seq<Answer>,
    k: int,
)
    requires
        all_there(c, effects),
    ensures
        is_there(c, chat::model_look(c, o, effects, h, k)),
{
    assert forall|b: bool, e: Seq<Effect<Seq<char>>>, n: int| all_there(c, e) implies is_there(
        c,
        #[trigger] chat::model_step(c, o, b, e, h, n),
    ) by {
        lemma_model_there(c, o, b, e, h, n);
    }
}

proof fn lemma_agent_there(
    c: ChatCall,
    o: chat::Outgoing<Seq<char>, Seq<Seq<char>>>,
    h: Seq<Answer>,
    k: int,
)
    ensures
        is_there(c, chat::agent_step(c, o, h, k)),
{
    assert forall|e: Seq<Effect<Seq<char>>>, n: int| all_there(c, e) implies is_there(
        c,
        #[trigger] chat::model_look(c, o, e, h, n),
    ) by {
        lemma_model_look_there(c, o, e, h, n);
    }
}

proof fn lemma_bound_there(
    c: ChatCall,
    o: chat::Outgoing<Seq<char>, Seq<Seq<char>>>,
    effects: Seq<Effect<Seq<char>>>,
    h: Seq<Answer>,
    k: int,
)
    requires
        all_there(c, effects),
    ensures
        is_there(c, chat::bound_step(c, o, effects, h, k)),
{
    assert forall|e: Seq<Effect<Seq<char>>>, n: int| all_there(c, e) implies is_there(
        c,
        #[trigger] chat::model_look(c, o, e, h, n),
    ) by {
        lemma_model_look_there(c, o, e, h, n);
    }
    lemma_agent_there(c, o, h, k + 1);
}

proof fn lemma_binding_there(
    c: ChatCall,
    o: chat::Outgoing<Seq<char>, Seq<Seq<char>>>,
    binding: Seq<char>,
    effects: Seq<Effect<Seq<char>>>,
    h: Seq<Answer>,
    k: int,
)
    requires
        all_there(c, effects),
    ensures
        is_there(c, chat::binding_step(c, o, binding, effects, h, k)),
{
    assert forall|e: Seq<Effect<Seq<char>>>, n: int| all_there(c, e) implies is_there(
        c,
        #[trigger] chat::bound_step(c, o, e, h, n),
    ) by {
        lemma_bound_there(c, o, e, h, n);
    }
}

proof fn lemma_shown_there(
    c: ChatCall,
    o: chat::Outgoing<Seq<char>, Seq<Seq<char>>>,
    index: u64,
    effects: Seq<Effect<Seq<char>>>,
    h: Seq<Answer>,
    k: int,
)
    requires
        all_there(c, effects),
    ensures
        is_there(c, chat::shown_step(c, o, index, effects, h, k)),
{
    assert forall|e: Seq<Effect<Seq<char>>>, n: int| all_there(c, e) implies is_there(
        c,
        #[trigger] chat::model_look(c, o, e, h, n),
    ) by {
        lemma_model_look_there(c, o, e, h, n);
    }
    let shown = effects.push(
        Effect::ShowMessage {
            key: o.key,
            text: o.shown,
            index,
            has_attachments: o.has_attachments,
            meta: c.meta@,
        },
    );
    assert(all_there(c, shown));
    if let Ok(binding) = c.binding {
        lemma_binding_there(c, o, binding@, shown, h, k);
    }
}

proof fn lemma_index_there(
    c: ChatCall,
    o: chat::Outgoing<Seq<char>, Seq<Seq<char>>>,
    used_up: bool,
    h: Seq<Answer>,
    k: int,
)
    ensures
        is_there(c, chat::index_step(c, o, used_up, h, k)),
{
    assert forall|n: u64, e: Seq<Effect<Seq<char>>>, j: int| all_there(c, e) implies is_there(
        c,
        #[trigger] chat::shown_step(c, o, n, e, h, j),
    ) by {
        lemma_shown_there(c, o, n, e, h, j);
    }
}

proof fn lemma_text_there(c: ChatCall, message: Seq<char>, h: Seq<Answer>, k: int)
    ensures
        is_there(c, chat::text_step(c, message, h, k)),
{
    assert forall|o: chat::Outgoing<Seq<char>, Seq<Seq<char>>>, b: bool, n: int| is_there(
        c,
        #[trigger] chat::index_step(c, o, b, h, n),
    ) by {
        lemma_index_there(c, o, b, h, n);
    }
}

proof fn lemma_images_there(
    c: ChatCall,
    key: Seq<char>,
    message: Seq<char>,
    attachments: Seq<ChannelAttachment>,
    saved: Seq<Seq<char>>,
    h: Seq<Answer>,
    k: int,
)
    ensures
        is_there(c, chat::images_step(c, key, message, attachments, saved, h, k)),
{
    assert forall|o: chat::Outgoing<Seq<char>, Seq<Seq<char>>>, b: bool, n: int| is_there(
        c,
        #[trigger] chat::index_step(c, o, b, h, n),
    ) by {
        lemma_index_there(c, o, b, h, n);
    }
}

/// A message goes to the model with the place that it came from, to which the reply will go, and
/// with what is known of it; what the chat is told goes back there, and what is shown of the
/// message is shown with what is known of it.
pub proof fn law_reply_target(
    c: ChatCall,
    message: Seq<char>,
    attachments: Seq<ChannelAttachment>,
    h: Seq<Answer>,
)
    ensures
        is_there(c, chat::chat_step(c, message, h)),
        is_there(c, chat::attachments_step(c, message, attachments, h)),
{
    assert forall|m: Seq<char>, n: int| is_there(c, #[trigger] chat::text_step(c, m, h, n)) by {
        lemma_text_there(c, m, h, n);
    }
    assert forall|key: Seq<char>, saved: Seq<Seq<char>>, n: int| is_there(
        c,
        #[trigger] chat::images_step(c, key, message, attachments, saved, h, n),
    ) by {
        lemma_images_there(c, key, message, attachments, saved, h, n);
    }
}

/// Whether an action asks about the chat that a command came from only, and makes sessions the
/// active ones of that chat only.
pub open spec fn keeps_to_chat(c: CommandCall, a: ActionView) -> bool {
    &&& match a.ask {
        Ask::ActiveSession { chat } => chat == c.target@,
        Ask::ListSessions { chat } => chat == c.target@,
        _ => true,
    }
    &&& forall|i: int|
        0 <= i < a.effects.len() ==> ((#[trigger] a.effects[i]) matches Effect::SetActive { chat, key }
            ==> chat == c.target@)
}

proof fn lemma_new_keeps_to_chat(c: CommandCall, key: Seq<char>, h: Seq<Answer>, k: int)
    ensures
        keeps_to_chat(c, dispatch::new_command(c, key, h, k)),
{
}

proof fn lemma_sessions_keeps_to_chat(c: CommandCall, key: Seq<char>, h: Seq<Answer>, k: int)
    ensures
        keeps_to_chat(c, dispatch::sessions_command(c, key, h, k)),
{
}

proof fn lemma_agent_keeps_to_chat(c: CommandCall, key: Seq<char>, h: Seq<Answer>, k: int)
    ensures
        keeps_to_chat(c, dispatch::agent_command(c, key, h, k)),
{
}

proof fn lemma_handoff_keeps_to_chat(c: CommandCall, key: Seq<char>, h: Seq<Answer>, k: int)
    ensures
        keeps_to_chat(c, dispatch::handoff_command(c, key, h, k)),
{
}

proof fn lemma_model_keeps_to_chat(c: CommandCall, key: Seq<char>, h: Seq<Answer>, k: int)
    ensures
        keeps_to_chat(c, dispatch::model_command(c, key, h, k)),
{
}

proof fn lemma_sandbox_keeps_to_chat(c: CommandCall, key: Seq<char>, h: Seq<Answer>, k: int)
    ensures
        keeps_to_chat(c, dispatch::sandbox_command(c, key, h, k)),
{
}

proof fn lemma_sh_keeps_to_chat(c: CommandCall, key: Seq<char>, h: Seq<Answer>, k: int)
    ensures
        keeps_to_chat(c, dispatch::sh_command(c, key, h, k)),
{
}

/// A command asks about the chat that it came from only, and makes sessions the active ones of that
/// chat only.
pub proof fn law_command_target(c: CommandCall, h: Seq<Answer>)
    ensures
        keeps_to_chat(c, dispatch::next_step(c, h)),
{
    if c.ready && c.has_metadata && h.len() > 0 {
        if let Answer::Key(switched) = h[0] {
            let key = dispatch::session_in(c.target, switched);
            lemma_new_keeps_to_chat(c, key, h, 1);
            lemma_sessions_keeps_to_chat(c, key, h, 1);
            lemma_agent_keeps_to_chat(c, key, h, 1);
            lemma_handoff_keeps_to_chat(c, key, h, 1);
            lemma_model_keeps_to_chat(c, key, h, 1);
            lemma_sandbox_keeps_to_chat(c, key, h, 1);
            lemma_sh_keeps_to_chat(c, key, h, 1);
        }
    }
}

// ---- sessions ----

/// `sessions` never archives the session that the chat is in.
pub proof fn law_current_kept(c: CommandCall, h: Seq<Answer>, switched: Option<String>)
    requires
        c.ready,
        c.has_metadata,
        c.name@ == "sessions"@,
        h.len() > 0,
        h[0] == Answer::Key(switched),
    ensures
        dispatch::next_step(c, h).ask matches Ask::Archive { key, archived } ==> archived ==> key
            != dispatch::session_in(c.target, switched),
        dispatch::next_step(c, h).ask matches Ask::ArchiveEach { keys } ==> !keys.contains(
            dispatch::session_in(c.target, switched),
        ),
{
    lemma_names();
    let current = dispatch::session_in(c.target, switched);
    assert forall|all: Seq<SessionEntry>, cutoff: nat|
        !(#[trigger] sessions::stale_keys(all, current, cutoff)).contains(current) by {
        sessions::law_stale_keys(all, current, cutoff, current);
    }
}

/// `sessions` leads a chat only to a session of that chat that is not archived, and changes no
/// session on the way.
pub proof fn law_switch_active(
    target: channel::ChannelReplyTarget,
    args: Seq<char>,
    key: Seq<char>,
    all: Seq<SessionEntry>,
    auto_archived: u64,
    h: Seq<Answer>,
    k: int,
    i: int,
)
    ensures
        0 <= i < dispatch::sessions_choice(target, args, key, all, auto_archived, h, k).effects.len() ==> {
            ||| dispatch::sessions_choice(target, args, key, all, auto_archived, h, k).effects[i] is Announce
            ||| dispatch::sessions_choice(target, args, key, all, auto_archived, h, k).effects[i]
                matches Effect::SetActive { chat, key: to } && chat == target@ && exists|j: int|
                0 <= j < all.len() && (#[trigger] all[j]).key@ == to && !all[j].archived
        },
{
    dispatch::lemma_session_numbers(args);
    if let Ok(SessionsCommand::Switch(n)) = commands::sessions_args_of(args) {
        if n <= all.len() && !all[n - 1].archived {
            assert(all[n - 1].key@ == all[n - 1].key@);
        }
    }
}

/// Taking a session back undoes its archiving: with the same number, it asks to change back the
/// session that was archived.
pub proof fn law_archive_undone(
    target: channel::ChannelReplyTarget,
    archive: Seq<char>,
    unarchive: Seq<char>,
    n: usize,
    key: Seq<char>,
    before: Seq<SessionEntry>,
    after: Seq<SessionEntry>,
    archived: u64,
    h: Seq<Answer>,
)
    requires
        commands::sessions_args_of(archive) == Ok::<SessionsCommand, ChannelError<Seq<char>>>(
            SessionsCommand::Archive(n),
        ),
        commands::sessions_args_of(unarchive) == Ok::<SessionsCommand, ChannelError<Seq<char>>>(
            SessionsCommand::Unarchive(n),
        ),
        n <= before.len(),
        before.len() == after.len(),
        before[n - 1].key@ != key,
        !before[n - 1].archived,
        after[n - 1].key == before[n - 1].key,
        after[n - 1].archived,
    ensures
        dispatch::sessions_choice(target, archive, key, before, archived, h, h.len() as int) == host::ask(
            Ask::Archive { key: before[n - 1].key@, archived: true },
        ),
        dispatch::sessions_choice(target, unarchive, key, after, archived, h, h.len() as int) == host::ask(
            Ask::Archive { key: before[n - 1].key@, archived: false },
        ),
{
}

/// No message archives the session that it goes to.
pub proof fn law_message_keeps_session(
    has_metadata: bool,
    target: channel::ChannelReplyTarget,
    h: Seq<Answer>,
    k: int,
    switched: Option<String>,
)
    requires
        0 <= k < h.len(),
        h[k] == Answer::Key(switched),
    ensures
        chat::inbound_session(has_metadata, target, h, k) matches Progress::Wait(a) ==> (a.ask
            matches Ask::ArchiveEach { keys } ==> !keys.contains(
            dispatch::session_in(target, switched),
        )),
{
    let current = dispatch::session_in(target, switched);
    assert forall|all: Seq<SessionEntry>, cutoff: nat|
        !(#[trigger] sessions::stale_keys(all, current, cutoff)).contains(current) by {
        sessions::law_stale_keys(all, current, cutoff, current);
    }
}

// ---- command mode ----

/// What a message became in command mode stays as it is: it steers the channel.
pub proof fn law_rewritten_once(s: Seq<char>)
    ensures
        commands::shell_rewrite(s) matches Some(t) ==> commands::shell_rewrite(t) is None,
{
    if let Some(t) = commands::shell_rewrite(s) {
        let inner = text::trim_of(s);
        reveal_strlit("/sh ");
        reveal_strlit("sh");
        text::lemma_trimmed(s);
        text::lemma_trim_id(t);
        assert(t =~= "/sh "@ + inner);
        text::lemma_trim_start_id(t);
        let rest = t.skip(1);
        text::lemma_first_word(rest);
        text::lemma_trim_start_id(rest);
        text::lemma_lead(rest, text::not_white(), 2);
        assert(text::first_word_of(rest) =~= "sh"@);
    }
}

} // verus!
