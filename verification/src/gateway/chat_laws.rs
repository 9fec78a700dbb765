//! What becomes of a message on its way to the model, in terms of the message and of the answers.

use crate::channel;
use crate::encoding;
use crate::gateway::chat;
use crate::gateway::chat::{Briefed, ChannelAttachment, ChatCall, Outgoing};
use crate::gateway::commands;
use crate::gateway::dispatch;
use crate::gateway::host;
use crate::gateway::host::{ActionView, Answer, Ask, ChatBody, Effect, HandoffPacket, Pending, Progress, SavedAttachment};
use crate::gateway::sessions;
use crate::json::JsonView;
use crate::text;
use vstd::prelude::*;

verus! {

/// The session of a message, where it is asked for after the first `k` answers: the one that the chat
/// was switched to, else the one that the chat has of itself.
pub open spec fn session_at(c: ChatCall, h: Seq<Answer>, k: int) -> Seq<char> {
    match switched_at(c, h, k) {
        Some(key) => key,
        None => c.target.channel_type.name() + ":"@ + c.target.account_id@ + ":"@
            + c.target.chat_id@,
    }
}

/// The session that the chat was switched to, where that is asked for after the first `k` answers.
pub open spec fn switched_at(c: ChatCall, h: Seq<Answer>, k: int) -> Option<Seq<char>> {
    if c.has_metadata && k < h.len() {
        match h[k] {
            Answer::Key(switched) => channel::opt_view(switched),
            _ => None,
        }
    } else {
        None
    }
}

/// The id of the first model of a list.
pub open spec fn first_id(a: Answer) -> Option<Seq<char>> {
    match a {
        Answer::Document(Ok(d)) => match d@.items() {
            Some(models) => if models.len() > 0 {
                models[0].text_at("id"@)
            } else {
                None
            },
            None => None,
        },
        _ => None,
    }
}

/// Whether a model is the one of the channel, or the first of a list that was answered where the
/// channel has none.
pub open spec fn is_model(c: ChatCall, h: Seq<Answer>, model: Seq<char>) -> bool {
    match c.meta.model {
        Some(m) => m@ == model,
        None => exists|j: int| 0 <= j < h.len() && #[trigger] first_id(h[j]) == Some(model),
    }
}

/// Whether an answer says that no model has to be sent along: the session has one, or none is
/// registered.
pub open spec fn needs_none(a: Answer) -> bool {
    match a {
        Answer::Session(Some(entry)) => entry.model is Some,
        Answer::Document(_) => first_id(a) is None,
        _ => false,
    }
}

/// Whether what is done about a message is about its session, and shows and stores what there is to
/// show and to store.
pub open spec fn effect_fits(
    c: ChatCall,
    o: Outgoing<Seq<char>, Seq<Seq<char>>>,
    h: Seq<Answer>,
    e: Effect<Seq<char>>,
) -> bool {
    match e {
        Effect::DropPacket { key } => key == o.key,
        Effect::ShowMessage { key, text, index, has_attachments, meta } => {
            &&& key == o.key
            &&& text == o.shown
            &&& has_attachments == o.has_attachments
            &&& meta == c.meta@
            &&& c.has_session_store ==> h.contains(Answer::Count(index))
            &&& !c.has_session_store ==> index == 0
        },
        Effect::EnsureSession { key, label } => {
            &&& key == o.key
            &&& exists|j: int|
                0 <= j < h.len() && (#[trigger] listed(h[j]) matches Some(n)) && label
                    == c.display_name@ + " "@ + text::decimal(listed(h[j])->0 + 1)
        },
        Effect::SetBinding { key, binding } => {
            &&& key == o.key
            &&& c.binding matches Ok(b)
            &&& b@ == binding
        },
        Effect::SetAgent { key, agent } => {
            &&& key == o.key
            &&& exists|j: int| 0 <= j < h.len() && #[trigger] agent_at(c, h, j) == Some(agent)
        },
        Effect::PatchModel { key, model } => key == o.key && is_model(c, h, model),
        Effect::LogStatus { key, message } => {
            &&& key == o.key
            &&& exists|j: int| 0 <= j < h.len() && #[trigger] status_of(c, h[j]) == Some(message)
        },
        Effect::SendText { target, text } => {
            &&& target == c.target@
            &&& c.has_outbound
            &&& exists|j: int| 0 <= j < h.len() && #[trigger] warned(h[j]) == Some(text)
        },
        _ => false,
    }
}

/// The agent for a session without one, where the state of the channels was answered after the
/// first `j` answers: the one of the account, else the default, else the main agent.
pub open spec fn agent_at(c: ChatCall, h: Seq<Answer>, j: int) -> Option<Seq<char>> {
    match h[j] {
        Answer::Status(status) => match host::config_text(
            host::account_config(status, c.target),
            "agent_id"@,
        ) {
            Some(agent) => Some(agent),
            None => if !c.has_agents {
                Some("main"@)
            } else if j + 1 < h.len() {
                match h[j + 1] {
                    Answer::Agent(Some(agent)) => Some(agent@),
                    Answer::Agent(None) => Some("main"@),
                    _ => None,
                }
            } else {
                None
            },
        },
        _ => None,
    }
}

/// What the status log says, given the list of the models: how the user sees the model of the
/// channel, or the first one of the list where the channel has none.
pub open spec fn status_of(c: ChatCall, a: Answer) -> Option<Seq<char>> {
    match a {
        Answer::Document(list) => {
            let id = match c.meta.model {
                Some(m) => Some(m@),
                None => first_id(a),
            };
            match id {
                Some(m) => Some(
                    "Using "@ + sessions::display_of(sessions::models_in(list), m)
                        + ". Use /model to change."@,
                ),
                None => None,
            }
        },
        _ => None,
    }
}

/// How many sessions an answer lists.
pub open spec fn listed(a: Answer) -> Option<nat> {
    match a {
        Answer::Sessions(all) => Some(all@.len()),
        _ => None,
    }
}

/// What the chat is told of a failure.
pub open spec fn warned(a: Answer) -> Option<Seq<char>> {
    match a {
        Answer::Outcome(Err(e)) => Some("⚠️ "@ + e@),
        _ => None,
    }
}

/// Whether what is asked about a message that is ready to be sent is about its session, and whether
/// what is sent is that message, with the model that is settled.
pub open spec fn ask_fits(
    c: ChatCall,
    o: Outgoing<Seq<char>, Seq<Seq<char>>>,
    h: Seq<Answer>,
    a: Ask<Seq<char>, Seq<Seq<char>>>,
) -> bool {
    match a {
        Ask::Send { params } => {
            &&& params.session_key == o.key
            &&& params.target == c.target@
            &&& params.meta == c.meta@
            &&& params.body == o.body
            &&& params.audio_filename == o.audio_filename
            &&& c.meta.model matches Some(m) ==> params.model == Some(m@)
            &&& params.model matches Some(m) ==> is_model(c, h, m)
            &&& params.model is None ==> exists|j: int|
                0 <= j < h.len() && #[trigger] needs_none(h[j])
        },
        Ask::Session { key } => key == o.key,
        Ask::MessageCount { key } => key == o.key,
        Ask::ListSessions { chat } => chat == c.target@,
        Ask::ChannelStatus => true,
        Ask::DefaultAgent => true,
        Ask::ListModels => true,
        Ask::Finish(r) => true,
        _ => false,
    }
}

/// Whether all effects fit.
pub open spec fn effects_fit(
    c: ChatCall,
    o: Outgoing<Seq<char>, Seq<Seq<char>>>,
    h: Seq<Answer>,
    effects: Seq<Effect<Seq<char>>>,
) -> bool {
    forall|i: int| 0 <= i < effects.len() ==> effect_fits(c, o, h, #[trigger] effects[i])
}

/// Whether an action about a message that is ready to be sent fits.
pub open spec fn action_fits(
    c: ChatCall,
    o: Outgoing<Seq<char>, Seq<Seq<char>>>,
    h: Seq<Answer>,
    a: ActionView,
) -> bool {
    effects_fit(c, o, h, a.effects) && ask_fits(c, o, h, a.ask)
}

proof fn lemma_send(
    c: ChatCall,
    o: Outgoing<Seq<char>, Seq<Seq<char>>>,
    model: Option<Seq<char>>,
    effects: Seq<Effect<Seq<char>>>,
    h: Seq<Answer>,
    k: int,
)
    requires
        0 <= k,
        effects_fit(c, o, h, effects),
        c.meta.model matches Some(m) ==> model == Some(m@),
        model matches Some(m) ==> is_model(c, h, m),
        model is None ==> exists|j: int| 0 <= j < h.len() && #[trigger] needs_none(h[j]),
    ensures
        action_fits(c, o, h, chat::send_step(c, o, model, effects, h, k)),
{
    if k < h.len() {
        assert(warned(h[k]) == warned(h[k]));
    }
}

proof fn lemma_first_shown(models: Seq<JsonView>)
    requires
        models.len() > 0,
        models[0].text_at("id"@) is Some,
    ensures
        sessions::first_model(Some(models)) == Some(
            (
                models[0].text_at("id"@)->0,
                sessions::display_of(Some(models), models[0].text_at("id"@)->0),
            ),
        ),
{
}

proof fn lemma_model(
    c: ChatCall,
    o: Outgoing<Seq<char>, Seq<Seq<char>>>,
    has_model: bool,
    effects: Seq<Effect<Seq<char>>>,
    h: Seq<Answer>,
    k: int,
)
    requires
        0 <= k,
        effects_fit(c, o, h, effects),
        has_model ==> exists|j: int| 0 <= j < h.len() && #[trigger] needs_none(h[j]),
    ensures
        action_fits(c, o, h, chat::model_step(c, o, has_model, effects, h, k)),
{
    if has_model {
        lemma_send(c, o, channel::opt_view(c.meta.model), effects, h, k);
    } else if k < h.len() {
        if let Answer::Document(list) = h[k] {
            assert(first_id(h[k]) == first_id(h[k]));
            let models = sessions::models_in(list);
            if let Some(m) = c.meta.model {
                let note = chat::model_note(sessions::display_of(models, m@));
                let noted = seq![Effect::LogStatus { key: o.key, message: note }];
                assert(status_of(c, h[k]) == Some(note));
                assert(effect_fits(c, o, h, noted[0]));
                lemma_send(c, o, Some(m@), noted, h, k + 1);
            } else if let Some((id, display)) = sessions::first_model(models) {
                lemma_first_shown(models->0);
                let note = chat::model_note(display);
                let noted = seq![
                    Effect::PatchModel { key: o.key, model: id },
                    Effect::LogStatus { key: o.key, message: note },
                ];
                assert(status_of(c, h[k]) == Some(note));
                assert(effect_fits(c, o, h, noted[0]));
                assert(effect_fits(c, o, h, noted[1]));
                lemma_send(c, o, Some(id), noted, h, k + 1);
            } else {
                assert(needs_none(h[k]));
                lemma_send(c, o, None, Seq::empty(), h, k + 1);
            }
        }
    }
}

proof fn lemma_model_look(
    c: ChatCall,
    o: Outgoing<Seq<char>, Seq<Seq<char>>>,
    effects: Seq<Effect<Seq<char>>>,
    h: Seq<Answer>,
    k: int,
)
    requires
        0 <= k,
        effects_fit(c, o, h, effects),
    ensures
        action_fits(c, o, h, chat::model_look(c, o, effects, h, k)),
{
    lemma_model(c, o, false, effects, h, k);
    if k < h.len() {
        if let Answer::Session(entry) = h[k] {
            assert(dispatch::model_of(entry) is Some ==> needs_none(h[k]));
            lemma_model(c, o, dispatch::model_of(entry) is Some, Seq::empty(), h, k + 1);
        }
    }
}

proof fn lemma_agent(
    c: ChatCall,
    o: Outgoing<Seq<char>, Seq<Seq<char>>>,
    h: Seq<Answer>,
    k: int,
)
    requires
        0 <= k,
    ensures
        action_fits(c, o, h, chat::agent_step(c, o, h, k)),
{
    if k < h.len() {
        assert(agent_at(c, h, k) == agent_at(c, h, k));
    }
    assert forall|e: Seq<Effect<Seq<char>>>, n: int|
        0 <= n && effects_fit(c, o, h, e) implies action_fits(
        c,
        o,
        h,
        #[trigger] chat::model_look(c, o, e, h, n),
    ) by {
        lemma_model_look(c, o, e, h, n);
    }
}

proof fn lemma_bound(
    c: ChatCall,
    o: Outgoing<Seq<char>, Seq<Seq<char>>>,
    effects: Seq<Effect<Seq<char>>>,
    h: Seq<Answer>,
    k: int,
)
    requires
        0 <= k,
        effects_fit(c, o, h, effects),
    ensures
        action_fits(c, o, h, chat::bound_step(c, o, effects, h, k)),
{
    lemma_agent(c, o, h, k + 1);
    lemma_model_look(c, o, Seq::empty(), h, k + 1);
}

proof fn lemma_binding(
    c: ChatCall,
    o: Outgoing<Seq<char>, Seq<Seq<char>>>,
    binding: Seq<char>,
    effects: Seq<Effect<Seq<char>>>,
    h: Seq<Answer>,
    k: int,
)
    requires
        0 <= k,
        effects_fit(c, o, h, effects),
        c.binding matches Ok(b) && b@ == binding,
    ensures
        action_fits(c, o, h, chat::binding_step(c, o, binding, effects, h, k)),
{
    if k + 1 < h.len() {
        assert(listed(h[k + 1]) == listed(h[k + 1]));
    }
    assert forall|e: Seq<Effect<Seq<char>>>, n: int|
        0 <= n && effects_fit(c, o, h, e) implies action_fits(
        c,
        o,
        h,
        #[trigger] chat::bound_step(c, o, e, h, n),
    ) by {
        lemma_bound(c, o, e, h, n);
    }
}

proof fn lemma_shown(
    c: ChatCall,
    o: Outgoing<Seq<char>, Seq<Seq<char>>>,
    index: u64,
    effects: Seq<Effect<Seq<char>>>,
    h: Seq<Answer>,
    k: int,
)
    requires
        0 <= k,
        effects_fit(c, o, h, effects),
        c.has_session_store ==> h.contains(Answer::Count(index)),
        !c.has_session_store ==> index == 0,
    ensures
        action_fits(c, o, h, chat::shown_step(c, o, index, effects, h, k)),
{
    let shown = effects.push(
        Effect::ShowMessage {
            key: o.key,
            text: o.shown,
            index,
            has_attachments: o.has_attachments,
            meta: c.meta@,
        },
    );
    assert(effects_fit(c, o, h, shown));
    lemma_model_look(c, o, shown, h, k);
    if let Ok(binding) = c.binding {
        lemma_binding(c, o, binding@, shown, h, k);
    }
}

proof fn lemma_index(
    c: ChatCall,
    o: Outgoing<Seq<char>, Seq<Seq<char>>>,
    used_up: bool,
    h: Seq<Answer>,
    k: int,
)
    requires
        0 <= k,
    ensures
        action_fits(c, o, h, chat::index_step(c, o, used_up, h, k)),
{
    let drop = if used_up {
        seq![Effect::DropPacket { key: o.key }]
    } else {
        Seq::empty()
    };
    assert(effects_fit(c, o, h, drop));
    if !c.has_session_store {
        lemma_shown(c, o, 0, drop, h, k);
    } else if k < h.len() {
        if let Answer::Count(n) = h[k] {
            assert(h.contains(Answer::Count(n)));
            lemma_shown(c, o, n, Seq::empty(), h, k + 1);
        }
    }
}

// ---- the way of a text ----

/// Whether an action on the way waits for something that has to be known about the session of the
/// message, or ends it; nothing is changed by it but sessions of the chat that went stale, and never
/// the one of the message.
pub open spec fn is_waiting(c: ChatCall, key: Seq<char>, a: ActionView) -> bool {
    &&& a.effects.len() == 0
    &&& match a.ask {
        Ask::ActiveSession { chat } => chat == c.target@,
        Ask::ChannelStatus => true,
        Ask::Now => true,
        Ask::ListSessions { chat } => chat == c.target@,
        Ask::ArchiveEach { keys } => !keys.contains(key),
        Ask::CommandMode { key: k } => k == key,
        Ask::Pending { key: k } => k == key,
        Ask::Session { key: k } => k == key,
        Ask::SaveAttachments { key: k, target } => k == key && target == c.target@,
        Ask::DefaultAgent => true,
        Ask::Finish(r) => r is Err,
        _ => false,
    }
}

/// What a message is in the mode of its session: the message itself, or a shell command in command
/// mode; there, everything that does not start with a slash is one.
pub open spec fn is_meant(message: Seq<char>, command_mode: bool, meant: Seq<char>) -> bool {
    let t = text::trim_of(message);
    &&& meant == message || command_mode && meant == "/sh "@ + t
    &&& command_mode && t.len() > 0 && t[0] != '/' ==> meant == "/sh "@ + t
}

/// Whether a text tells the next agent of a hand-off and ends with the message.
pub open spec fn tells(p: HandoffPacket<Seq<char>>, message: Seq<char>, t: Seq<char>) -> bool {
    &&& text::begins(t, "[Internal Handoff Context]"@)
    &&& text::ends(t, "\n\nUser message:\n"@ + message)
    &&& text::has(t, "\nfrom_agent: "@ + p.from_agent_id)
    &&& text::has(t, "\nto_agent: "@ + p.to_agent_id)
    &&& text::trim_of(p.note).len() > 0 ==> text::has(t, "\nnote: "@ + text::trim_of(p.note))
}

/// Whether a text is what is sent for a message: what the message is in the mode of its session,
/// which was asked for after the first `n` answers; and where a hand-off is stored for the session
/// and its agent, the agent is told of it.
pub open spec fn is_sent_for(
    c: ChatCall,
    message: Seq<char>,
    h: Seq<Answer>,
    k: int,
    n: int,
    key: Seq<char>,
    meant: Seq<char>,
    t: Seq<char>,
) -> bool {
    &&& k <= n < h.len()
    &&& chat::text_step(c, message, h.take(n), k).ask == Ask::<Seq<char>, Seq<Seq<char>>>::CommandMode {
        key,
    }
    &&& h[n] is Flag
    &&& is_meant(message, h[n]->Flag_0, meant)
    &&& c.has_state_store && !text::begins(meant, "/sh "@) ==> {
        &&& n + 1 < h.len()
        &&& chat::text_step(c, message, h.take(n + 1), k).ask == Ask::<
            Seq<char>,
            Seq<Seq<char>>,
        >::Pending { key }
        &&& is_briefed(c, key, h, n + 1, meant, t)
    }
    &&& !c.has_state_store || text::begins(meant, "/sh "@) ==> t == meant
}

/// Whether a text is what an agent is sent for a message, given what is stored for it: without a
/// hand-off for that agent it is the message.
pub open spec fn is_briefed(
    c: ChatCall,
    key: Seq<char>,
    h: Seq<Answer>,
    n: int,
    meant: Seq<char>,
    t: Seq<char>,
) -> bool {
    match h[n] {
        Answer::Packet(Pending::Packet(p)) => {
            let to_agent = if c.has_metadata {
                sessions::current_agent(c.has_agents, key, h, n + 1) matches Progress::Ready(a, _)
                    && a == p.to_agent_id@
            } else {
                p.to_agent_id@ == "main"@
            };
            if to_agent {
                tells(p@, meant, t)
            } else {
                t == meant
            }
        },
        _ => t == meant,
    }
}

proof fn lemma_joined(parts: Seq<Seq<char>>, sep: Seq<char>, i: int) -> (at: int)
    requires
        0 <= i < parts.len(),
    ensures
        text::occurs_at(text::join_of(parts, sep), parts[i], at),
        i > 0 ==> text::occurs_at(text::join_of(parts, sep), sep + parts[i], at - sep.len()),
        i == 0 ==> at == 0,
    decreases parts.len(),
{
    let all = text::join_of(parts, sep);
    if parts.len() == 1 {
        assert(all.subrange(0, all.len() as int) =~= parts[0]);
        0
    } else {
        let rest = parts.drop_last();
        let before = text::join_of(rest, sep);
        if i < rest.len() {
            let at = lemma_joined(rest, sep, i);
            assert(all.subrange(at, at + parts[i].len()) =~= before.subrange(at, at + parts[i].len()));
            if i > 0 {
                let from = at - sep.len();
                let both = sep + parts[i];
                assert(all.subrange(from, from + both.len()) =~= before.subrange(
                    from,
                    from + both.len(),
                ));
            }
            at
        } else {
            let from: int = before.len() as int;
            let at: int = from + sep.len();
            assert(all.subrange(at, at + parts[i].len()) =~= parts[i]);
            let both = sep + parts[i];
            assert(all.subrange(from, from + both.len()) =~= both);
            at
        }
    }
}

proof fn lemma_has(s: Seq<char>, p: Seq<char>, at: int)
    requires
        0 <= at,
        text::occurs_at(s, p, at),
    ensures
        text::has(s, p),
{
    text::lemma_find(s, p, 0);
}

proof fn lemma_tells(p: HandoffPacket<Seq<char>>, message: Seq<char>)
    ensures
        tells(p, message, chat::with_packet(p, message)),
{
    reveal_strlit("\n");
    reveal_strlit("\nfrom_agent: ");
    reveal_strlit("from_agent: ");
    reveal_strlit("\nto_agent: ");
    reveal_strlit("to_agent: ");
    reveal_strlit("\nnote: ");
    reveal_strlit("note: ");
    let lines = chat::packet_lines(p);
    let joined = text::join_of(lines, "\n"@);
    let tail = "\n\nUser message:\n"@ + message;
    let t = chat::with_packet(p, message);
    assert(t =~= joined + tail);
    assert(t.subrange(t.len() - tail.len(), t.len() as int) =~= tail);
    let note = text::trim_of(p.note);
    assert(lines[0] == "[Internal Handoff Context]"@);
    assert(lines[1] == "from_agent: "@ + p.from_agent_id);
    assert(lines[2] == "to_agent: "@ + p.to_agent_id);
    let a = lemma_joined(lines, "\n"@, 0);
    let head = lines[0];
    assert(joined.subrange(0, head.len() as int) =~= head);
    assert(t.subrange(0, head.len() as int) =~= joined.subrange(0, head.len() as int));
    let b = lemma_joined(lines, "\n"@, 1);
    let from = "\nfrom_agent: "@ + p.from_agent_id;
    assert(from =~= "\n"@ + lines[1]);
    assert(t.subrange(b - 1, b - 1 + from.len()) =~= joined.subrange(b - 1, b - 1 + from.len()));
    lemma_has(t, from, b - 1);
    let d = lemma_joined(lines, "\n"@, 2);
    let to = "\nto_agent: "@ + p.to_agent_id;
    assert(to =~= "\n"@ + lines[2]);
    assert(t.subrange(d - 1, d - 1 + to.len()) =~= joined.subrange(d - 1, d - 1 + to.len()));
    lemma_has(t, to, d - 1);
    if note.len() > 0 {
        assert(lines[4] == "note: "@ + note);
        let e = lemma_joined(lines, "\n"@, 4);
        let n = "\nnote: "@ + note;
        assert(n =~= "\n"@ + lines[4]);
        assert(t.subrange(e - 1, e - 1 + n.len()) =~= joined.subrange(e - 1, e - 1 + n.len()));
        lemma_has(t, n, e - 1);
    }
}

proof fn lemma_inbound(c: ChatCall, h: Seq<Answer>, k: int)
    requires
        0 <= k <= h.len(),
    ensures
        match chat::inbound_session(c.has_metadata, c.target, h, k) {
            Progress::Wait(a) => is_waiting(c, session_at(c, h, k), a),
            Progress::Ready(key, n) => key == session_at(c, h, k) && k <= n <= h.len(),
        },
{
    let key = session_at(c, h, k);
    if k < h.len() {
        if let Answer::Key(switched) = h[k] {
            assert(dispatch::session_in(c.target, switched) == key || !c.has_metadata);
            assert forall|all: Seq<crate::gateway::reports::SessionEntry>, cutoff: nat|
                !(#[trigger] sessions::stale_keys(all, key, cutoff)).contains(key) by {
                sessions::law_stale_keys(all, key, cutoff, key);
            }
        }
    }
}

proof fn lemma_inbound_prefix(c: ChatCall, h: Seq<Answer>, k: int, m: int)
    requires
        0 <= k <= m <= h.len(),
        chat::inbound_session(c.has_metadata, c.target, h, k) matches Progress::Ready(key, n) && n <= m,
    ensures
        chat::inbound_session(c.has_metadata, c.target, h.take(m), k) == chat::inbound_session(
            c.has_metadata,
            c.target,
            h,
            k,
        ),
{
    let p = h.take(m);
    assert forall|i: int| 0 <= i < m implies #[trigger] p[i] == h[i] by {}
}

/// What a message is in command mode fits.
proof fn lemma_meant(message: Seq<char>, command_mode: bool)
    ensures
        is_meant(message, command_mode, chat::effective_text(message, command_mode)),
{
    let t = text::trim_of(message);
    text::lemma_trimmed(message);
    text::lemma_trim_start_id(t);
}

/// Whether a message that is ready to be sent is the given text in the session `key`.
pub open spec fn is_text_of(
    c: ChatCall,
    message: Seq<char>,
    h: Seq<Answer>,
    k: int,
    o: Outgoing<Seq<char>, Seq<Seq<char>>>,
) -> bool {
    &&& o.key == session_at(c, h, k)
    &&& o.shown == message
    &&& !o.has_attachments
    &&& o.audio_filename == channel::opt_view(c.meta.audio_filename)
    &&& o.body is Text
    &&& exists|n: int, meant: Seq<char>| #[trigger]
        is_sent_for(c, message, h, k, n, o.key, meant, o.body->Text_0)
}

proof fn lemma_briefed(c: ChatCall, key: Seq<char>, meant: Seq<char>, h: Seq<Answer>, k: int)
    requires
        0 <= k,
    ensures
        match chat::handoff_context(c, key, meant, h, k) {
            Progress::Wait(a) => is_waiting(c, key, a),
            Progress::Ready(b, n) => {
                &&& k <= n
                &&& !c.has_state_store ==> b.message == meant
                &&& c.has_state_store ==> k < h.len() && is_briefed(c, key, h, k, meant, b.message)
            },
        },
{
    if k < h.len() {
        if let Answer::Packet(Pending::Packet(p)) = h[k] {
            lemma_tells(p@, meant);
        }
    }
}

/// A text on its way either waits for something about its session, or it is shown and sent as it is,
/// in the mode of its session and with what its agent is to be told.
#[verifier::rlimit(50)]
proof fn lemma_text(c: ChatCall, message: Seq<char>, h: Seq<Answer>, k: int)
    requires
        0 <= k <= h.len(),
    ensures
        is_waiting(c, session_at(c, h, k), chat::text_step(c, message, h, k)) || exists|
            o: Outgoing<Seq<char>, Seq<Seq<char>>>,
        | #[trigger]
            is_text_of(c, message, h, k, o) && action_fits(
                c,
                o,
                h,
                chat::text_step(c, message, h, k),
            ),
{
    lemma_inbound(c, h, k);
    let a = chat::text_step(c, message, h, k);
    if let Progress::Ready(key, k1) = chat::inbound_session(c.has_metadata, c.target, h, k) {
        if k1 < h.len() {
            if let Answer::Flag(command_mode) = h[k1] {
                let meant = chat::effective_text(message, command_mode);
                lemma_meant(message, command_mode);
                lemma_inbound_prefix(c, h, k, k1);
                lemma_inbound_prefix(c, h, k, k1 + 1);
                assert(h.take(k1 + 1)[k1] == h[k1]);
                lemma_briefed(c, key, meant, h, k1 + 1);
                let briefed = if text::begins(meant, "/sh "@) {
                    Progress::Ready(Briefed { message: meant, used_up: false }, k1 + 1)
                } else {
                    chat::handoff_context(c, key, meant, h, k1 + 1)
                };
                if let Progress::Ready(b, k2) = briefed {
                    let o = Outgoing {
                        key,
                        shown: message,
                        has_attachments: false,
                        body: ChatBody::Text(b.message),
                        audio_filename: channel::opt_view(c.meta.audio_filename),
                    };
                    lemma_index(c, o, b.used_up, h, k2);
                    assert(a == chat::index_step(c, o, b.used_up, h, k2));
                    assert(is_sent_for(c, message, h, k, k1, o.key, meant, o.body->Text_0));
                    assert(is_text_of(c, message, h, k, o));
                }
            }
        }
    }
}

/// A message that is sent to the model is the text of the user, in the mode of its session and with
/// what its agent is to be told; it goes into the session of the chat and is shown there as it was
/// written. Until then nothing is changed about that session.
pub proof fn law_message(c: ChatCall, message: Seq<char>, h: Seq<Answer>)
    ensures
        is_waiting(c, session_at(c, h, 0), chat::chat_step(c, message, h)) || exists|
            o: Outgoing<Seq<char>, Seq<Seq<char>>>,
        | #[trigger]
            is_text_of(c, message, h, 0, o) && action_fits(c, o, h, chat::chat_step(c, message, h)),
{
    if c.ready {
        lemma_text(c, message, h, 0);
    }
}

// ---- what has been done once a message is sent ----

/// Whether a text is shown in a session.
pub open spec fn shows(a: ActionView, key: Seq<char>, t: Seq<char>) -> bool {
    exists|i: int|
        0 <= i < a.effects.len() && (#[trigger] a.effects[i] matches Effect::ShowMessage {
            key: k,
            text,
            ..
        }) && a.effects[i]->ShowMessage_key == key && a.effects[i]->ShowMessage_text == t
}

/// Whether a session is bound to a chat.
pub open spec fn binds(a: ActionView, key: Seq<char>, binding: Seq<char>) -> bool {
    a.effects.contains(Effect::SetBinding { key, binding })
}

/// Whether what the next agent of a session was to be told is deleted.
pub open spec fn drops(a: ActionView, key: Seq<char>) -> bool {
    a.effects.contains(Effect::DropPacket { key })
}

#[verifier::rlimit(50)]
proof fn lemma_index_done(
    c: ChatCall,
    o: Outgoing<Seq<char>, Seq<Seq<char>>>,
    used_up: bool,
    h: Seq<Answer>,
    k: int,
) -> (ns: (int, int))
    requires
        0 <= k <= h.len(),
        chat::index_step(c, o, used_up, h, k).ask is Send,
    ensures
        k <= ns.0 <= h.len(),
        k <= ns.1 <= h.len(),
        shows(chat::index_step(c, o, used_up, h.take(ns.0), k), o.key, o.shown),
        c.has_metadata && c.binding is Ok ==> binds(
            chat::index_step(c, o, used_up, h.take(ns.1), k),
            o.key,
            c.binding->Ok_0@,
        ),
        used_up ==> drops(chat::index_step(c, o, used_up, h.take(k), k), o.key),
{
    let first = chat::index_step(c, o, used_up, h.take(k), k);
    if used_up {
        assert(first.effects[0] == Effect::DropPacket { key: o.key });
    }
    let k1: int = if c.has_session_store {
        k + 1
    } else {
        k
    };
    assert(k1 <= h.len());
    let p1 = h.take(k1);
    if c.has_session_store {
        assert(p1[k] == h[k]);
    }
    let show = chat::index_step(c, o, used_up, p1, k);
    let at: int = if used_up && !c.has_session_store {
        1
    } else {
        0
    };
    assert(show.effects[at] is ShowMessage);
    assert(shows(show, o.key, o.shown));
    if c.has_metadata && c.binding is Ok {
        let bind: Effect<Seq<char>> = Effect::SetBinding { key: o.key, binding: c.binding->Ok_0@ };
        assert(k1 < h.len());
        let bound = dispatch::is_bound(h[k1]->Session_0);
        let k2: int = if bound {
            k1 + 1
        } else {
            k1 + 2
        };
        assert(k2 <= h.len());
        let p2 = h.take(k2);
        assert(p2[k1] == h[k1]);
        if c.has_session_store {
            assert(p2[k] == h[k]);
        }
        if !bound {
            assert(p2[k1 + 1] == h[k1 + 1]);
        }
        let done = chat::index_step(c, o, used_up, p2, k);
        assert(done.effects[if bound {
            0int
        } else {
            1int
        }] == bind);
        (k1, k2)
    } else {
        (k1, k)
    }
}

proof fn lemma_briefed_prefix(
    c: ChatCall,
    key: Seq<char>,
    meant: Seq<char>,
    h: Seq<Answer>,
    k: int,
    m: int,
)
    requires
        0 <= k <= m <= h.len(),
        chat::handoff_context(c, key, meant, h, k) matches Progress::Ready(b, n) && n <= m,
    ensures
        chat::handoff_context(c, key, meant, h.take(m), k) == chat::handoff_context(
            c,
            key,
            meant,
            h,
            k,
        ),
{
    let p = h.take(m);
    assert forall|i: int| 0 <= i < m implies #[trigger] p[i] == h[i] by {}
}

/// Once a text is sent, it has been shown in its session, the session has been bound to its chat,
/// and what its agent was told is deleted, so that it is told once.
#[verifier::rlimit(50)]
pub proof fn law_message_done(c: ChatCall, message: Seq<char>, h: Seq<Answer>)
    requires
        chat::chat_step(c, message, h).ask is Send,
    ensures
        exists|n: int|
            0 <= n <= h.len() && #[trigger] shows(
                chat::chat_step(c, message, h.take(n)),
                session_at(c, h, 0),
                message,
            ),
        c.has_metadata && c.binding is Ok ==> exists|n: int|
            0 <= n <= h.len() && #[trigger] binds(
                chat::chat_step(c, message, h.take(n)),
                session_at(c, h, 0),
                c.binding->Ok_0@,
            ),
        chat::chat_step(c, message, h).ask->params.body->Text_0 != message && chat::chat_step(
            c,
            message,
            h,
        ).ask->params.body->Text_0 != "/sh "@ + text::trim_of(message) ==> exists|n: int|
            0 <= n <= h.len() && #[trigger] drops(
                chat::chat_step(c, message, h.take(n)),
                session_at(c, h, 0),
            ),
{
    lemma_inbound(c, h, 0);
    let key = session_at(c, h, 0);
    let k1 = chat::inbound_session(c.has_metadata, c.target, h, 0)->Ready_1;
    assert(k1 < h.len());
    let command_mode = h[k1]->Flag_0;
    let meant = chat::effective_text(message, command_mode);
    let is_shell = text::begins(meant, "/sh "@);
    let briefed = if is_shell {
        Progress::Ready(Briefed { message: meant, used_up: false }, k1 + 1)
    } else {
        chat::handoff_context(c, key, meant, h, k1 + 1)
    };
    let b = briefed->Ready_0;
    let k2 = briefed->Ready_1;
    let o = Outgoing {
        key,
        shown: message,
        has_attachments: false,
        body: ChatBody::Text(b.message),
        audio_filename: channel::opt_view(c.meta.audio_filename),
    };
    assert(chat::chat_step(c, message, h) == chat::index_step(c, o, b.used_up, h, k2));
    lemma_index(c, o, b.used_up, h, k2);
    assert(k2 <= h.len());
    assert forall|n: int| k2 <= n <= h.len() implies #[trigger] chat::chat_step(c, message, h.take(n))
        == chat::index_step(c, o, b.used_up, h.take(n), k2) by {
        lemma_inbound_prefix(c, h, 0, n);
        if !is_shell {
            lemma_briefed_prefix(c, key, meant, h, k1 + 1, n);
        }
        assert(h.take(n)[k1] == h[k1]);
    }
    let (n1, n2) = lemma_index_done(c, o, b.used_up, h, k2);
    assert(shows(chat::chat_step(c, message, h.take(n1)), key, message));
    if c.has_metadata && c.binding is Ok {
        assert(binds(chat::chat_step(c, message, h.take(n2)), key, c.binding->Ok_0@));
    }
    if b.used_up {
        assert(drops(chat::chat_step(c, message, h.take(k2)), key));
    }
}

// ---- attachments ----

/// The images among the attachments.
pub open spec fn images_in(attachments: Seq<ChannelAttachment>) -> Seq<ChannelAttachment> {
    attachments.filter(|a: ChannelAttachment| commands::is_image(a.media_type@))
}

/// The data URIs of attachments.
pub open spec fn uris_of(attachments: Seq<ChannelAttachment>) -> Seq<Seq<char>> {
    attachments.map_values(|a: ChannelAttachment| encoding::data_uri_of(a.media_type@, a.data@))
}

/// Whether a text names the types of all attachments that are no images.
pub open spec fn names_types(attachments: Seq<ChannelAttachment>, t: Seq<char>) -> bool {
    forall|i: int|
        0 <= i < attachments.len() && !commands::is_image((#[trigger] attachments[i]).media_type@)
            ==> text::has(t, attachments[i].media_type@)
}

/// Whether a text names where all stored attachments lie.
pub open spec fn names_paths(saved: Seq<SavedAttachment>, t: Seq<char>) -> bool {
    forall|i: int|
        0 <= i < saved.len() ==> text::has(t, (#[trigger] saved[i]).absolute_path@)
}

proof fn lemma_images(attachments: Seq<ChannelAttachment>)
    ensures
        chat::image_uris(attachments) == uris_of(images_in(attachments)),
    decreases attachments.len(),
{
    reveal(Seq::filter);
    if attachments.len() > 0 {
        lemma_images(attachments.drop_last());
        assert(chat::image_uris(attachments) =~= uris_of(images_in(attachments)));
    } else {
        assert(chat::image_uris(attachments) =~= uris_of(images_in(attachments)));
    }
}

proof fn lemma_type(attachments: Seq<ChannelAttachment>, i: int) -> (j: int)
    requires
        0 <= i < attachments.len(),
        !commands::is_image(attachments[i].media_type@),
    ensures
        0 <= j < chat::other_types(attachments).len(),
        chat::other_types(attachments)[j] == attachments[i].media_type@,
    decreases attachments.len(),
{
    if i == attachments.len() - 1 {
        chat::other_types(attachments).len() - 1
    } else {
        lemma_type(attachments.drop_last(), i)
    }
}

proof fn lemma_types_only(attachments: Seq<ChannelAttachment>)
    requires
        forall|i: int|
            0 <= i < attachments.len() ==> commands::is_image(
                (#[trigger] attachments[i]).media_type@,
            ),
    ensures
        chat::other_types(attachments).len() == 0,
    decreases attachments.len(),
{
    if attachments.len() > 0 {
        lemma_types_only(attachments.drop_last());
    }
}

/// A text that occurs in a text occurs wherever that one stands.
proof fn lemma_within(before: Seq<char>, s: Seq<char>, after: Seq<char>, p: Seq<char>, at: int)
    requires
        0 <= at,
        text::occurs_at(s, p, at),
    ensures
        text::has(before + s + after, p),
{
    let all = before + s + after;
    let from = before.len() + at;
    assert(all.subrange(from, from + p.len()) =~= s.subrange(at, at + p.len()));
    lemma_has(all, p, from);
}

proof fn lemma_found(s: Seq<char>, p: Seq<char>) -> (at: int)
    requires
        text::has(s, p),
    ensures
        0 <= at,
        text::occurs_at(s, p, at),
{
    text::lemma_find(s, p, 0);
    text::find_in(s, p)->0
}

proof fn lemma_types_noticed(attachments: Seq<ChannelAttachment>)
    ensures
        names_types(attachments, chat::types_notice(chat::other_types(attachments))),
{
    let kinds = chat::other_types(attachments);
    let joined = text::join_of(kinds, ", "@);
    assert forall|i: int|
        0 <= i < attachments.len() && !commands::is_image(
            (#[trigger] attachments[i]).media_type@,
        ) implies text::has(chat::types_notice(kinds), attachments[i].media_type@) by {
        let j = lemma_type(attachments, i);
        let at = lemma_joined(kinds, ", "@, j);
        lemma_within(
            "[Attachment Notice] Non-image attachment MIME types: "@,
            joined,
            ". Ask the user for plain text content or a screenshot/image if visual parsing is needed."@,
            kinds[j],
            at,
        );
    }
}

proof fn lemma_saved_noticed(saved: Seq<SavedAttachment>)
    ensures
        names_paths(saved, chat::saved_notice(chat::saved_lines(saved))),
{
    let lines = chat::saved_lines(saved);
    let joined = text::join_of(lines, "\n- "@);
    assert forall|i: int| 0 <= i < saved.len() implies text::has(
        chat::saved_notice(lines),
        (#[trigger] saved[i]).absolute_path@,
    ) by {
        let s = saved[i];
        let path = s.absolute_path@;
        let head = s.original_name@ + " -> "@;
        let tail = " ("@ + s.media_type@ + ", "@ + text::decimal(s.size_bytes as nat) + " bytes)"@;
        assert(lines[i] =~= head + path + tail);
        let from: int = head.len() as int;
        assert(lines[i].subrange(from, from + path.len()) =~= path);
        let at = lemma_joined(lines, "\n- "@, i);
        assert(joined.subrange(at + from, at + from + path.len()) =~= joined.subrange(
            at,
            at + lines[i].len(),
        ).subrange(from, from + path.len()));
        lemma_within(
            "[Attachment Saved]\n- "@,
            joined,
            "\nUse these local paths directly when reading attachments."@,
            path,
            at + from,
        );
    }
}

proof fn lemma_named_within(
    attachments: Seq<ChannelAttachment>,
    saved: Seq<SavedAttachment>,
    before: Seq<char>,
    s: Seq<char>,
    after: Seq<char>,
)
    ensures
        names_types(attachments, s) ==> names_types(attachments, before + s + after),
        names_paths(saved, s) ==> names_paths(saved, before + s + after),
{
    let all = before + s + after;
    if names_types(attachments, s) {
        assert forall|i: int|
            0 <= i < attachments.len() && !commands::is_image(
                (#[trigger] attachments[i]).media_type@,
            ) implies text::has(all, attachments[i].media_type@) by {
            let at = lemma_found(s, attachments[i].media_type@);
            lemma_within(before, s, after, attachments[i].media_type@, at);
        }
    }
    if names_paths(saved, s) {
        assert forall|i: int| 0 <= i < saved.len() implies text::has(
            all,
            (#[trigger] saved[i]).absolute_path@,
        ) by {
            let at = lemma_found(s, saved[i].absolute_path@);
            lemma_within(before, s, after, saved[i].absolute_path@, at);
        }
    }
}

/// The text for attachments that are no images starts with the message, and names the type of each
/// one and where each stored one lies.
#[verifier::rlimit(50)]
pub proof fn law_fallback(
    message: Seq<char>,
    attachments: Seq<ChannelAttachment>,
    saved: Seq<SavedAttachment>,
)
    ensures
        ({
            let t = chat::fallback_of(
                message,
                chat::other_types(attachments),
                chat::saved_lines(saved),
            );
            &&& text::begins(t, text::trim_of(message))
            &&& names_types(attachments, t)
            &&& names_paths(saved, t)
        }),
{
    let kinds = chat::other_types(attachments);
    let lines = chat::saved_lines(saved);
    let m = text::trim_of(message);
    let none = Seq::<char>::empty();
    let t = chat::fallback_of(message, kinds, lines);
    let n1 = chat::types_notice(kinds);
    let n2 = chat::saved_notice(lines);
    lemma_types_noticed(attachments);
    lemma_saved_noticed(saved);
    let noted = if kinds.len() == 0 {
        m
    } else {
        chat::paragraphs(m, n1)
    };
    if kinds.len() > 0 {
        let gap = if m.len() == 0 {
            none
        } else {
            m + "\n\n"@
        };
        assert(noted =~= gap + n1 + none);
        lemma_named_within(attachments, saved, gap, n1, none);
    } else {
        assert forall|i: int|
            0 <= i < attachments.len() && !commands::is_image(
                (#[trigger] attachments[i]).media_type@,
            ) implies text::has(noted, attachments[i].media_type@) by {
            let j = lemma_type(attachments, i);
        }
    }
    assert(noted.subrange(0, m.len() as int) =~= m);
    if lines.len() > 0 {
        let gap = if noted.len() == 0 {
            none
        } else {
            noted + "\n\n"@
        };
        assert(t =~= gap + n2 + none);
        lemma_named_within(attachments, saved, gap, n2, none);
        if noted.len() > 0 {
            let rest = "\n\n"@ + n2;
            assert(t =~= none + noted + rest);
            lemma_named_within(attachments, saved, none, noted, rest);
        } else {
            reveal_strlit("[Attachment Notice] Non-image attachment MIME types: ");
            assert(kinds.len() == 0);
            assert forall|i: int|
                0 <= i < attachments.len() && !commands::is_image(
                    (#[trigger] attachments[i]).media_type@,
                ) implies text::has(t, attachments[i].media_type@) by {
                let j = lemma_type(attachments, i);
            }
        }
    }
    assert(t.subrange(0, m.len() as int) =~= m);
}

/// The text that goes with images is the message itself where there is nothing but images; else it
/// starts with the message, unless that is blank, and names the type of each other attachment and
/// where each stored one lies.
pub proof fn law_caption(
    message: Seq<char>,
    attachments: Seq<ChannelAttachment>,
    saved: Seq<SavedAttachment>,
)
    ensures
        ({
            let kinds = chat::other_types(attachments);
            let t = chat::caption_of(message, kinds, chat::saved_lines(saved));
            &&& (forall|i: int|
                0 <= i < attachments.len() ==> commands::is_image(
                    (#[trigger] attachments[i]).media_type@,
                )) ==> t == message
            &&& text::trim_of(message).len() > 0 ==> text::begins(t, message)
            &&& names_types(attachments, t)
            &&& kinds.len() > 0 ==> names_paths(saved, t)
        }),
{
    let kinds = chat::other_types(attachments);
    let lines = chat::saved_lines(saved);
    let none = Seq::<char>::empty();
    let t = chat::caption_of(message, kinds, lines);
    let n1 = chat::types_notice(kinds);
    let n2 = chat::saved_notice(lines);
    lemma_types_noticed(attachments);
    lemma_saved_noticed(saved);
    if forall|i: int|
        0 <= i < attachments.len() ==> commands::is_image((#[trigger] attachments[i]).media_type@) {
        lemma_types_only(attachments);
    }
    if kinds.len() > 0 {
        let notice = if lines.len() == 0 {
            n1
        } else {
            n1 + "\n"@ + n2
        };
        if lines.len() > 0 {
            let rest = "\n"@ + n2;
            assert(notice =~= none + n1 + rest);
            lemma_named_within(attachments, saved, none, n1, rest);
            let head = n1 + "\n"@;
            assert(notice =~= head + n2 + none);
            lemma_named_within(attachments, saved, head, n2, none);
        }
        if text::trim_of(message).len() > 0 {
            let head = message + "\n\n"@;
            assert(t =~= head + notice + none);
            lemma_named_within(attachments, saved, head, notice, none);
            assert(t.subrange(0, message.len() as int) =~= message);
        }
    } else {
        assert forall|i: int|
            0 <= i < attachments.len() && !commands::is_image(
                (#[trigger] attachments[i]).media_type@,
            ) implies text::has(t, attachments[i].media_type@) by {
            let j = lemma_type(attachments, i);
        }
        assert(t.subrange(0, message.len() as int) =~= message);
    }
}

/// Whether a message that is ready to be sent is made of the images among the attachments, in their
/// order, and of the text that goes with them.
pub open spec fn is_images_of(
    c: ChatCall,
    message: Seq<char>,
    attachments: Seq<ChannelAttachment>,
    saved: Seq<SavedAttachment>,
    h: Seq<Answer>,
    k: int,
    o: Outgoing<Seq<char>, Seq<Seq<char>>>,
) -> bool {
    let all_images = images_in(attachments).len() == attachments.len();
    &&& o.key == session_at(c, h, 0)
    &&& message.len() > 0 ==> o.shown == message
    &&& message.len() == 0 && all_images ==> o.shown == "[Image]"@
    &&& message.len() == 0 && !all_images ==> o.shown == "[Image + Attachment]"@
    &&& o.has_attachments
    &&& o.audio_filename is None
    &&& o.body is Parts
    &&& o.body->images == uris_of(images_in(attachments))
    &&& exists|m: Seq<char>| #[trigger]
        is_told(c, o.key, h, k, message, m) && is_caption(m, attachments, saved, o.body->text)
}

/// Whether a message is what the agent of a session is sent for it.
pub open spec fn is_told(
    c: ChatCall,
    key: Seq<char>,
    h: Seq<Answer>,
    k: int,
    message: Seq<char>,
    m: Seq<char>,
) -> bool {
    &&& !c.has_state_store ==> m == message
    &&& c.has_state_store ==> k < h.len() && is_briefed(c, key, h, k, message, m)
}

/// Whether a text part goes with images: it starts with the message and names the other attachments;
/// there is none only where the message is blank and all attachments are images.
pub open spec fn is_caption(
    message: Seq<char>,
    attachments: Seq<ChannelAttachment>,
    saved: Seq<SavedAttachment>,
    part: Option<Seq<char>>,
) -> bool {
    let all_images = images_in(attachments).len() == attachments.len();
    match part {
        Some(t) => {
            &&& text::trim_of(message).len() > 0 ==> text::begins(t, message)
            &&& all_images ==> t == message
            &&& names_types(attachments, t)
            &&& !all_images ==> names_paths(saved, t)
        },
        None => text::trim_of(message).len() == 0 && all_images,
    }
}

proof fn lemma_not_blank(s: Seq<char>, i: int)
    requires
        0 <= i < s.len(),
        !text::is_white(s[i]),
    ensures
        text::trim_of(s).len() > 0,
{
    let white = text::white();
    text::lemma_lead_bounds(s, white);
    let n = text::lead(s, white);
    assert(n <= i) by {
        if n > i {
            assert(white(s[i]));
        }
    }
    let t = text::trim_start_of(s);
    assert(t[i - n] == s[i]);
    text::lemma_trail_bounds(t, white);
    if text::trail(t, white) == t.len() {
        assert(white(t[i - n]));
    }
}

proof fn lemma_noticed(message: Seq<char>, kinds: Seq<Seq<char>>, lines: Seq<Seq<char>>)
    requires
        kinds.len() > 0,
    ensures
        text::trim_of(chat::caption_of(message, kinds, lines)).len() > 0,
{
    reveal_strlit("[Attachment Notice] Non-image attachment MIME types: ");
    reveal_strlit("\n\n");
    let t = chat::caption_of(message, kinds, lines);
    let at: int = if text::trim_of(message).len() == 0 {
        0
    } else {
        message.len() as int + 2
    };
    assert(t[at] == '[');
    lemma_not_blank(t, at);
}

proof fn lemma_parted(attachments: Seq<ChannelAttachment>)
    ensures
        images_in(attachments).len() + chat::other_types(attachments).len() == attachments.len(),
    decreases attachments.len(),
{
    reveal(Seq::filter);
    if attachments.len() > 0 {
        lemma_parted(attachments.drop_last());
    }
}

/// Whether an action is what a message with attachments comes to once it is known what was stored:
/// with images among them these are sent, in their order, with the message; without, the message goes
/// on as a text that names what is attached.
pub open spec fn is_attached(
    c: ChatCall,
    message: Seq<char>,
    attachments: Seq<ChannelAttachment>,
    saved: Seq<SavedAttachment>,
    h: Seq<Answer>,
    k: int,
    a: ActionView,
) -> bool {
    if images_in(attachments).len() == 0 {
        let t = chat::fallback_of(
            message,
            chat::other_types(attachments),
            chat::saved_lines(saved),
        );
        is_waiting(c, session_at(c, h, k), a) || exists|o: Outgoing<Seq<char>, Seq<Seq<char>>>| #[trigger]
            is_text_of(c, t, h, k, o) && action_fits(c, o, h, a)
    } else {
        is_waiting(c, session_at(c, h, 0), a) || exists|o: Outgoing<Seq<char>, Seq<Seq<char>>>| #[trigger]
            is_images_of(c, message, attachments, saved, h, k, o) && action_fits(c, o, h, a)
    }
}

/// What was stored of the attachments is what was answered when it was asked for; without a store,
/// nothing was.
pub open spec fn is_stored(
    c: ChatCall,
    message: Seq<char>,
    attachments: Seq<ChannelAttachment>,
    saved: Seq<SavedAttachment>,
    h: Seq<Answer>,
    k: int,
) -> bool {
    &&& 0 <= k <= h.len()
    &&& !c.has_attachment_store ==> saved.len() == 0
    &&& c.has_attachment_store ==> {
        &&& 0 < k
        &&& h[k - 1] is Saved
        &&& h[k - 1]->Saved_0@ == saved
        &&& chat::attachments_step(c, message, attachments, h.take(k - 1)).ask is SaveAttachments
    }
}

/// A message with attachments waits for something about its session, or it is sent with all of them:
/// the images themselves, and what the other ones are and where they lie.
#[verifier::rlimit(50)]
pub proof fn law_attachments(
    c: ChatCall,
    message: Seq<char>,
    attachments: Seq<ChannelAttachment>,
    h: Seq<Answer>,
)
    requires
        attachments.len() > 0,
    ensures
        is_waiting(
            c,
            session_at(c, h, 0),
            chat::attachments_step(c, message, attachments, h),
        ) || exists|saved: Seq<SavedAttachment>, k: int| #[trigger]
            is_stored(c, message, attachments, saved, h, k) && is_attached(
                c,
                message,
                attachments,
                saved,
                h,
                k,
                chat::attachments_step(c, message, attachments, h),
            ),
{
    if c.ready {
        lemma_inbound(c, h, 0);
        if let Progress::Ready(key, k) = chat::inbound_session(c.has_metadata, c.target, h, 0) {
            if !c.has_attachment_store {
                let none = Seq::<SavedAttachment>::empty();
                assert(chat::saved_lines(none) =~= Seq::empty());
                lemma_attached(c, message, attachments, none, h, k);
                assert(is_stored(c, message, attachments, none, h, k));
            } else if k < h.len() {
                if let Answer::Saved(saved) = h[k] {
                    lemma_attached(c, message, attachments, saved@, h, k + 1);
                    lemma_inbound_prefix(c, h, 0, k);
                    assert(is_stored(c, message, attachments, saved@, h, k + 1));
                }
            }
        }
    }
}

#[verifier::rlimit(50)]
proof fn lemma_attached(
    c: ChatCall,
    message: Seq<char>,
    attachments: Seq<ChannelAttachment>,
    saved: Seq<SavedAttachment>,
    h: Seq<Answer>,
    k: int,
)
    requires
        0 <= k <= h.len(),
        attachments.len() > 0,
    ensures
        is_attached(
            c,
            message,
            attachments,
            saved,
            h,
            k,
            chat::saved_step(
                c,
                session_at(c, h, 0),
                message,
                attachments,
                chat::saved_lines(saved),
                h,
                k,
            ),
        ),
{
    let key = session_at(c, h, 0);
    let lines = chat::saved_lines(saved);
    let kinds = chat::other_types(attachments);
    let images = chat::image_uris(attachments);
    let t = chat::fallback_of(message, kinds, lines);
    lemma_images(attachments);
    lemma_parted(attachments);
    if images.len() == 0 {
        lemma_text(c, t, h, k);
    } else {
        lemma_briefed(c, key, message, h, k);
        if let Progress::Ready(b, n) = chat::handoff_context(c, key, message, h, k) {
            let caption = chat::caption_of(b.message, kinds, lines);
            let o = Outgoing {
                key,
                shown: chat::shown_of(message, images.len(), kinds.len()),
                has_attachments: true,
                body: chat::parts_of(images, caption),
                audio_filename: None,
            };
            lemma_index(c, o, b.used_up, h, n);
            law_caption(b.message, attachments, saved);
            if kinds.len() > 0 {
                lemma_noticed(b.message, kinds, lines);
            }
            assert(is_told(c, key, h, k, message, b.message));
            assert(is_caption(b.message, attachments, saved, o.body->text));
            assert(is_images_of(c, message, attachments, saved, h, k, o));
        }
    }
}

} // verus!
