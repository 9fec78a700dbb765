//! What the answers to the commands show, in terms of what there is to show.

use crate::channel::ChannelError;
use crate::gateway::commands;
use crate::gateway::commands::{AgentPersona, HandoffMode, SessionsCommand};
use crate::gateway::dispatch;
use crate::gateway::dispatch::{CommandCall, Handing};
use crate::gateway::host;
use crate::gateway::host::{Answer, Ask, Change, Effect};
use crate::gateway::reports;
use crate::gateway::reports::{CachedImage, SessionEntry};
use crate::gateway::sessions;
use crate::json::{Json, JsonView};
use crate::text;
use vstd::prelude::*;

verus! {

proof fn lemma_has(s: Seq<char>, p: Seq<char>, at: int)
    requires
        0 <= at,
        text::occurs_at(s, p, at),
    ensures
        text::has(s, p),
{
    text::lemma_find(s, p, 0);
}

proof fn lemma_parts(s: Seq<char>, before: Seq<char>, p: Seq<char>, after: Seq<char>)
    requires
        s == before + p + after,
    ensures
        text::has(s, p),
{
    let n: int = before.len() as int;
    assert(s.subrange(n, n + p.len()) =~= p);
    lemma_has(s, p, n);
}

proof fn lemma_joined(parts: Seq<Seq<char>>, sep: Seq<char>, i: int) -> (at: int)
    requires
        0 <= i < parts.len(),
    ensures
        0 <= at,
        text::occurs_at(text::join_of(parts, sep), parts[i], at),
    decreases parts.len(),
{
    let all = text::join_of(parts, sep);
    if parts.len() == 1 {
        assert(all.subrange(0, all.len() as int) =~= parts[0]);
        0
    } else {
        let rest = parts.drop_last();
        let before = text::join_of(rest, sep);
        if i < rest.len() {
            let at = lemma_joined(rest, sep, i);
            assert(all.subrange(at, at + parts[i].len()) =~= before.subrange(at, at + parts[i].len()));
            at
        } else {
            let at: int = before.len() + sep.len() as int;
            assert(all.subrange(at, at + parts[i].len()) =~= parts[i]);
            at
        }
    }
}

/// What a line shows, the lines show.
proof fn lemma_line(parts: Seq<Seq<char>>, sep: Seq<char>, i: int, p: Seq<char>)
    requires
        0 <= i < parts.len(),
        text::has(parts[i], p),
    ensures
        text::has(text::join_of(parts, sep), p),
{
    let all = text::join_of(parts, sep);
    let at = lemma_joined(parts, sep, i);
    text::lemma_find(parts[i], p, 0);
    let n = text::find_in(parts[i], p)->0;
    assert(all.subrange(at + n, at + n + p.len()) =~= all.subrange(at, at + parts[i].len()).subrange(
        n,
        n + p.len(),
    ));
    lemma_has(all, p, at + n);
}

/// What stands for a number in a list.
pub open spec fn numbered(i: int, t: Seq<char>) -> Seq<char> {
    text::decimal((i + 1) as nat) + ". "@ + t
}

// ---- sessions ----

/// The list of sessions shows each session under its number, with its label, or its key where it has
/// none, and the number of its messages; the current one is marked, and so is one that is archived.
pub proof fn law_sessions_shown(
    sessions: Seq<SessionEntry>,
    current: Seq<char>,
    archived: nat,
    i: int,
)
    requires
        0 <= i < sessions.len(),
    ensures
        ({
            let s = sessions[i];
            let title = match s.label {
                Some(l) => l@,
                None => s.key@,
            };
            let shown = numbered(i, title) + " ("@ + text::decimal(s.message_count as nat)
                + " msgs)"@;
            let t = reports::sessions_text(sessions, current, archived);
            &&& text::has(t, shown)
            &&& s.archived && s.key@ != current ==> text::has(t, shown + " (archived)"@)
            &&& !s.archived && s.key@ == current ==> text::has(t, shown + " *"@)
            &&& s.archived && s.key@ == current ==> text::has(t, shown + " (archived)"@ + " *"@)
        }),
{
    let s = sessions[i];
    let title = s.title();
    let shown = numbered(i, title) + " ("@ + text::decimal(s.message_count as nat) + " msgs)"@;
    let line = reports::session_line(i, s, current);
    let lines = reports::session_lines(sessions, current) + reports::session_hints(archived);
    assert(lines[i] == line);
    let none = Seq::<char>::empty();
    reveal_strlit("");
    let a = if s.archived {
        " (archived)"@
    } else {
        ""@
    };
    let b = if s.key@ == current {
        " *"@
    } else {
        ""@
    };
    let tail = a + b;
    assert(line =~= none + shown + tail);
    lemma_parts(line, none, shown, tail);
    lemma_line(lines, "\n"@, i, shown);
    let marked = shown + a + b;
    assert(line =~= none + marked + none);
    lemma_parts(line, none, marked, none);
    lemma_line(lines, "\n"@, i, marked);
    assert(s.archived && s.key@ != current ==> marked =~= shown + " (archived)"@);
    assert(!s.archived && s.key@ == current ==> marked =~= shown + " *"@);
}

// ---- agents ----

/// What a line of the list of agents is made of.
proof fn lemma_agent_line(
    i: int,
    a: AgentPersona,
    default_id: Seq<char>,
    current: Seq<char>,
    with_emoji: bool,
) -> (r: (Seq<char>, Seq<char>, Seq<char>))
    ensures
        reports::agent_line(i, a, default_id, current, with_emoji) == (text::decimal((i + 1) as nat)
            + ". "@ + r.0) + (a.name@ + " ["@ + a.id@ + "]"@) + (r.1 + r.2),
        a.id@ == default_id ==> r.1 == " (default)"@,
        a.id@ != default_id ==> r.1.len() == 0,
        a.id@ == current ==> r.2 == " *"@,
{
    reveal_strlit("");
    let d = if a.id@ == default_id {
        " (default)"@
    } else {
        ""@
    };
    let m = if a.id@ == current {
        " *"@
    } else {
        ""@
    };
    let face = match a.emoji {
        Some(e) => if with_emoji && e@.len() > 0 {
            e@ + " "@
        } else {
            Seq::empty()
        },
        None => Seq::empty(),
    };
    let number = text::decimal((i + 1) as nat) + ". "@;
    assert(reports::agent_label(a, with_emoji) =~= face + a.name@);
    assert(reports::agent_line(i, a, default_id, current, with_emoji) =~= (number + face) + (a.name@
        + " ["@ + a.id@ + "]"@) + (d + m));
    (face, d, m)
}

/// The list of agents shows each agent under its number, with its name and its id; the current one is
/// marked, and so is the default.
pub proof fn law_agents_shown(
    agents: Seq<AgentPersona>,
    default_id: Seq<char>,
    current: Seq<char>,
    with_emoji: bool,
    hint: Seq<char>,
    i: int,
)
    requires
        0 <= i < agents.len(),
    ensures
        ({
            let a = agents[i];
            let t = reports::agents_text(agents, default_id, current, with_emoji, hint);
            let shown = a.name@ + " ["@ + a.id@ + "]"@;
            &&& text::has(t, shown)
            &&& text::has(t, text::decimal((i + 1) as nat) + ". "@)
            &&& a.id@ == default_id ==> text::has(t, shown + " (default)"@)
            &&& a.id@ == current && a.id@ != default_id ==> text::has(t, shown + " *"@)
            &&& text::has(t, hint)
        }),
{
    let a = agents[i];
    let shown = a.name@ + " ["@ + a.id@ + "]"@;
    let number = text::decimal((i + 1) as nat) + ". "@;
    let line = reports::agent_line(i, a, default_id, current, with_emoji);
    let lines = Seq::new(
        agents.len(),
        |i: int| reports::agent_line(i, agents[i], default_id, current, with_emoji),
    ).push(hint);
    assert(lines[i] == line);
    let none = Seq::<char>::empty();
    let (face, d, m) = lemma_agent_line(i, a, default_id, current, with_emoji);
    let head = number + face;
    lemma_parts(line, head, shown, d + m);
    lemma_line(lines, "\n"@, i, shown);
    let rest = face + shown + (d + m);
    assert(line =~= none + number + rest);
    lemma_parts(line, none, number, rest);
    lemma_line(lines, "\n"@, i, number);
    if a.id@ == default_id {
        assert(line =~= head + (shown + d) + m);
        lemma_parts(line, head, shown + d, m);
        lemma_line(lines, "\n"@, i, shown + d);
    } else if a.id@ == current {
        assert(line =~= head + (shown + m) + none);
        lemma_parts(line, head, shown + m, none);
        lemma_line(lines, "\n"@, i, shown + m);
    }
    let last = lines.len() - 1;
    assert(lines[last] == hint);
    assert(hint =~= none + hint + none);
    lemma_parts(hint, none, hint, none);
    lemma_line(lines, "\n"@, last, hint);
}

// ---- models ----

proof fn lemma_model_line(
    models: Seq<JsonView>,
    current: Option<Seq<char>>,
    provider: Option<Seq<char>>,
    i: int,
) -> (j: int)
    requires
        0 <= i < models.len(),
        provider matches Some(p) ==> models[i].text_at("provider"@) == Some(p),
    ensures
        0 <= j < reports::model_lines(models, current, provider).len(),
        reports::model_lines(models, current, provider)[j] == reports::model_line(
            i,
            models[i],
            current,
        ),
    decreases models.len(),
{
    if i == models.len() - 1 {
        reports::model_lines(models, current, provider).len() - 1
    } else {
        lemma_model_line(models.drop_last(), current, provider, i)
    }
}

/// The list of models shows each model of the provider, or each model where none is asked for, under
/// its number among all models, with the name that the user sees, or its id where it has none, and its
/// provider; the current one is marked.
pub proof fn law_models_shown(
    models: Seq<JsonView>,
    current: Option<Seq<char>>,
    provider: Option<Seq<char>>,
    i: int,
    id: Seq<char>,
    p: Seq<char>,
)
    requires
        0 <= i < models.len(),
        models[i].text_at("id"@) == Some(id),
        models[i].text_at("provider"@) == Some(p),
        provider is None || provider == Some(p),
    ensures
        ({
            let t = reports::models_text(models, current, provider);
            let name = match models[i].text_at("displayName"@) {
                Some(d) => d,
                None => id,
            };
            let shown = numbered(i, name) + " ["@ + p + "]"@;
            &&& text::has(t, shown)
            &&& current == Some(id) ==> text::has(t, shown + " *"@)
        }),
{
    let name = match models[i].text_at("displayName"@) {
        Some(d) => d,
        None => id,
    };
    let shown = numbered(i, name) + " ["@ + p + "]"@;
    let lines = reports::model_lines(models, current, provider);
    let line = reports::model_line(i, models[i], current);
    let j = lemma_model_line(models, current, provider, i);
    let none = Seq::<char>::empty();
    let m = if current == Some(id) {
        " *"@
    } else {
        ""@
    };
    assert(line =~= none + shown + m);
    lemma_parts(line, none, shown, m);
    lemma_line(lines, "\n"@, j, shown);
    let marked = shown + m;
    assert(line =~= none + marked + none);
    lemma_parts(line, none, marked, none);
    lemma_line(lines, "\n"@, j, marked);
}

// ---- images ----

/// The list of images shows the default image first and each cached image after it, under its number,
/// with its tag, what it is for and its size; the current one is marked; and whether the sandbox is on.
pub proof fn law_images_shown(
    enabled: bool,
    default_image: Seq<char>,
    cached: Seq<CachedImage>,
    current: Seq<char>,
    i: int,
)
    requires
        0 <= i < cached.len(),
    ensures
        ({
            let t = reports::images_text(enabled, default_image, cached, current);
            let c = cached[i];
            let shown = numbered(i + 1, c.tag@) + " — "@ + c.skill_name@ + " ("@ + c.size@ + ")"@;
            &&& text::has(t, numbered(0, default_image))
            &&& text::has(t, shown)
            &&& c.tag@ == current ==> text::has(t, shown + " *"@)
            &&& enabled ==> text::has(t, "status:"@ + "on"@)
            &&& !enabled ==> text::has(t, "status:"@ + "off"@)
        }),
{
    let c = cached[i];
    let shown = numbered(i + 1, c.tag@) + " — "@ + c.skill_name@ + " ("@ + c.size@ + ")"@;
    let none = Seq::<char>::empty();
    reveal_strlit("");
    let status = "status:"@ + (if enabled {
        "on"@
    } else {
        "off"@
    });
    let list = Seq::new(
        cached.len() + 1,
        |i: int| reports::image_line(i, default_image, cached, current),
    );
    let lines = seq![status] + list;
    assert(lines[0] == status);
    assert(lines[1] == list[0]);
    assert(lines[i + 2] == list[i + 1]);
    assert(status =~= none + status + none);
    lemma_parts(status, none, status, none);
    lemma_line(lines, "\n"@, 0, status);
    let first = reports::image_line(0, default_image, cached, current);
    let d = numbered(0, default_image);
    let m0 = if default_image == current {
        " *"@
    } else {
        ""@
    };
    assert(first =~= none + d + m0);
    lemma_parts(first, none, d, m0);
    lemma_line(lines, "\n"@, 1, d);
    let line = reports::image_line(i + 1, default_image, cached, current);
    let m = if c.tag@ == current {
        " *"@
    } else {
        ""@
    };
    assert(line =~= none + shown + m);
    lemma_parts(line, none, shown, m);
    lemma_line(lines, "\n"@, i + 2, shown);
    let marked = shown + m;
    assert(line =~= none + marked + none);
    lemma_parts(line, none, marked, none);
    lemma_line(lines, "\n"@, i + 2, marked);
}

// ---- the context ----

proof fn lemma_longer(a: Seq<char>, p: Seq<char>, b: Seq<char>)
    requires
        text::begins(a, p),
    ensures
        text::begins(a + b, p),
{
    assert((a + b).subrange(0, p.len() as int) =~= a.subrange(0, p.len() as int));
}

proof fn lemma_end(x: Seq<char>, a: Seq<char>, b: Seq<char>, c: Seq<char>, d: Seq<char>)
    ensures
        text::ends(x + a + b + c + d, a + b + c + d),
{
    let s = x + a + b + c + d;
    let e = a + b + c + d;
    assert(s =~= x + e);
    assert(s.subrange(s.len() - e.len(), s.len() as int) =~= e);
}

/// The answer to the context command shows the key of the session, the number of its messages, its
/// provider and its model first, and the tokens that are used and that there are last.
pub proof fn law_context_shown(
    key: Seq<char>,
    j: JsonView,
    session: JsonView,
    usage: JsonView,
    messages: u64,
    total: u64,
    window: u64,
)
    requires
        j.member("session"@) == Some(session),
        j.member("tokenUsage"@) == Some(usage),
        session.text_at("provider"@) is Some,
        session.text_at("model"@) is Some,
        session.unsigned_at("messageCount"@) == Some(messages),
        usage.unsigned_at("total"@) == Some(total),
        usage.unsigned_at("contextWindow"@) == Some(window),
    ensures
        text::begins(
            reports::context_text(key, j),
            "**Session:** `"@ + key + "`\n**Messages:** "@ + text::decimal(messages as nat)
                + "\n**Provider:** "@ + session.text_at("provider"@)->0 + "\n**Model:** `"@
                + session.text_at("model"@)->0 + "`\n"@,
        ),
        text::ends(
            reports::context_text(key, j),
            "\n**Tokens:** ~"@ + text::decimal(total as nat) + "/"@ + text::decimal(window as nat),
        ),
{
    let t0 = "**Session:** `"@ + key + "`\n**Messages:** "@ + text::decimal(messages as nat)
        + "\n**Provider:** "@ + session.text_at("provider"@)->0 + "\n**Model:** `"@
        + session.text_at("model"@)->0 + "`\n"@;
    let t1 = t0 + reports::sandbox_line(j);
    let t2 = t1 + "\n"@;
    let t3 = t2 + reports::skills_line(j);
    let t4 = t3 + "\n**Tokens:** ~"@;
    let t5 = t4 + text::decimal(total as nat);
    let t6 = t5 + "/"@;
    let t7 = t6 + text::decimal(window as nat);
    assert(reports::context_text(key, j) == t7);
    assert(t0.subrange(0, t0.len() as int) =~= t0);
    lemma_longer(t0, t0, reports::sandbox_line(j));
    lemma_longer(t1, t0, "\n"@);
    lemma_longer(t2, t0, reports::skills_line(j));
    lemma_longer(t3, t0, "\n**Tokens:** ~"@);
    lemma_longer(t4, t0, text::decimal(total as nat));
    lemma_longer(t5, t0, "/"@);
    lemma_longer(t6, t0, text::decimal(window as nat));
    lemma_end(t3, "\n**Tokens:** ~"@, text::decimal(total as nat), "/"@, text::decimal(window as nat));
}

// ---- arguments ----

/// The name of a mode names that mode.
pub proof fn law_mode_name(mode: HandoffMode)
    ensures
        commands::mode_of(mode.name()) == Some(mode),
{
    reveal_strlit("same_session");
    reveal_strlit("new_session");
    reveal_strlit("fork_session");
    reveal_strlit("same");
    reveal_strlit("new");
    reveal_strlit("fork");
    let name = mode.name();
    text::lemma_trim_id(name);
    assert(text::lower_of(name) =~= name);
    assert("same_session"@[0] == 's' && "new_session"@[0] == 'n' && "fork_session"@[0] == 'f');
    assert("same"@[0] == 's' && "new"@[0] == 'n' && "fork"@[0] == 'f');
}

/// The words after `/sessions` choose what is done: a number switches, and `archive` and `unarchive`
/// with a number do what they say; a number is at least one.
pub proof fn law_sessions_words(args: Seq<char>, word: Seq<char>, n: usize)
    requires
        n >= 1,
        text::number_up_to(word, usize::MAX as nat) == Some(n as nat),
        text::trim_of(args).len() > 0,
    ensures
        text::words_of(text::trim_of(args)) == seq![word] && word != "archive"@ && word
            != "unarchive"@ ==> commands::sessions_args_of(args) == Ok::<
            SessionsCommand,
            ChannelError<Seq<char>>,
        >(SessionsCommand::Switch(n)),
        text::words_of(text::trim_of(args)) == seq!["archive"@, word] ==> commands::sessions_args_of(
            args,
        ) == Ok::<SessionsCommand, ChannelError<Seq<char>>>(
            SessionsCommand::Archive(n),
        ),
        text::words_of(text::trim_of(args)) == seq!["unarchive"@, word]
            ==> commands::sessions_args_of(args) == Ok::<
            SessionsCommand,
            ChannelError<Seq<char>>,
        >(SessionsCommand::Unarchive(n)),
{
    reveal_strlit("archive");
    reveal_strlit("unarchive");
    assert("archive"@.len() != "unarchive"@.len());
}

// ---- what a command answers ----

/// What the user sees of a session: its label, or its key where it has none.
pub open spec fn title_of(s: SessionEntry) -> Seq<char> {
    match s.label {
        Some(l) => l@,
        None => s.key@,
    }
}

proof fn lemma_ends(a: Seq<char>, b: Seq<char>)
    ensures
        text::ends(a + b, b),
        text::begins(a + b, a),
{
    let s = a + b;
    assert(s.subrange(s.len() - b.len(), s.len() as int) =~= b);
    assert(s.subrange(0, a.len() as int) =~= a);
}

/// A session that is archived, restored or switched to is named in the answer, and the answer to the
/// first two comes only once that worked; without arguments the sessions are listed, with the one of
/// the chat as the current one.
pub proof fn law_sessions_told(
    target: crate::channel::ChannelReplyTarget,
    args: Seq<char>,
    key: Seq<char>,
    all: Seq<SessionEntry>,
    archived: u64,
    h: Seq<Answer>,
    k: int,
    n: usize,
    t: Seq<char>,
)
    requires
        1 <= n <= all.len(),
        dispatch::sessions_choice(target, args, key, all, archived, h, k).ask == Ask::<
            Seq<char>,
            Seq<Seq<char>>,
        >::Finish(Ok(t)),
        0 <= k,
    ensures
        ({
            let c = commands::sessions_args_of(args);
            let s = all[n - 1];
            &&& c == Ok::<SessionsCommand, ChannelError<Seq<char>>>(SessionsCommand::Switch(n))
                ==> !s.archived && text::ends(t, title_of(s))
            &&& c == Ok::<SessionsCommand, ChannelError<Seq<char>>>(SessionsCommand::Archive(n))
                ==> s.archived || (k < h.len() && h[k] is Outcome && h[k]->Outcome_0 is Ok
                && text::ends(t, title_of(s)))
            &&& c == Ok::<SessionsCommand, ChannelError<Seq<char>>>(SessionsCommand::Unarchive(n))
                ==> !s.archived || (k < h.len() && h[k] is Outcome && h[k]->Outcome_0 is Ok
                && text::ends(t, title_of(s)))
            &&& c == Ok::<SessionsCommand, ChannelError<Seq<char>>>(SessionsCommand::List)
                ==> text::has(t, numbered(n - 1, title_of(s)))
        }),
{
    let s = all[n - 1];
    lemma_ends("Archived: "@, title_of(s));
    lemma_ends("Unarchived: "@, title_of(s));
    lemma_ends("Switched to: "@, title_of(s));
    if commands::sessions_args_of(args) == Ok::<SessionsCommand, ChannelError<Seq<char>>>(
        SessionsCommand::List,
    ) {
        let line = reports::session_line(n - 1, s, key);
        let lines = reports::session_lines(all, key) + reports::session_hints(archived as nat);
        assert(lines[n - 1] == line);
        let shown = numbered(n - 1, title_of(s));
        let rest = line.skip(shown.len() as int);
        let none = Seq::<char>::empty();
        assert(line =~= none + shown + rest);
        lemma_parts(line, none, shown, rest);
        lemma_line(lines, "\n"@, n - 1, shown);
    }
}

/// The answer to a hand-off names the agent, the mode and the session, and the note if there is one.
pub proof fn law_handoff_told(d: Handing<Seq<char>>, key: Seq<char>)
    ensures
        ({
            let t = dispatch::handoff_reply(d, key);
            &&& text::begins(t, "Handoff to "@ + d.to_name + " ["@ + d.to_id + "]"@)
            &&& text::has(t, d.mode.name() + ". Session: "@ + key)
            &&& d.note.len() > 0 ==> text::ends(t, "\nNote: "@ + d.note)
            &&& d.note.len() == 0 ==> text::ends(t, key)
        }),
{
    reveal_strlit("] via ");
    reveal_strlit("]");
    reveal_strlit(" via ");
    reveal_strlit("");
    let t = dispatch::handoff_reply(d, key);
    let a = "Handoff to "@ + d.to_name + " ["@ + d.to_id;
    let b = a + "] via "@;
    let p = d.mode.name() + ". Session: "@ + key;
    let e = if d.note.len() == 0 {
        ""@
    } else {
        "\nNote: "@ + d.note
    };
    assert(t =~= b + p + e);
    lemma_parts(t, b, p, e);
    let head = a + "]"@;
    assert(b =~= head + " via "@);
    lemma_ends(head, " via "@);
    lemma_longer(b, head, p);
    lemma_longer(b + p, head, e);
    lemma_ends(b + p, e);
    if d.note.len() == 0 {
        let before = b + (d.mode.name() + ". Session: "@);
        assert(t =~= before + key);
        lemma_ends(before, key);
    }
}

/// The answer to `new` names the model that the session starts with, where the user sees one.
pub proof fn law_new_told(id: Seq<char>, display: Seq<char>)
    requires
        display.len() > 0,
    ensures
        text::has(dispatch::new_reply(Some((id, display))), "*"@ + display + "*"@),
        dispatch::new_reply(None) == "New session started."@,
{
    reveal_strlit("New session started. Using *");
    reveal_strlit("New session started. Using ");
    reveal_strlit("*");
    reveal_strlit("*. Use /model to change.");
    reveal_strlit(". Use /model to change.");
    let t = dispatch::new_reply(Some((id, display)));
    let p = "*"@ + display + "*"@;
    let a = "New session started. Using "@;
    let b = ". Use /model to change."@;
    assert(t =~= a + p + b);
    lemma_parts(t, a, p, b);
}

/// What the user sees of an agent ends with its name.
pub proof fn law_agent_named(a: AgentPersona, with_emoji: bool)
    ensures
        text::ends(reports::agent_label(a, with_emoji), a.name@),
{
    let none = Seq::<char>::empty();
    let face = match a.emoji {
        Some(e) => if with_emoji && e@.len() > 0 {
            e@ + " "@
        } else {
            none
        },
        None => none,
    };
    assert(reports::agent_label(a, with_emoji) =~= face + a.name@);
    lemma_ends(face, a.name@);
}

// ---- providers ----

/// A provider has as many models as name it.
pub proof fn law_provider_count(models: Seq<JsonView>, provider: Seq<char>)
    ensures
        reports::provider_count(models, provider) == models.filter(
            |m: JsonView| m.text_at("provider"@) == Some(provider),
        ).len(),
    decreases models.len(),
{
    reveal(Seq::filter);
    if models.len() > 0 {
        law_provider_count(models.drop_last(), provider);
    }
}

/// Where there is more than one provider, each one that a model names is listed with the number of its
/// models.
pub proof fn law_providers_shown(models: Seq<JsonView>, current: Option<Seq<char>>, i: int)
    requires
        reports::each_once(reports::names_of(models, "provider"@)).len() > 1,
        0 <= i < reports::each_once(reports::names_of(models, "provider"@)).len(),
    ensures
        ({
            let p = reports::each_once(reports::names_of(models, "provider"@))[i];
            text::has(
                reports::model_overview(models, current),
                numbered(i, p) + " ("@ + text::decimal(
                    models.filter(|m: JsonView| m.text_at("provider"@) == Some(p)).len(),
                ) + " models)"@,
            )
        }),
{
    let providers = reports::each_once(reports::names_of(models, "provider"@));
    let p = providers[i];
    law_provider_count(models, p);
    let now = reports::current_provider(models, current);
    let list = Seq::new(
        providers.len(),
        |i: int| reports::provider_line(i, providers[i], models, now),
    );
    let lines = seq!["providers:"@] + list;
    assert(lines[i + 1] == list[i]);
    let line = reports::provider_line(i, p, models, now);
    let shown = numbered(i, p) + " ("@ + text::decimal(reports::provider_count(models, p))
        + " models)"@;
    let m = if now == Some(p) {
        " *"@
    } else {
        ""@
    };
    let none = Seq::<char>::empty();
    assert(line =~= none + shown + m);
    lemma_parts(line, none, shown, m);
    lemma_line(lines, "\n"@, i + 1, shown);
}

// ---- what a command looks up ----

/// A new session starts with the model of its account, where its settings name one, else with the first
/// registered model, as the user sees it.
pub proof fn law_new_model(
    c: CommandCall,
    status: Option<Json>,
    models: Result<Json, String>,
    settings: JsonView,
)
    requires
        host::config_in(host::status_view(status), None, c.target.account_id@) == Some(settings),
    ensures
        settings.text_at("model"@) matches Some(m) ==> (dispatch::new_model(c, status, models) matches Some(
            x,
        ) && x.0 == m && x.1 == sessions::display_of(sessions::models_in(models), m)),
        settings.text_at("model"@) is None ==> (models matches Ok(j) ==> (j@.items() matches Some(ms)
            ==> (ms.len() > 0 ==> match ms[0].text_at("id"@) {
            Some(m) => dispatch::new_model(c, status, models) matches Some(x) && x.0 == m,
            None => dispatch::new_model(c, status, models) is None,
        }))),
{
}

/// A change to a session is announced with the version that the session has after it.
pub proof fn law_version(
    work: Ask<Seq<char>, Seq<Seq<char>>>,
    key: Seq<char>,
    t: Seq<char>,
    h: Seq<Answer>,
    k: int,
    j: Json,
    n: u64,
)
    requires
        0 <= k < h.len(),
        h[k] == Answer::Document(Ok(j)),
        j@.unsigned_at("version"@) == Some(n),
    ensures
        dispatch::patch_step(work, key, t, h, k).effects == seq![
            Effect::Announce { change: Change::Patched, key, version: Some(n) },
        ],
        dispatch::patch_step(work, key, t, h, k).ask == Ask::<Seq<char>, Seq<Seq<char>>>::Finish(
            Ok(t),
        ),
{
}

/// The image that a list marks is the one of the session, where it has one, else the default one.
pub proof fn law_current_image(
    c: CommandCall,
    key: Seq<char>,
    enabled: bool,
    h: Seq<Answer>,
    k: int,
    entry: SessionEntry,
    image: String,
)
    requires
        0 <= k < h.len(),
        h[k] == Answer::Session(Some(entry)),
        entry.sandbox_image == Some(image),
    ensures
        image@.len() > 0 ==> dispatch::sandbox_status(c, key, enabled, h, k)
            == dispatch::sandbox_list(c, enabled, image@, h, k + 1),
        image@.len() == 0 && !c.has_router ==> dispatch::sandbox_status(c, key, enabled, h, k)
            == dispatch::sandbox_list(c, enabled, c.default_image@, h, k + 1),
{
}

/// The state of the command mode is told as it is, and where its commands run.
pub proof fn law_mode_told(key: Seq<char>, sandboxed: bool, h: Seq<Answer>, k: int, enabled: bool)
    requires
        0 <= k < h.len(),
        h[k] == Answer::Flag(enabled),
    ensures
        ({
            let a = dispatch::sh_choice("status"@, key, sandboxed, h, k);
            let route = if sandboxed {
                "(sandboxed)"@
            } else {
                "(host)"@
            };
            &&& a.effects.len() == 0
            &&& a.ask matches Ask::Finish(Ok(t))
            &&& text::has(t, route)
            &&& text::begins(
                t,
                if enabled {
                    "Command mode is enabled"@
                } else {
                    "Command mode is disabled"@
                },
            )
        }),
{
    reveal_strlit("status");
    reveal_strlit("on");
    reveal_strlit("off");
    reveal_strlit("exit");
    assert("status"@[0] == 's' && "on"@[0] == 'o' && "off"@[0] == 'o' && "exit"@[0] == 'e');
    reveal_strlit("sandboxed");
    reveal_strlit("host");
    reveal_strlit("(sandboxed)");
    reveal_strlit("(host)");
    let name = dispatch::route_name(sandboxed);
    let route = if sandboxed {
        "(sandboxed)"@
    } else {
        "(host)"@
    };
    reveal_strlit("(");
    reveal_strlit(")");
    assert(route =~= "("@ + name + ")"@);
    if enabled {
        reveal_strlit("Command mode is enabled (");
        reveal_strlit("Command mode is enabled");
        reveal_strlit(" ");
        reveal_strlit("). Use /sh off (or /sh exit) to leave.");
        reveal_strlit(". Use /sh off (or /sh exit) to leave.");
        let t = "Command mode is enabled ("@ + name + "). Use /sh off (or /sh exit) to leave."@;
        let head = "Command mode is enabled"@ + " "@;
        let tail = ". Use /sh off (or /sh exit) to leave."@;
        assert(t =~= head + route + tail);
        lemma_parts(t, head, route, tail);
        lemma_ends("Command mode is enabled"@, " "@);
        lemma_longer(head, "Command mode is enabled"@, route);
        lemma_longer(head + route, "Command mode is enabled"@, tail);
    } else {
        reveal_strlit("Command mode is disabled (");
        reveal_strlit("Command mode is disabled");
        reveal_strlit(" ");
        reveal_strlit("). Use /sh to enable.");
        reveal_strlit(". Use /sh to enable.");
        let t = "Command mode is disabled ("@ + name + "). Use /sh to enable."@;
        let head = "Command mode is disabled"@ + " "@;
        let tail = ". Use /sh to enable."@;
        assert(t =~= head + route + tail);
        lemma_parts(t, head, route, tail);
        lemma_ends("Command mode is disabled"@, " "@);
        lemma_longer(head, "Command mode is disabled"@, route);
        lemma_longer(head + route, "Command mode is disabled"@, tail);
    }
}

} // verus!
