//! The texts with which the commands answer.

use crate::channel;
use crate::gateway::commands::AgentPersona;
use crate::json;
use crate::json::{Json, JsonView};
use crate::text;
use vstd::prelude::*;

verus! {

/// A session of a chat, as it is stored.
#[derive(Debug)]
pub struct SessionEntry {
    pub key: String,
    pub label: Option<String>,
    pub archived: bool,
    pub updated_at: u64,
    pub message_count: u64,
    pub channel_binding: Option<String>,
    pub agent_id: Option<String>,
    pub model: Option<String>,
    pub project_id: Option<String>,
    pub mcp_disabled: Option<bool>,
    pub sandbox_image: Option<String>,
}

impl SessionEntry {
    /// What the user sees of the session: its label, or its key where it has none.
    pub open spec fn title(self) -> Seq<char> {
        match self.label {
            Some(l) => l@,
            None => self.key@,
        }
    }

    /// What the user sees of the session.
    pub fn label_or_key(&self) -> (r: &str)
        ensures
            r@ == self.title(),
    {
        match &self.label {
            Some(l) => l.as_str(),
            None => self.key.as_str(),
        }
    }
}

// ---- context ----

/// The member `name`, or null where there is none.
pub open spec fn part(j: JsonView, name: Seq<char>) -> JsonView {
    match j.member(name) {
        Some(v) => v,
        None => JsonView::Null,
    }
}

/// The text of the member `name` of the part `section`, or a default.
pub open spec fn part_text(
    j: JsonView,
    section: Seq<char>,
    name: Seq<char>,
    default: Seq<char>,
) -> Seq<char> {
    match part(j, section).text_at(name) {
        Some(t) => t,
        None => default,
    }
}

/// The number in the member `name` of the part `section`, or zero.
pub open spec fn part_number(j: JsonView, section: Seq<char>, name: Seq<char>) -> nat {
    match part(j, section).unsigned_at(name) {
        Some(n) => n as nat,
        None => 0,
    }
}

fn get_part_text<'a>(j: &'a Json, section: &str, name: &str, default: &'a str) -> (r: &'a str)
    ensures
        r@ == part_text(j@, section@, name@, default@),
{
    match j.get(section) {
        Some(v) => match v.text_at(name) {
            Some(t) => t,
            None => default,
        },
        None => default,
    }
}

fn get_part_number(j: &Json, section: &str, name: &str) -> (r: u64)
    ensures
        r == part_number(j@, section@, name@),
{
    match j.get(section) {
        Some(v) => match v.unsigned_at(name) {
            Some(n) => n,
            None => 0,
        },
        None => 0,
    }
}

/// The line on the sandbox.
pub open spec fn sandbox_line(j: JsonView) -> Seq<char> {
    if part(j, "sandbox"@).truth_at("enabled"@) == Some(true) {
        "**Sandbox:** on · `"@ + part_text(j, "sandbox"@, "image"@, "default"@) + "`"@
    } else {
        "**Sandbox:** off"@
    }
}

/// The names of the items that have one, in order.
pub open spec fn names_of(items: Seq<JsonView>, name: Seq<char>) -> Seq<Seq<char>>
    decreases items.len(),
{
    if items.len() == 0 {
        Seq::empty()
    } else {
        let before = names_of(items.drop_last(), name);
        match items.last().text_at(name) {
            Some(t) => before.push(t),
            None => before,
        }
    }
}

/// The names of the items that have one, in order.
pub fn collect_names(items: &Vec<Json>, name: &str) -> (r: Vec<String>)
    ensures
        text::views(r@) == names_of(json::views(items@), name@),
{
    let ghost all = json::views(items@);
    let mut out: Vec<String> = Vec::new();
    let mut i: usize = 0;
    assert(text::views(out@) =~= names_of(all.take(0), name@));
    while i < items.len()
        invariant
            i <= items@.len(),
            all == json::views(items@),
            text::views(out@) == names_of(all.take(i as int), name@),
        decreases items@.len() - i,
    {
        assert(all.take(i + 1).drop_last() =~= all.take(i as int));
        assert(all.take(i + 1).last() == items@[i as int]@);
        if let Some(t) = items[i].text_at(name) {
            let ghost before = text::views(out@);
            out.push(t.to_string());
            assert(text::views(out@) =~= before.push(t@));
        }
        i += 1;
    }
    assert(all.take(i as int) =~= all);
    out
}

/// The line on the plug-ins.
pub open spec fn skills_line(j: JsonView) -> Seq<char> {
    match j.items_at("skills"@) {
        Some(items) => if items.len() == 0 {
            "**Plugins:** none"@
        } else {
            "**Plugins:** "@ + text::join_of(names_of(items, "name"@), ", "@)
        },
        None => "**Plugins:** none"@,
    }
}

/// The answer to the context command.
pub open spec fn context_text(key: Seq<char>, j: JsonView) -> Seq<char> {
    "**Session:** `"@ + key + "`\n**Messages:** "@ + text::decimal(
        part_number(j, "session"@, "messageCount"@),
    ) + "\n**Provider:** "@ + part_text(j, "session"@, "provider"@, "unknown"@)
        + "\n**Model:** `"@ + part_text(j, "session"@, "model"@, "default"@) + "`\n"@
        + sandbox_line(j) + "\n"@ + skills_line(j) + "\n**Tokens:** ~"@ + text::decimal(
        part_number(j, "tokenUsage"@, "total"@),
    ) + "/"@ + text::decimal(part_number(j, "tokenUsage"@, "contextWindow"@))
}

/// The answer to the context command.
pub fn context_report(key: &str, j: &Json) -> (r: String)
    ensures
        r@ == context_text(key@, j@),
{
    let mut out = "**Session:** `".to_string();
    out.append(key);
    out.append("`\n**Messages:** ");
    out.append(text::decimal_text(get_part_number(j, "session", "messageCount")).as_str());
    out.append("\n**Provider:** ");
    out.append(get_part_text(j, "session", "provider", "unknown"));
    out.append("\n**Model:** `");
    out.append(get_part_text(j, "session", "model", "default"));
    out.append("`\n");
    let enabled = match j.get("sandbox") {
        Some(v) => match v.truth_at("enabled") {
            Some(b) => b,
            None => false,
        },
        None => false,
    };
    let mut sandbox = "**Sandbox:** off".to_string();
    if enabled {
        sandbox = "**Sandbox:** on · `".to_string();
        sandbox.append(get_part_text(j, "sandbox", "image", "default"));
        sandbox.append("`");
    }
    assert(sandbox@ == sandbox_line(j@));
    out.append(sandbox.as_str());
    out.append("\n");
    let mut skills = "**Plugins:** none".to_string();
    if let Some(items) = j.items_at("skills") {
        if items.len() > 0 {
            skills = "**Plugins:** ".to_string();
            skills.append(text::join(&collect_names(items, "name"), ", ").as_str());
        }
    }
    assert(skills@ == skills_line(j@));
    out.append(skills.as_str());
    out.append("\n**Tokens:** ~");
    out.append(text::decimal_text(get_part_number(j, "tokenUsage", "total")).as_str());
    out.append("/");
    out.append(text::decimal_text(get_part_number(j, "tokenUsage", "contextWindow")).as_str());
    out
}

// ---- sessions ----

/// One line of the list of sessions.
pub open spec fn session_line(i: int, s: SessionEntry, current: Seq<char>) -> Seq<char> {
    text::decimal((i + 1) as nat) + ". "@ + s.title() + " ("@ + text::decimal(
        s.message_count as nat,
    ) + " msgs)"@ + (if s.archived {
        " (archived)"@
    } else {
        ""@
    }) + (if s.key@ == current {
        " *"@
    } else {
        ""@
    })
}

/// The lines on the sessions, in order.
pub open spec fn session_lines(sessions: Seq<SessionEntry>, current: Seq<char>) -> Seq<Seq<char>> {
    Seq::new(sessions.len(), |i: int| session_line(i, sessions[i], current))
}

/// What follows the list of sessions.
pub open spec fn session_hints(auto_archived: nat) -> Seq<Seq<char>> {
    (if auto_archived > 0 {
        seq!["\nAuto-archived "@ + text::decimal(auto_archived) + " stale session(s)."@]
    } else {
        Seq::<Seq<char>>::empty()
    }) + seq![
        "\nUse /sessions N to switch."@,
        "Use /sessions archive N to archive a session."@,
        "Use /sessions unarchive N to restore a session."@,
    ]
}

/// The answer to the sessions command without arguments.
pub open spec fn sessions_text(
    sessions: Seq<SessionEntry>,
    current: Seq<char>,
    auto_archived: nat,
) -> Seq<char> {
    text::join_of(session_lines(sessions, current) + session_hints(auto_archived), "\n"@)
}

fn write_session_line(i: usize, s: &SessionEntry, current: &str) -> (r: String)
    requires
        i < usize::MAX,
    ensures
        r@ == session_line(i as int, *s, current@),
{
    let mut line = text::decimal_text((i + 1) as u64);
    line.append(". ");
    line.append(s.label_or_key());
    line.append(" (");
    line.append(text::decimal_text(s.message_count).as_str());
    line.append(" msgs)");
    line.append(
        if s.archived {
            " (archived)"
        } else {
            ""
        },
    );
    line.append(
        if text::str_eq(s.key.as_str(), current) {
            " *"
        } else {
            ""
        },
    );
    line
}

/// The answer to the sessions command without arguments.
pub fn sessions_report(sessions: &Vec<SessionEntry>, current: &str, auto_archived: u64) -> (r:
    String)
    ensures
        r@ == sessions_text(sessions@, current@, auto_archived as nat),
{
    let mut lines: Vec<String> = Vec::new();
    let mut i: usize = 0;
    let ghost all = session_lines(sessions@, current@);
    assert(text::views(lines@) =~= all.take(0));
    while i < sessions.len()
        invariant
            i <= sessions@.len(),
            all == session_lines(sessions@, current@),
            text::views(lines@) == all.take(i as int),
        decreases sessions@.len() - i,
    {
        text::push_line(&mut lines, write_session_line(i, &sessions[i], current));
        assert(text::views(lines@) =~= all.take(i + 1));
        i += 1;
    }
    assert(all.take(i as int) =~= all);
    if auto_archived > 0 {
        let mut line = "\nAuto-archived ".to_string();
        line.append(text::decimal_text(auto_archived).as_str());
        line.append(" stale session(s).");
        text::push_line(&mut lines, line);
    }
    text::push_line(&mut lines, "\nUse /sessions N to switch.".to_string());
    text::push_line(&mut lines, "Use /sessions archive N to archive a session.".to_string());
    text::push_line(&mut lines, "Use /sessions unarchive N to restore a session.".to_string());
    assert(text::views(lines@) =~= all + session_hints(auto_archived as nat));
    text::join(&lines, "\n")
}

// ---- agents ----

/// How an agent is called: its emoji, if it has one, and its name.
pub open spec fn agent_label(a: AgentPersona, with_emoji: bool) -> Seq<char> {
    match a.emoji {
        Some(e) => if with_emoji && e@.len() > 0 {
            e@ + " "@ + a.name@
        } else {
            a.name@
        },
        None => a.name@,
    }
}

/// How an agent is called: its emoji, if it has one, and its name.
pub fn write_agent_label(a: &AgentPersona, with_emoji: bool) -> (r: String)
    ensures
        r@ == agent_label(*a, with_emoji),
{
    if let Some(e) = &a.emoji {
        if with_emoji && e.as_str().unicode_len() > 0 {
            let mut out = e.clone();
            out.append(" ");
            out.append(a.name.as_str());
            return out;
        }
    }
    a.name.clone()
}

/// One line of the list of agents.
pub open spec fn agent_line(
    i: int,
    a: AgentPersona,
    default_id: Seq<char>,
    current: Seq<char>,
    with_emoji: bool,
) -> Seq<char> {
    text::decimal((i + 1) as nat) + ". "@ + agent_label(a, with_emoji) + " ["@ + a.id@ + "]"@ + (
    if a.id@ == default_id {
        " (default)"@
    } else {
        ""@
    }) + (if a.id@ == current {
        " *"@
    } else {
        ""@
    })
}

/// The list of agents and the hint that follows it.
pub open spec fn agents_text(
    agents: Seq<AgentPersona>,
    default_id: Seq<char>,
    current: Seq<char>,
    with_emoji: bool,
    hint: Seq<char>,
) -> Seq<char> {
    text::join_of(
        Seq::new(
            agents.len(),
            |i: int| agent_line(i, agents[i], default_id, current, with_emoji),
        ).push(hint),
        "\n"@,
    )
}

fn write_agent_line(
    i: usize,
    a: &AgentPersona,
    default_id: &str,
    current: &str,
    with_emoji: bool,
) -> (r: String)
    requires
        i < usize::MAX,
    ensures
        r@ == agent_line(i as int, *a, default_id@, current@, with_emoji),
{
    let mut line = text::decimal_text((i + 1) as u64);
    line.append(". ");
    line.append(write_agent_label(a, with_emoji).as_str());
    line.append(" [");
    line.append(a.id.as_str());
    line.append("]");
    line.append(
        if text::str_eq(a.id.as_str(), default_id) {
            " (default)"
        } else {
            ""
        },
    );
    line.append(
        if text::str_eq(a.id.as_str(), current) {
            " *"
        } else {
            ""
        },
    );
    line
}

/// The list of agents and the hint that follows it.
pub fn agents_report(
    agents: &Vec<AgentPersona>,
    default_id: &str,
    current: &str,
    with_emoji: bool,
    hint: &str,
) -> (r: String)
    ensures
        r@ == agents_text(agents@, default_id@, current@, with_emoji, hint@),
{
    let mut lines: Vec<String> = Vec::new();
    let mut i: usize = 0;
    let ghost all = Seq::new(
        agents@.len(),
        |i: int| agent_line(i, agents@[i], default_id@, current@, with_emoji),
    );
    assert(text::views(lines@) =~= all.take(0));
    while i < agents.len()
        invariant
            i <= agents@.len(),
            all == Seq::new(
                agents@.len(),
                |i: int| agent_line(i, agents@[i], default_id@, current@, with_emoji),
            ),
            text::views(lines@) == all.take(i as int),
        decreases agents@.len() - i,
    {
        text::push_line(
            &mut lines,
            write_agent_line(i, &agents[i], default_id, current, with_emoji),
        );
        assert(text::views(lines@) =~= all.take(i + 1));
        i += 1;
    }
    assert(all.take(i as int) =~= all);
    text::push_line(&mut lines, hint.to_string());
    text::join(&lines, "\n")
}

// ---- models ----

/// The text of the member `name`, or a default.
pub open spec fn text_or(j: JsonView, name: Seq<char>, default: Seq<char>) -> Seq<char> {
    match j.text_at(name) {
        Some(t) => t,
        None => default,
    }
}

/// The text of the member `name`, or a default.
pub fn get_text_or<'a>(j: &'a Json, name: &str, default: &'a str) -> (r: &'a str)
    ensures
        r@ == text_or(j@, name@, default@),
{
    match j.text_at(name) {
        Some(t) => t,
        None => default,
    }
}

/// One line of the list of models; the number is the model's place among all models.
pub open spec fn model_line(i: int, m: JsonView, current: Option<Seq<char>>) -> Seq<char> {
    let id = text_or(m, "id"@, "?"@);
    text::decimal((i + 1) as nat) + ". "@ + text_or(m, "displayName"@, id) + " ["@ + text_or(
        m,
        "provider"@,
        ""@,
    ) + "]"@ + (if current == Some(id) {
        " *"@
    } else {
        ""@
    })
}

/// The lines on the models of a provider, or on all of them.
pub open spec fn model_lines(
    models: Seq<JsonView>,
    current: Option<Seq<char>>,
    provider: Option<Seq<char>>,
) -> Seq<Seq<char>>
    decreases models.len(),
{
    if models.len() == 0 {
        Seq::empty()
    } else {
        let before = model_lines(models.drop_last(), current, provider);
        if provider matches Some(p) && p != text_or(models.last(), "provider"@, ""@) {
            before
        } else {
            before.push(model_line(models.len() - 1, models.last(), current))
        }
    }
}

/// The list of models, of one provider or of all.
pub open spec fn models_text(
    models: Seq<JsonView>,
    current: Option<Seq<char>>,
    provider: Option<Seq<char>>,
) -> Seq<char> {
    text::join_of(model_lines(models, current, provider), "\n"@)
}

/// The list of models, of one provider or of all. A model keeps the number that it has among all
/// models.
pub fn format_model_list(
    models: &Vec<Json>,
    current_model: Option<&str>,
    provider_filter: Option<&str>,
) -> (r: String)
    ensures
        r@ == models_text(
            json::views(models@),
            json::text_view(current_model),
            json::text_view(provider_filter),
        ),
{
    let ghost all = json::views(models@);
    let ghost current = json::text_view(current_model);
    let ghost filter = json::text_view(provider_filter);
    let mut lines: Vec<String> = Vec::new();
    let mut i: usize = 0;
    assert(text::views(lines@) =~= model_lines(all.take(0), current, filter));
    while i < models.len()
        invariant
            i <= models@.len(),
            all == json::views(models@),
            current == json::text_view(current_model),
            filter == json::text_view(provider_filter),
            text::views(lines@) == model_lines(all.take(i as int), current, filter),
        decreases models@.len() - i,
    {
        assert(all.take(i + 1).drop_last() =~= all.take(i as int));
        assert(all.take(i + 1).last() == models@[i as int]@);
        let m = &models[i];
        let id = get_text_or(m, "id", "?");
        let provider = get_text_or(m, "provider", "");
        let shown = match provider_filter {
            Some(p) => text::str_eq(p, provider),
            None => true,
        };
        if shown {
            let mut line = text::decimal_text((i + 1) as u64);
            line.append(". ");
            line.append(get_text_or(m, "displayName", id));
            line.append(" [");
            line.append(provider);
            line.append("]");
            line.append(
                if channel::opt_eq(current_model, Some(id)) {
                    " *"
                } else {
                    ""
                },
            );
            assert(line@ == model_line(i as int, m@, current));
            text::push_line(&mut lines, line);
        }
        i += 1;
    }
    assert(all.take(i as int) =~= all);
    text::join(&lines, "\n")
}

/// Every item once, in the order in which the items come first.
pub open spec fn each_once(s: Seq<Seq<char>>) -> Seq<Seq<char>>
    decreases s.len(),
{
    if s.len() == 0 {
        s
    } else {
        let before = each_once(s.drop_last());
        if before.contains(s.last()) {
            before
        } else {
            before.push(s.last())
        }
    }
}

/// Whether `a` comes in `s` before every place where `b` does.
pub open spec fn comes_before(s: Seq<Seq<char>>, a: Seq<char>, b: Seq<char>) -> bool {
    exists|p: int|
        0 <= p < s.len() && #[trigger] s[p] == a && forall|q: int|
            0 <= q <= p ==> #[trigger] s[q] != b
}

/// Keeping every item once leaves no item twice and loses none, and what came first stays first.
pub proof fn law_each_once(s: Seq<Seq<char>>)
    ensures
        each_once(s).no_duplicates(),
        forall|x: Seq<char>| #[trigger] each_once(s).contains(x) <==> s.contains(x),
        forall|i: int, j: int|
            0 <= i < j < each_once(s).len() ==> comes_before(
                s,
                #[trigger] each_once(s)[i],
                #[trigger] each_once(s)[j],
            ),
    decreases s.len(),
{
    if s.len() > 0 {
        let rest = s.drop_last();
        let before = each_once(rest);
        let r = each_once(s);
        law_each_once(rest);
        assert forall|x: Seq<char>| #[trigger] r.contains(x) <==> s.contains(x) by {
            if r.contains(x) {
                let k = choose|k: int| 0 <= k < r.len() && r[k] == x;
                if k < before.len() {
                    assert(before[k] == x);
                    assert(before.contains(x));
                    let p = choose|p: int| 0 <= p < rest.len() && rest[p] == x;
                    assert(s[p] == x);
                } else {
                    assert(s[s.len() - 1] == x);
                }
            }
            if s.contains(x) {
                let p = choose|p: int| 0 <= p < s.len() && s[p] == x;
                if p < rest.len() {
                    assert(rest[p] == x);
                    assert(before.contains(x));
                    let k = choose|k: int| 0 <= k < before.len() && before[k] == x;
                    assert(r[k] == x);
                } else if before.contains(x) {
                    let k = choose|k: int| 0 <= k < before.len() && before[k] == x;
                    assert(r[k] == x);
                } else {
                    assert(r[r.len() - 1] == x);
                }
            }
        }
        assert forall|i: int, j: int| 0 <= i < j < r.len() implies comes_before(
            s,
            #[trigger] r[i],
            #[trigger] r[j],
        ) && r[i] != r[j] by {
            assert(r[i] == before[i]);
            if j < before.len() {
                assert(r[j] == before[j]);
                let p = choose|p: int|
                    0 <= p < rest.len() && #[trigger] rest[p] == before[i] && forall|q: int|
                        0 <= q <= p ==> #[trigger] rest[q] != before[j];
                assert(s[p] == before[i]);
                assert forall|q: int| 0 <= q <= p implies #[trigger] s[q] != before[j] by {
                    assert(rest[q] == s[q]);
                }
            } else {
                assert(before.contains(before[i]));
                let p = choose|p: int| 0 <= p < rest.len() && rest[p] == before[i];
                assert(s[p] == before[i]);
                assert forall|q: int| 0 <= q <= p implies #[trigger] s[q] != r[j] by {
                    assert(rest[q] == s[q]);
                    assert(rest.contains(rest[q]));
                    assert(before.contains(rest[q]));
                }
            }
        }
    }
}

fn is_among(list: &Vec<String>, s: &str) -> (r: bool)
    ensures
        r == text::views(list@).contains(s@),
{
    let ghost all = text::views(list@);
    let mut i: usize = 0;
    while i < list.len()
        invariant
            i <= list@.len(),
            all == text::views(list@),
            forall|j: int| 0 <= j < i ==> #[trigger] all[j] != s@,
        decreases list@.len() - i,
    {
        assert(all[i as int] == list@[i as int]@);
        if text::str_eq(list[i].as_str(), s) {
            return true;
        }
        i += 1;
    }
    false
}

/// Keeps every string once, where it comes first.
pub fn keep_first(s: &Vec<String>) -> (r: Vec<String>)
    ensures
        text::views(r@) == each_once(text::views(s@)),
        text::views(r@).no_duplicates(),
        forall|x: Seq<char>|
            #[trigger] text::views(r@).contains(x) <==> text::views(s@).contains(x),
        forall|i: int, j: int|
            0 <= i < j < r@.len() ==> comes_before(
                text::views(s@),
                #[trigger] text::views(r@)[i],
                #[trigger] text::views(r@)[j],
            ),
{
    let ghost all = text::views(s@);
    let mut out: Vec<String> = Vec::new();
    let mut i: usize = 0;
    assert(text::views(out@) =~= each_once(all.take(0)));
    while i < s.len()
        invariant
            i <= s@.len(),
            all == text::views(s@),
            text::views(out@) == each_once(all.take(i as int)),
        decreases s@.len() - i,
    {
        assert(all.take(i + 1).drop_last() =~= all.take(i as int));
        assert(all.take(i + 1).last() == s@[i as int]@);
        if !is_among(&out, s[i].as_str()) {
            text::push_line(&mut out, s[i].clone());
        }
        i += 1;
    }
    assert(all.take(i as int) =~= all);
    proof {
        law_each_once(all);
    }
    out
}

/// The provider of the first model with that id that names one, at or after `i`.
pub open spec fn provider_from(models: Seq<JsonView>, id: Seq<char>, i: int) -> Option<Seq<char>>
    decreases models.len() - i,
{
    if i < 0 || i >= models.len() {
        None
    } else if models[i].text_at("id"@) == Some(id) && models[i].text_at("provider"@) is Some {
        models[i].text_at("provider"@)
    } else {
        provider_from(models, id, i + 1)
    }
}

/// The number of models of a provider.
pub open spec fn provider_count(models: Seq<JsonView>, provider: Seq<char>) -> nat
    decreases models.len(),
{
    if models.len() == 0 {
        0
    } else {
        provider_count(models.drop_last(), provider) + (if models.last().text_at("provider"@)
            == Some(provider) {
            1nat
        } else {
            0nat
        })
    }
}

/// One line of the list of providers.
pub open spec fn provider_line(
    i: int,
    provider: Seq<char>,
    models: Seq<JsonView>,
    current: Option<Seq<char>>,
) -> Seq<char> {
    text::decimal((i + 1) as nat) + ". "@ + provider + " ("@ + text::decimal(
        provider_count(models, provider),
    ) + " models)"@ + (if current == Some(provider) {
        " *"@
    } else {
        ""@
    })
}

/// The provider of the current model.
pub open spec fn current_provider(models: Seq<JsonView>, current: Option<Seq<char>>) -> Option<
    Seq<char>,
> {
    match current {
        Some(id) => provider_from(models, id, 0),
        None => None,
    }
}

/// The answer to the model command without arguments: the models, or the providers where there
/// is more than one.
pub open spec fn model_overview(models: Seq<JsonView>, current: Option<Seq<char>>) -> Seq<char> {
    let providers = each_once(names_of(models, "provider"@));
    if providers.len() <= 1 {
        models_text(models, current, None)
    } else {
        text::join_of(
            seq!["providers:"@] + Seq::new(
                providers.len(),
                |i: int|
                    provider_line(i, providers[i], models, current_provider(models, current)),
            ),
            "\n"@,
        )
    }
}

fn find_provider<'a>(models: &'a Vec<Json>, id: &str) -> (r: Option<&'a str>)
    ensures
        json::text_view(r) == provider_from(json::views(models@), id@, 0),
{
    let ghost all = json::views(models@);
    let mut i: usize = 0;
    while i < models.len()
        invariant
            i <= models@.len(),
            all == json::views(models@),
            provider_from(all, id@, 0) == provider_from(all, id@, i as int),
        decreases models@.len() - i,
    {
        assert(all[i as int] == models@[i as int]@);
        if channel::opt_eq(models[i].text_at("id"), Some(id)) {
            let provider = models[i].text_at("provider");
            if provider.is_some() {
                return provider;
            }
        }
        i += 1;
    }
    None
}

fn count_provider(models: &Vec<Json>, provider: &str) -> (r: usize)
    ensures
        r == provider_count(json::views(models@), provider@),
{
    let ghost all = json::views(models@);
    let mut n: usize = 0;
    let mut i: usize = 0;
    while i < models.len()
        invariant
            i <= models@.len(),
            all == json::views(models@),
            n == provider_count(all.take(i as int), provider@),
            n <= i,
        decreases models@.len() - i,
    {
        assert(all.take(i + 1).drop_last() =~= all.take(i as int));
        assert(all.take(i + 1).last() == models@[i as int]@);
        if channel::opt_eq(models[i].text_at("provider"), Some(provider)) {
            n += 1;
        }
        i += 1;
    }
    assert(all.take(i as int) =~= all);
    n
}

/// The answer to the model command without arguments.
pub fn model_report(models: &Vec<Json>, current_model: Option<&str>) -> (r: String)
    ensures
        r@ == model_overview(json::views(models@), json::text_view(current_model)),
{
    let ghost all = json::views(models@);
    let providers = keep_first(&collect_names(models, "provider"));
    if providers.len() <= 1 {
        return format_model_list(models, current_model, None);
    }
    let current = match current_model {
        Some(id) => find_provider(models, id),
        None => None,
    };
    let ghost names = text::views(providers@);
    let ghost body = Seq::new(
        names.len(),
        |i: int| provider_line(i, names[i], all, json::text_view(current)),
    );
    let mut lines: Vec<String> = Vec::new();
    text::push_line(&mut lines, "providers:".to_string());
    let mut i: usize = 0;
    assert(text::views(lines@) =~= seq!["providers:"@] + body.take(0));
    while i < providers.len()
        invariant
            i <= providers@.len(),
            all == json::views(models@),
            names == text::views(providers@),
            body == Seq::new(
                names.len(),
                |i: int| provider_line(i, names[i], all, json::text_view(current)),
            ),
            text::views(lines@) == seq!["providers:"@] + body.take(i as int),
        decreases providers@.len() - i,
    {
        let p = providers[i].as_str();
        let mut line = text::decimal_text((i + 1) as u64);
        line.append(". ");
        line.append(p);
        line.append(" (");
        line.append(text::decimal_text(count_provider(models, p) as u64).as_str());
        line.append(" models)");
        line.append(
            if channel::opt_eq(current, Some(p)) {
                " *"
            } else {
                ""
            },
        );
        assert(names[i as int] == p@);
        assert(line@ == body[i as int]);
        text::push_line(&mut lines, line);
        assert(text::views(lines@) =~= seq!["providers:"@] + body.take(i + 1));
        i += 1;
    }
    assert(body.take(i as int) =~= body);
    text::join(&lines, "\n")
}

// ---- sandbox images ----

/// An image that was built and kept.
#[derive(Debug)]
pub struct CachedImage {
    pub tag: String,
    pub skill_name: String,
    pub size: String,
}

/// One line of the list of images; the first is the default image.
pub open spec fn image_line(
    i: int,
    default_image: Seq<char>,
    cached: Seq<CachedImage>,
    current: Seq<char>,
) -> Seq<char> {
    let tag = if i == 0 {
        default_image
    } else {
        cached[i - 1].tag@
    };
    text::decimal((i + 1) as nat) + ". "@ + tag + (if i == 0 {
        ""@
    } else {
        " — "@ + cached[i - 1].skill_name@ + " ("@ + cached[i - 1].size@ + ")"@
    }) + (if tag == current {
        " *"@
    } else {
        ""@
    })
}

/// The answer to the sandbox command without arguments.
pub open spec fn images_text(
    enabled: bool,
    default_image: Seq<char>,
    cached: Seq<CachedImage>,
    current: Seq<char>,
) -> Seq<char> {
    text::join_of(
        seq![
            "status:"@ + (if enabled {
                "on"@
            } else {
                "off"@
            }),
        ] + Seq::new(
            cached.len() + 1,
            |i: int| image_line(i, default_image, cached, current),
        ),
        "\n"@,
    )
}

fn write_image_line(
    i: usize,
    default_image: &str,
    cached: &Vec<CachedImage>,
    current: &str,
) -> (r: String)
    requires
        i <= cached@.len(),
    ensures
        r@ == image_line(i as int, default_image@, cached@, current@),
{
    let tag = if i == 0 {
        default_image
    } else {
        cached[i - 1].tag.as_str()
    };
    let mut line = text::decimal_wide(i as u128 + 1);
    line.append(". ");
    line.append(tag);
    let mut subtitle = "".to_string();
    if i > 0 {
        subtitle = " — ".to_string();
        subtitle.append(cached[i - 1].skill_name.as_str());
        subtitle.append(" (");
        subtitle.append(cached[i - 1].size.as_str());
        subtitle.append(")");
    }
    line.append(subtitle.as_str());
    line.append(
        if text::str_eq(tag, current) {
            " *"
        } else {
            ""
        },
    );
    line
}

/// The answer to the sandbox command without arguments.
pub fn images_report(
    enabled: bool,
    default_image: &str,
    cached: &Vec<CachedImage>,
    current: &str,
) -> (r: String)
    ensures
        r@ == images_text(enabled, default_image@, cached@, current@),
{
    let mut status = "status:".to_string();
    status.append(
        if enabled {
            "on"
        } else {
            "off"
        },
    );
    let ghost head = seq![status@];
    let ghost body = Seq::new(
        cached@.len() + 1,
        |i: int| image_line(i, default_image@, cached@, current@),
    );
    let mut lines: Vec<String> = Vec::new();
    text::push_line(&mut lines, status);
    let mut i: usize = 0;
    assert(text::views(lines@) =~= head + body.take(0));
    loop
        invariant_except_break
            i <= cached@.len(),
            text::views(lines@) == head + body.take(i as int),
        invariant
            body == Seq::new(
                cached@.len() + 1,
                |i: int| image_line(i, default_image@, cached@, current@),
            ),
        ensures
            text::views(lines@) == head + body,
        decreases cached@.len() + 1 - i,
    {
        text::push_line(&mut lines, write_image_line(i, default_image, cached, current));
        assert(text::views(lines@) =~= head + body.take(i + 1));
        if i == cached.len() {
            assert(body.take(i + 1) =~= body);
            break;
        }
        i += 1;
    }
    text::join(&lines, "\n")
}

} // verus!
