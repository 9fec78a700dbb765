//! Sessions of a chat: which ones go stale, who speaks in them and with which model.

use crate::channel;
use crate::channel::ChannelReplyTarget;
use crate::gateway::host;
use crate::gateway::host::{Action, ActionView, Answer, Ask, Progress};
use crate::gateway::reports;
use crate::gateway::reports::SessionEntry;
use crate::json;
use crate::json::{Json, JsonView};
use crate::text;
use vstd::prelude::*;

verus! {

/// After how many days without change a session is archived, where the account does not say.
pub const DEFAULT_AUTO_ARCHIVE_DAYS: u64 = 30;

/// The milliseconds of a day.
pub const DAY_MS: u64 = 86_400_000;

/// What an optional text is, or a default.
pub open spec fn or_text(t: Option<Seq<char>>, default: Seq<char>) -> Seq<char> {
    match t {
        Some(s) => s,
        None => default,
    }
}

// ---- archiving ----

/// The time before which a session counts as stale.
pub open spec fn cutoff_of(now_ms: u64, days: nat) -> nat {
    let span = if days * DAY_MS > u64::MAX {
        u64::MAX as nat
    } else {
        days * DAY_MS as nat
    };
    if now_ms >= span {
        (now_ms - span) as nat
    } else {
        0
    }
}

/// Whether a session is stale: not the current one, not archived, and unchanged since the cutoff.
pub open spec fn is_stale(s: SessionEntry, current: Seq<char>, cutoff: nat) -> bool {
    s.key@ != current && !s.archived && s.updated_at < cutoff
}

/// The keys of the stale sessions, in order.
pub open spec fn stale_keys(sessions: Seq<SessionEntry>, current: Seq<char>, cutoff: nat) -> Seq<
    Seq<char>,
>
    decreases sessions.len(),
{
    if sessions.len() == 0 {
        Seq::empty()
    } else {
        let before = stale_keys(sessions.drop_last(), current, cutoff);
        if is_stale(sessions.last(), current, cutoff) {
            before.push(sessions.last().key@)
        } else {
            before
        }
    }
}

/// Only stale sessions are archived by age, and the current session is never one of them.
pub proof fn law_stale_keys(sessions: Seq<SessionEntry>, current: Seq<char>, cutoff: nat, key: Seq<char>)
    ensures
        stale_keys(sessions, current, cutoff).contains(key) <==> exists|i: int|
            0 <= i < sessions.len() && sessions[i].key@ == key && #[trigger] is_stale(
                sessions[i],
                current,
                cutoff,
            ),
        !stale_keys(sessions, current, cutoff).contains(current),
    decreases sessions.len(),
{
    if sessions.len() > 0 {
        let rest = sessions.drop_last();
        let last = sessions.last();
        law_stale_keys(rest, current, cutoff, key);
        let before = stale_keys(rest, current, cutoff);
        let now = stale_keys(sessions, current, cutoff);
        if now.contains(key) {
            let j = choose|j: int| 0 <= j < now.len() && now[j] == key;
            if is_stale(last, current, cutoff) && j == before.len() {
                assert(is_stale(sessions[sessions.len() - 1], current, cutoff));
            } else {
                assert(before[j] == key);
                assert(before.contains(key));
                let i = choose|i: int|
                    0 <= i < rest.len() && rest[i].key@ == key && #[trigger] is_stale(
                        rest[i],
                        current,
                        cutoff,
                    );
                assert(is_stale(sessions[i], current, cutoff));
            }
        }
        if exists|i: int|
            0 <= i < sessions.len() && sessions[i].key@ == key && #[trigger] is_stale(
                sessions[i],
                current,
                cutoff,
            ) {
            let i = choose|i: int|
                0 <= i < sessions.len() && sessions[i].key@ == key && #[trigger] is_stale(
                    sessions[i],
                    current,
                    cutoff,
                );
            if i < rest.len() {
                assert(is_stale(rest[i], current, cutoff));
                assert(before.contains(key));
                let j = choose|j: int| 0 <= j < before.len() && before[j] == key;
                assert(now[j] == key);
            } else {
                assert(now[before.len() as int] == key);
            }
        }
        if now.contains(current) {
            let j = choose|j: int| 0 <= j < now.len() && now[j] == current;
            assert(before[j] == current);
            assert(before.contains(current));
        }
    }
}

/// The keys of the stale sessions, in order.
pub fn collect_stale(sessions: &Vec<SessionEntry>, current: &str, cutoff: u64) -> (r: Vec<String>)
    ensures
        text::views(r@) == stale_keys(sessions@, current@, cutoff as nat),
{
    let mut out: Vec<String> = Vec::new();
    let mut i: usize = 0;
    assert(text::views(out@) =~= stale_keys(sessions@.take(0), current@, cutoff as nat));
    while i < sessions.len()
        invariant
            i <= sessions@.len(),
            text::views(out@) == stale_keys(sessions@.take(i as int), current@, cutoff as nat),
        decreases sessions@.len() - i,
    {
        assert(sessions@.take(i + 1).drop_last() =~= sessions@.take(i as int));
        let s = &sessions[i];
        if !text::str_eq(s.key.as_str(), current) && !s.archived && s.updated_at < cutoff {
            let ghost before = text::views(out@);
            out.push(s.key.clone());
            assert(text::views(out@) =~= before.push(s.key@));
        }
        i += 1;
    }
    assert(sessions@.take(i as int) =~= sessions@);
    out
}

/// The time before which a session counts as stale.
pub fn archive_cutoff(now_ms: u64, days: u64) -> (r: u64)
    ensures
        r == cutoff_of(now_ms, days as nat),
{
    let span: u128 = days as u128 * 86_400_000;
    let span: u64 = if span > u64::MAX as u128 {
        u64::MAX
    } else {
        span as u64
    };
    if now_ms >= span {
        now_ms - span
    } else {
        0
    }
}

/// After how many days a session of the account is archived; zero means never.
pub open spec fn archive_days(status: Option<Json>, target: ChannelReplyTarget) -> nat {
    match host::config_number(
        host::account_config(status, target),
        "session_auto_archive_days"@,
    ) {
        Some(n) => n,
        None => DEFAULT_AUTO_ARCHIVE_DAYS as nat,
    }
}

/// Archives what went stale: asks for the configuration, the time and the sessions, has the stale
/// ones archived and ends with their number.
pub open spec fn auto_archive(
    target: ChannelReplyTarget,
    current: Seq<char>,
    h: Seq<Answer>,
    k: int,
) -> Progress<ActionView, u64, int> {
    if k >= h.len() {
        Progress::Wait(host::ask(Ask::ChannelStatus))
    } else {
        match h[k] {
            Answer::Status(status) => {
                let days = archive_days(status, target);
                if days == 0 {
                    Progress::Ready(0, k + 1)
                } else if k + 1 >= h.len() {
                    Progress::Wait(host::ask(Ask::Now))
                } else {
                    match h[k + 1] {
                        Answer::Time(now) => if k + 2 >= h.len() {
                            Progress::Wait(host::ask(Ask::ListSessions { chat: target@ }))
                        } else {
                            match h[k + 2] {
                                Answer::Sessions(sessions) => if k + 3 >= h.len() {
                                    Progress::Wait(
                                        host::ask(
                                            Ask::ArchiveEach {
                                                keys: stale_keys(
                                                    sessions@,
                                                    current,
                                                    cutoff_of(now, days),
                                                ),
                                            },
                                        ),
                                    )
                                } else {
                                    match h[k + 3] {
                                        Answer::Count(n) => Progress::Ready(n, k + 4),
                                        _ => Progress::Wait(host::off_script()),
                                    }
                                },
                                _ => Progress::Wait(host::off_script()),
                            }
                        },
                        _ => Progress::Wait(host::off_script()),
                    }
                }
            },
            _ => Progress::Wait(host::off_script()),
        }
    }
}

/// What a part of a conversation that ends with a number has come to.
pub open spec fn count_progress(p: Progress<Action, u64, usize>) -> Progress<ActionView, u64, int> {
    match p {
        Progress::Wait(a) => Progress::Wait(a@),
        Progress::Ready(n, k) => Progress::Ready(n, k as int),
    }
}

/// What a part of a conversation that ends with a text has come to.
pub open spec fn text_progress(p: Progress<Action, String, usize>) -> Progress<
    ActionView,
    Seq<char>,
    int,
> {
    match p {
        Progress::Wait(a) => Progress::Wait(a@),
        Progress::Ready(t, k) => Progress::Ready(t@, k as int),
    }
}

/// Archives what went stale.
pub fn auto_archive_stale_channel_sessions(
    target: &ChannelReplyTarget,
    current: &str,
    h: &Vec<Answer>,
    k: usize,
) -> (r: Progress<Action, u64, usize>)
    requires
        k <= h@.len(),
    ensures
        count_progress(r) == auto_archive(*target, current@, h@, k as int),
        r matches Progress::Ready(_, n) ==> n <= h@.len(),
{
    if k >= h.len() {
        return Progress::Wait(host::just(Ask::ChannelStatus));
    }
    let days: u64 = match &h[k] {
        Answer::Status(status) => match host::channel_config_u64(
            host::channel_account_config(status, target),
            "session_auto_archive_days",
        ) {
            Some(n) => n,
            None => DEFAULT_AUTO_ARCHIVE_DAYS,
        },
        _ => {
            return Progress::Wait(host::strayed());
        },
    };
    if days == 0 {
        return Progress::Ready(0, k + 1);
    }
    if k + 1 >= h.len() {
        return Progress::Wait(host::just(Ask::Now));
    }
    let now: u64 = match &h[k + 1] {
        Answer::Time(t) => *t,
        _ => {
            return Progress::Wait(host::strayed());
        },
    };
    if k + 2 >= h.len() {
        return Progress::Wait(host::just(Ask::ListSessions { chat: target.copy() }));
    }
    let keys = match &h[k + 2] {
        Answer::Sessions(sessions) => collect_stale(
            sessions,
            current,
            archive_cutoff(now, days),
        ),
        _ => {
            return Progress::Wait(host::strayed());
        },
    };
    if k + 3 >= h.len() {
        return Progress::Wait(host::just(Ask::ArchiveEach { keys }));
    }
    match &h[k + 3] {
        Answer::Count(n) => Progress::Ready(*n, k + 4),
        _ => Progress::Wait(host::strayed()),
    }
}

// ---- agents ----

/// The agent of a session, trimmed, if one is set.
pub open spec fn agent_of(entry: Option<SessionEntry>) -> Option<Seq<char>> {
    match entry {
        Some(e) => match e.agent_id {
            Some(a) => if text::trim_of(a@).len() == 0 {
                None
            } else {
                Some(text::trim_of(a@))
            },
            None => None,
        },
        None => None,
    }
}

/// The agent of a session, trimmed, if one is set.
pub fn session_agent(entry: &Option<SessionEntry>) -> (r: Option<String>)
    ensures
        channel::opt_view(r) == agent_of(*entry),
{
    match entry {
        Some(e) => match &e.agent_id {
            Some(a) => {
                let t = text::trim(a.as_str());
                if t.unicode_len() == 0 {
                    None
                } else {
                    Some(t.to_string())
                }
            },
            None => None,
        },
        None => None,
    }
}

/// The agent that sessions get by default: what the agent store says, else the main agent.
pub open spec fn default_agent(has_agents: bool, h: Seq<Answer>, k: int) -> Progress<
    ActionView,
    Seq<char>,
    int,
> {
    if !has_agents {
        Progress::Ready("main"@, k)
    } else if k >= h.len() {
        Progress::Wait(host::ask(Ask::DefaultAgent))
    } else {
        match h[k] {
            Answer::Agent(a) => Progress::Ready(or_text(channel::opt_view(a), "main"@), k + 1),
            _ => Progress::Wait(host::off_script()),
        }
    }
}

/// The agent that sessions get by default.
pub fn ask_default_agent(has_agents: bool, h: &Vec<Answer>, k: usize) -> (r: Progress<
    Action,
    String,
    usize,
>)
    requires
        k <= h@.len(),
    ensures
        text_progress(r) == default_agent(has_agents, h@, k as int),
        r matches Progress::Ready(_, n) ==> n <= h@.len(),
{
    if !has_agents {
        Progress::Ready("main".to_string(), k)
    } else if k >= h.len() {
        Progress::Wait(host::just(Ask::DefaultAgent))
    } else {
        match &h[k] {
            Answer::Agent(Some(a)) => Progress::Ready(a.clone(), k + 1),
            Answer::Agent(None) => Progress::Ready("main".to_string(), k + 1),
            _ => Progress::Wait(host::strayed()),
        }
    }
}

/// The agent that speaks in a session: its own, else the default.
pub open spec fn current_agent(
    has_agents: bool,
    key: Seq<char>,
    h: Seq<Answer>,
    k: int,
) -> Progress<ActionView, Seq<char>, int> {
    if k >= h.len() {
        Progress::Wait(host::ask(Ask::Session { key }))
    } else {
        match h[k] {
            Answer::Session(entry) => match agent_of(entry) {
                Some(a) => Progress::Ready(a, k + 1),
                None => default_agent(has_agents, h, k + 1),
            },
            _ => Progress::Wait(host::off_script()),
        }
    }
}

/// The agent that speaks in a session: its own, else the default.
pub fn current_agent_id_for_session(has_agents: bool, key: &str, h: &Vec<Answer>, k: usize) -> (r:
    Progress<Action, String, usize>)
    requires
        k <= h@.len(),
    ensures
        text_progress(r) == current_agent(has_agents, key@, h@, k as int),
        r matches Progress::Ready(_, n) ==> n <= h@.len(),
{
    if k >= h.len() {
        return Progress::Wait(host::just(Ask::Session { key: key.to_string() }));
    }
    match &h[k] {
        Answer::Session(entry) => match session_agent(entry) {
            Some(a) => Progress::Ready(a, k + 1),
            None => ask_default_agent(has_agents, h, k + 1),
        },
        _ => Progress::Wait(host::strayed()),
    }
}

// ---- models ----

/// The first model at or after `i` with that id.
pub open spec fn model_from(models: Seq<JsonView>, id: Seq<char>, i: int) -> Option<JsonView>
    decreases models.len() - i,
{
    if i < 0 || i >= models.len() {
        None
    } else if models[i].text_at("id"@) == Some(id) {
        Some(models[i])
    } else {
        model_from(models, id, i + 1)
    }
}

/// What the user sees of a model: its display name, or its id where it has none.
pub open spec fn display_of(models: Option<Seq<JsonView>>, id: Seq<char>) -> Seq<char> {
    match models {
        None => id,
        Some(ms) => match model_from(ms, id, 0) {
            Some(m) => reports::text_or(m, "displayName"@, id),
            None => id,
        },
    }
}

/// The models in the answer to a request for them.
pub open spec fn models_in(answer: Result<Json, String>) -> Option<Seq<JsonView>> {
    match answer {
        Ok(j) => j@.items(),
        Err(_) => None,
    }
}

/// The first registered model, if it has an id: the id and what the user sees of it.
pub open spec fn first_model(models: Option<Seq<JsonView>>) -> Option<(Seq<char>, Seq<char>)> {
    match models {
        None => None,
        Some(ms) => if ms.len() == 0 {
            None
        } else {
            match ms[0].text_at("id"@) {
                Some(id) => Some((id, reports::text_or(ms[0], "displayName"@, id))),
                None => None,
            }
        },
    }
}

/// What a pair of texts holds.
pub open spec fn pair_view(p: Option<(String, String)>) -> Option<(Seq<char>, Seq<char>)> {
    match p {
        Some((a, b)) => Some((a@, b@)),
        None => None,
    }
}

/// What the user sees of a model.
pub fn model_display(answer: &Result<Json, String>, id: &str) -> (r: String)
    ensures
        r@ == display_of(models_in(*answer), id@),
{
    if let Ok(j) = answer {
        if let Some(models) = j.as_array() {
            let ghost all = json::views(models@);
            let mut i: usize = 0;
            while i < models.len()
                invariant
                    i <= models@.len(),
                    all == json::views(models@),
                    models_in(*answer) == Some(all),
                    model_from(all, id@, 0) == model_from(all, id@, i as int),
                decreases models@.len() - i,
            {
                assert(all[i as int] == models@[i as int]@);
                if channel::opt_eq(models[i].text_at("id"), Some(id)) {
                    return reports::get_text_or(&models[i], "displayName", id).to_string();
                }
                i += 1;
            }
        }
    }
    id.to_string()
}

/// The first registered model, if it has an id.
pub fn take_first_model(answer: &Result<Json, String>) -> (r: Option<(String, String)>)
    ensures
        pair_view(r) == first_model(models_in(*answer)),
{
    if let Ok(j) = answer {
        if let Some(models) = j.as_array() {
            if models.len() > 0 {
                assert(json::views(models@)[0] == models@[0]@);
                if let Some(id) = models[0].text_at("id") {
                    let display = reports::get_text_or(&models[0], "displayName", id);
                    return Some((id.to_string(), display.to_string()));
                }
            }
        }
    }
    None
}

} // verus!
