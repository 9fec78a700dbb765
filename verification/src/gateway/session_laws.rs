//! What is looked up about a session, an account or an attachment, in terms of what was answered.

use crate::channel;
use crate::channel::{ChannelError, ChannelReplyTarget};
use crate::gateway::chat;
use crate::gateway::chat::ChannelAttachment;
use crate::gateway::commands;
use crate::gateway::host;
use crate::gateway::host::{ActionView, Answer, Progress};
use crate::gateway::pairing;
use crate::gateway::reports::SessionEntry;
use crate::gateway::sessions;
use crate::gateway::voice;
use crate::gateway::voice::SessionStep;
use crate::json::{Json, JsonView};
use crate::text;
use vstd::prelude::*;

verus! {

// ---- the configuration of an account ----

/// Whether a channel is the one of an account.
pub open spec fn is_of(ch: JsonView, kind: Seq<char>, account: Seq<char>) -> bool {
    ch.text_at("type"@) == Some(kind) && ch.text_at("account_id"@) == Some(account)
}

proof fn lemma_channel_from(channels: Seq<JsonView>, kind: Seq<char>, account: Seq<char>, i: int, j: int)
    requires
        0 <= j <= i <= channels.len(),
        forall|m: int| j <= m < i ==> !is_of(#[trigger] channels[m], kind, account),
        i < channels.len() ==> is_of(channels[i], kind, account),
    ensures
        host::channel_from(channels, Some(kind), account, j) == if i < channels.len() {
            Some(channels[i])
        } else {
            None
        },
    decreases i - j,
{
    if j < i {
        assert(!is_of(channels[j], kind, account));
        lemma_channel_from(channels, kind, account, i, j + 1);
    }
}

/// The configuration of an account is what stands under `config` in the first channel of that kind
/// and account; there is none where no channel is of that kind and account.
pub proof fn law_config(status: JsonView, kind: Seq<char>, account: Seq<char>, i: int)
    requires
        status.items_at("channels"@) is Some,
        0 <= i <= status.items_at("channels"@)->0.len(),
        forall|m: int|
            0 <= m < i ==> !is_of(#[trigger] status.items_at("channels"@)->0[m], kind, account),
    ensures
        i < status.items_at("channels"@)->0.len() && is_of(
            status.items_at("channels"@)->0[i],
            kind,
            account,
        ) ==> host::config_in(Some(status), Some(kind), account)
            == status.items_at("channels"@)->0[i].member("config"@),
        i == status.items_at("channels"@)->0.len() ==> host::config_in(
            Some(status),
            Some(kind),
            account,
        ) is None,
{
    let channels = status.items_at("channels"@)->0;
    if i == channels.len() || is_of(channels[i], kind, account) {
        lemma_channel_from(channels, kind, account, i, 0);
    }
}

/// A text of the configuration is what stands under its name, where that is no blank text; a truth
/// value is what stands under its name.
pub proof fn law_config_member(config: JsonView, name: Seq<char>)
    ensures
        host::config_text(Some(config), name) matches Some(t) ==> config.text_at(name) == Some(t)
            && text::trim_of(t).len() > 0,
        config.text_at(name) matches Some(t) && text::trim_of(t).len() > 0 ==> host::config_text(
            Some(config),
            name,
        ) is Some,
        host::config_truth(Some(config), name) == config.truth_at(name),
{
}

// ---- archiving ----

/// Whether a session is one that a message has archived: it is not archived yet, it is not the one of
/// the message, and it did not change for so many days.
pub open spec fn is_old(s: SessionEntry, current: Seq<char>, now: u64, days: nat) -> bool {
    !s.archived && s.key@ != current && s.updated_at + days * 86_400_000 < now
}

/// Exactly the sessions that did not change for so many days are archived, and none where the number
/// of days is zero.
pub proof fn law_archived(
    target: ChannelReplyTarget,
    current: Seq<char>,
    h: Seq<Answer>,
    k: int,
    status: Option<Json>,
    now: u64,
    all: Vec<SessionEntry>,
    key: Seq<char>,
)
    requires
        0 <= k,
        h.len() == k + 3,
        h[k] == Answer::Status(status),
        h[k + 1] == Answer::Time(now),
        h[k + 2] == Answer::Sessions(all),
    ensures
        ({
            let days = sessions::archive_days(status, target);
            let p = sessions::auto_archive(target, current, h, k);
            &&& days == 0 ==> p is Ready
            &&& days > 0 ==> {
                &&& p matches Progress::Wait(a)
                &&& a.effects.len() == 0
                &&& a.ask is ArchiveEach
                &&& a.ask->keys.contains(key) <==> exists|i: int|
                    0 <= i < all@.len() && all@[i].key@ == key && #[trigger] is_old(
                        all@[i],
                        current,
                        now,
                        days,
                    )
            }
        }),
{
    let days = sessions::archive_days(status, target);
    let cutoff = sessions::cutoff_of(now, days);
    sessions::law_stale_keys(all@, current, cutoff, key);
    assert(days * sessions::DAY_MS == days * 86_400_000);
    assert forall|i: int| 0 <= i < all@.len() implies #[trigger] is_old(all@[i], current, now, days)
        == sessions::is_stale(all@[i], current, cutoff) by {}
    if exists|i: int|
        0 <= i < all@.len() && all@[i].key@ == key && #[trigger] sessions::is_stale(
            all@[i],
            current,
            cutoff,
        ) {
        let i = choose|i: int|
            0 <= i < all@.len() && all@[i].key@ == key && #[trigger] sessions::is_stale(
                all@[i],
                current,
                cutoff,
            );
        assert(is_old(all@[i], current, now, days));
    }
}

/// After how many days sessions are archived is what the account says, as a number or spelled out,
/// else thirty.
pub proof fn law_archive_days(status: Option<Json>, target: ChannelReplyTarget)
    ensures
        ({
            let days = sessions::archive_days(status, target);
            match host::account_config(status, target) {
                None => days == 30,
                Some(c) => match c.member("session_auto_archive_days"@) {
                    None => days == 30,
                    Some(v) => {
                        &&& v.unsigned() matches Some(n) ==> days == n
                        &&& v.unsigned() is None && v.text() is None ==> days
                            == 30
                    },
                },
            }
        }),
{
}

// ---- agents ----

/// The agent that speaks in a session is the one that is stored with it, without white space around
/// it; else the default one; else the main one.
pub proof fn law_current_agent(has_agents: bool, key: Seq<char>, h: Seq<Answer>, k: int)
    requires
        0 <= k < h.len(),
        h[k] is Session,
    ensures
        ({
            let p = sessions::current_agent(has_agents, key, h, k);
            let own = match h[k]->Session_0 {
                Some(e) => channel::opt_view(e.agent_id),
                None => None,
            };
            let is_set = own matches Some(a) && text::trim_of(a).len() > 0;
            &&& is_set ==> p == Progress::<ActionView, Seq<char>, int>::Ready(
                text::trim_of(own->0),
                k + 1,
            )
            &&& !is_set && !has_agents ==> p == Progress::<ActionView, Seq<char>, int>::Ready(
                "main"@,
                k + 1,
            )
            &&& !is_set && has_agents && k + 1 == h.len() ==> p is Wait && p->Wait_0.ask
                is DefaultAgent
            &&& !is_set && has_agents && k + 1 < h.len() ==> (h[k + 1] matches Answer::Agent(Some(a))
                ==> p == Progress::<ActionView, Seq<char>, int>::Ready(a@, k + 2))
            &&& !is_set && has_agents && k + 1 < h.len() ==> (h[k + 1] == Answer::Agent(None) ==> p
                == Progress::<ActionView, Seq<char>, int>::Ready("main"@, k + 2))
        }),
{
}

// ---- models ----

proof fn lemma_model_from(models: Seq<JsonView>, id: Seq<char>, i: int, j: int)
    requires
        0 <= j <= i < models.len(),
        models[i].text_at("id"@) == Some(id),
        forall|m: int| j <= m < i ==> (#[trigger] models[m]).text_at("id"@) != Some(id),
    ensures
        sessions::model_from(models, id, j) == Some(models[i]),
    decreases i - j,
{
    if j < i {
        assert(models[j].text_at("id"@) != Some(id));
        lemma_model_from(models, id, i, j + 1);
    }
}

/// The user sees a model by the display name of the first model with that id, and by its id where it
/// has none.
pub proof fn law_display(models: Seq<JsonView>, id: Seq<char>, i: int)
    requires
        0 <= i < models.len(),
        models[i].text_at("id"@) == Some(id),
        forall|m: int| 0 <= m < i ==> (#[trigger] models[m]).text_at("id"@) != Some(id),
    ensures
        models[i].text_at("displayName"@) matches Some(d) ==> sessions::display_of(Some(models), id)
            == d,
        models[i].text_at("displayName"@) is None ==> sessions::display_of(Some(models), id) == id,
        sessions::display_of(None, id) == id,
{
    lemma_model_from(models, id, i, 0);
}

// ---- attachments ----

/// Exactly the attachments that are no images are stored.
pub proof fn law_to_save(attachments: Seq<ChannelAttachment>, i: usize)
    requires
        i < attachments.len() <= usize::MAX,
    ensures
        chat::other_positions(attachments).contains(i) <==> !text::begins(
            text::lower_of(text::trim_of(attachments[i as int].media_type@)),
            "image/"@,
        ),
    decreases attachments.len(),
{
    let rest = attachments.drop_last();
    let before = chat::other_positions(rest);
    let all = chat::other_positions(attachments);
    lemma_positions(rest);
    if i < rest.len() {
        law_to_save(rest, i);
        if before.contains(i) {
            let j = choose|j: int| 0 <= j < before.len() && before[j] == i;
            assert(all[j] == i);
        }
        if all.contains(i) {
            let j = choose|j: int| 0 <= j < all.len() && all[j] == i;
            assert(before[j] == i);
        }
    } else {
        if all.contains(i) {
            let j = choose|j: int| 0 <= j < all.len() && all[j] == i;
            if j < before.len() {
                assert(before[j] < rest.len());
            }
        }
        if !commands::is_image(attachments.last().media_type@) {
            assert(all.last() == i);
        }
    }
}

proof fn lemma_positions(attachments: Seq<ChannelAttachment>)
    requires
        attachments.len() <= usize::MAX,
    ensures
        forall|j: int|
            0 <= j < chat::other_positions(attachments).len() ==> (
            #[trigger] chat::other_positions(attachments)[j]) < attachments.len(),
    decreases attachments.len(),
{
    if attachments.len() > 0 {
        let rest = attachments.drop_last();
        let before = chat::other_positions(rest);
        let all = chat::other_positions(attachments);
        lemma_positions(rest);
        assert forall|j: int| 0 <= j < all.len() implies (#[trigger] all[j]) < attachments.len() by {
            if j < before.len() {
                assert(all[j] == before[j]);
            }
        }
    }
}

// ---- recordings and places ----

/// The text of a recording is the text under `text` in what the transcription gave, and nothing else.
pub proof fn law_transcript(j: Json)
    ensures
        j@.text_at("text"@) matches Some(t) ==> voice::transcript(true, Some(Ok(j))) == Some(
            Ok::<Seq<char>, ChannelError<Seq<char>>>(t),
        ),
        voice::transcript(true, Some(Ok(j))) matches Some(Ok(t)) ==> j@.text_at("text"@) == Some(t),
        voice::transcript(false, Some(Ok(j))) matches Some(Err(e)),
{
}

/// A recording is kept with the session that a message of that chat goes to: the one that the chat
/// was switched to, else the one of the chat itself.
pub proof fn law_recording_kept(
    has_metadata: bool,
    target: ChannelReplyTarget,
    filename: Seq<char>,
    h: Seq<Answer>,
)
    ensures
        voice::voice_step(true, has_metadata, true, target, filename, h) matches SessionStep::Work(
            key,
        ) ==> is_session_of(has_metadata, target, h, key),
        voice::voice_step(true, has_metadata, true, target, filename, h) matches SessionStep::Done(
            Some(f),
        ) ==> f == filename && exists|n: int|
            0 <= n < h.len() && (#[trigger] h[n] matches Answer::Outcome(r)) && h[n]->Outcome_0 is Ok,
{
}

/// Whether a key is that of the session that a message of a chat goes to.
pub open spec fn is_session_of(
    has_metadata: bool,
    target: ChannelReplyTarget,
    h: Seq<Answer>,
    key: Seq<char>,
) -> bool {
    let own = target.channel_type.name() + ":"@ + target.account_id@ + ":"@ + target.chat_id@;
    if has_metadata {
        &&& h.len() > 0
        &&& h[0] is Key
        &&& match h[0]->Key_0 {
            Some(k) => key == k@,
            None => key == own,
        }
    } else {
        key == own
    }
}

/// A place goes to whoever waits for one in the session that a message of that chat goes to, and the
/// chat is told whether someone did.
pub proof fn law_place(has_metadata: bool, target: ChannelReplyTarget, h: Seq<Answer>)
    ensures
        voice::place_step(true, has_metadata, target, h) matches SessionStep::Work(name) ==> exists|
            key: Seq<char>,
        | #[trigger]
            is_session_of(has_metadata, target, h, key) && name == "channel_location:"@ + key,
        voice::place_step(true, has_metadata, target, h) matches SessionStep::Done(b) ==> h.contains(
            Answer::Flag(b),
        ),
        voice::place_step(false, has_metadata, target, h) == SessionStep::<
            ActionView,
            Seq<char>,
            bool,
        >::Done(false),
{
    if let Progress::Ready(key, k) = chat::inbound_session(has_metadata, target, h, 0) {
        assert(is_session_of(has_metadata, target, h, key));
        if k < h.len() {
            if let Answer::Flag(b) = h[k] {
                assert(h[k] == Answer::Flag(b));
            }
        }
    }
}

// ---- pairing ----

/// Setting a member leaves all others as they are, and looking it up gives what was set.
pub proof fn law_member_set(
    members: Seq<(Seq<char>, JsonView)>,
    name: Seq<char>,
    value: JsonView,
    other: Seq<char>,
)
    ensures
        JsonView::Object(pairing::member_set(members, name, value, 0)).member(name) == Some(value),
        other != name ==> JsonView::Object(pairing::member_set(members, name, value, 0)).member(other)
            == JsonView::Object(members).member(other),
{
    lemma_member_set(members, name, value, 0, name);
    lemma_member_set(members, name, value, 0, other);
}

proof fn lemma_member_set(
    members: Seq<(Seq<char>, JsonView)>,
    name: Seq<char>,
    value: JsonView,
    i: int,
    other: Seq<char>,
)
    requires
        0 <= i <= members.len(),
    ensures
        crate::json::member_from(pairing::member_set(members, name, value, i), other, i)
            == if other == name {
            Some(value)
        } else {
            crate::json::member_from(members, other, i)
        },
        forall|j: int|
            0 <= j < i ==> #[trigger] pairing::member_set(members, name, value, i)[j] == members[j],
        pairing::member_set(members, name, value, i).len() >= members.len(),
    decreases members.len() - i,
{
    if i < members.len() && members[i].0 != name {
        lemma_member_set(members, name, value, i + 1, other);
    } else if i < members.len() {
        lemma_same_after(members, members.update(i, (name, value)), other, i + 1);
    } else {
        reveal_with_fuel(crate::json::member_from, 2);
    }
}

proof fn lemma_same_after(
    a: Seq<(Seq<char>, JsonView)>,
    b: Seq<(Seq<char>, JsonView)>,
    name: Seq<char>,
    i: int,
)
    requires
        0 <= i <= a.len(),
        a.len() == b.len(),
        forall|j: int| i <= j < a.len() ==> #[trigger] a[j] == b[j],
    ensures
        crate::json::member_from(a, name, i) == crate::json::member_from(b, name, i),
    decreases a.len() - i,
{
    if i < a.len() {
        assert(a[i] == b[i]);
        lemma_same_after(a, b, name, i + 1);
    }
}

/// The picture of a pairing is told under `qr_svg`, and everything else as it was.
pub proof fn law_picture(payload: JsonView, svg: Seq<char>, other: Seq<char>)
    requires
        payload is Object,
        other != "qr_svg"@,
    ensures
        pairing::with_picture(payload, Some(svg)).text_at("qr_svg"@) == Some(svg),
        pairing::with_picture(payload, Some(svg)).member(other) == payload.member(other),
        pairing::with_picture(payload, None) == payload,
{
    law_member_set(payload->Object_0, "qr_svg"@, JsonView::Text(svg), other);
}

// ---- command mode ----

/// The commands that steer the channel itself, in command mode as well.
pub open spec fn steering() -> Seq<Seq<char>> {
    seq![
        "new"@,
        "clear"@,
        "compact"@,
        "context"@,
        "model"@,
        "sandbox"@,
        "sessions"@,
        "agent"@,
        "handoff"@,
        "help"@,
        "sh"@,
    ]
}

proof fn lemma_steering(name: Seq<char>)
    ensures
        steering().contains(name) <==> commands::is_control(name),
{
    let all = steering();
    if commands::is_control(name) {
        let i: int = if name == "new"@ {
            0
        } else if name == "clear"@ {
            1
        } else if name == "compact"@ {
            2
        } else if name == "context"@ {
            3
        } else if name == "model"@ {
            4
        } else if name == "sandbox"@ {
            5
        } else if name == "sessions"@ {
            6
        } else if name == "agent"@ {
            7
        } else if name == "handoff"@ {
            8
        } else if name == "help"@ {
            9
        } else {
            10
        };
        assert(all[i] == name);
    }
}

/// In command mode a message that asks for a command which steers the channel stays as it is, and so
/// does a blank one; every other message becomes a shell command.
pub proof fn law_steered(message: Seq<char>)
    ensures
        ({
            let t = text::trim_of(message);
            let words = text::words_of(t.skip(1));
            let steers = t.len() > 0 && t[0] == '/' && words.len() > 0 && steering().contains(
                words[0],
            );
            &&& t.len() == 0 || steers ==> commands::shell_rewrite(message) is None
            &&& t.len() > 0 && !steers ==> commands::shell_rewrite(message) == Some("/sh "@ + t)
        }),
{
    let t = text::trim_of(message);
    text::lemma_trimmed(message);
    text::lemma_trim_start_id(t);
    if t.len() > 0 && text::words_of(t.skip(1)).len() > 0 {
        lemma_steering(text::words_of(t.skip(1))[0]);
    }
}

} // verus!
