//! What becomes of the messages that Feishu sends, in terms of the members of their events.

use crate::channel;
use crate::channel::{ChannelMessageKind, ChannelType};
use crate::feishu::config::{DmPolicy, GroupPolicy, MentionMode};
use crate::feishu::events;
use crate::feishu::events::{AccessPolicy, EventAnswer, EventAsk, EventEffect, EventSetup, Inbound};
use crate::json;
use crate::json::JsonView;
use crate::text;
use vstd::prelude::*;

verus! {

/// The message in an event.
pub open spec fn message_in_event(value: JsonView) -> Option<JsonView> {
    match value.member("event"@) {
        Some(e) => e.member("message"@),
        None => None,
    }
}

/// The ids of the sender in an event.
pub open spec fn sender_in_event(value: JsonView) -> Option<JsonView> {
    match value.member("event"@) {
        Some(e) => match e.member("sender"@) {
            Some(s) => s.member("sender_id"@),
            None => None,
        },
        None => None,
    }
}

/// The text of a member, where the object is there.
pub open spec fn text_in(j: Option<JsonView>, name: Seq<char>) -> Option<Seq<char>> {
    match j {
        Some(v) => v.text_at(name),
        None => None,
    }
}

/// A text that may be missing: the given one, or the default.
pub open spec fn text_or(t: Option<Seq<char>>, default: Seq<char>) -> Seq<char> {
    match t {
        Some(s) => s,
        None => default,
    }
}

/// The content of the message in an event: what its member `content` spells.
pub open spec fn content_in_event(value: JsonView) -> Option<JsonView> {
    match text_in(message_in_event(value), "content"@) {
        Some(t) => json::document_of(t),
        None => json::document_of("{}"@),
    }
}

/// Whether an event is one of a message.
pub open spec fn is_message(value: JsonView) -> bool {
    text_in(value.member("header"@), "event_type"@) == Some("im.message.receive_v1"@)
}

/// The chat, the sender, the type and the text of the message in an event.
pub open spec fn chat_in_event(value: JsonView) -> Seq<char> {
    text_or(text_in(message_in_event(value), "chat_id"@), ""@)
}

/// The sender of the message in an event: by the open id, else by the user id.
pub open spec fn peer_in_event(value: JsonView) -> Seq<char> {
    match text_in(sender_in_event(value), "open_id"@) {
        Some(id) => id,
        None => text_or(text_in(sender_in_event(value), "user_id"@), ""@),
    }
}

/// The type of the message in an event.
pub open spec fn type_in_event(value: JsonView) -> Seq<char> {
    text_or(text_in(message_in_event(value), "message_type"@), "text"@)
}

/// The type of the chat in an event.
pub open spec fn chat_type_in_event(value: JsonView) -> Seq<char> {
    text_or(text_in(message_in_event(value), "chat_type"@), "p2p"@)
}

/// The text of the message in an event.
pub open spec fn body_in_event(value: JsonView) -> Seq<char> {
    text_or(text_in(content_in_event(value), "text"@), ""@)
}

/// Whether a message came to the account in a chat, and a reply to it goes back there.
pub open spec fn is_target(
    c: EventSetup,
    value: JsonView,
    target: channel::ChannelReplyTarget<Seq<char>>,
) -> bool {
    &&& target.channel_type is Feishu
    &&& target.account_id == c.account_id@
    &&& target.chat_id == chat_in_event(value)
    &&& target.message_id == text_in(message_in_event(value), "message_id"@)
}

proof fn lemma_inbound(value: JsonView, bot: Option<Seq<char>>)
    ensures
        is_message(value) <==> events::inbound_in(value, bot) is Some,
        events::inbound_in(value, bot) matches Some(m) ==> {
            &&& m.chat_id == chat_in_event(value)
            &&& m.message_id == text_in(message_in_event(value), "message_id"@)
            &&& m.chat_type == chat_type_in_event(value)
            &&& m.message_type == type_in_event(value)
            &&& m.peer_id == peer_in_event(value)
            &&& m.text == body_in_event(value)
            &&& m.image_key == text_in(content_in_event(value), "image_key"@)
            &&& m.file_key == text_in(content_in_event(value), "file_key"@)
            &&& m.file_name == events::nonblank(text_in(content_in_event(value), "file_name"@))
        },
{
}

/// Whether a reply to a command was answered, as it is told to the chat.
pub open spec fn is_reply(h: Seq<EventAnswer>, t: Seq<char>) -> bool {
    exists|j: int| 0 <= j < h.len() && #[trigger] told_by(h[j]) == Some(t)
}

/// What the chat is told of the outcome of a command.
pub open spec fn told_by(a: EventAnswer) -> Option<Seq<char>> {
    match a {
        EventAnswer::Reply(Ok(t)) => Some(t@),
        EventAnswer::Reply(Err(e)) => Some("Error: "@ + e@),
        _ => None,
    }
}

/// The kind of a message of that type.
pub open spec fn is_kind(message_type: Seq<char>, kind: ChannelMessageKind) -> bool {
    match kind {
        ChannelMessageKind::Text => message_type == "text"@,
        ChannelMessageKind::Photo => message_type == "image"@,
        ChannelMessageKind::Document => message_type == "file"@,
        ChannelMessageKind::Audio => message_type == "audio"@,
        ChannelMessageKind::Video => message_type == "video"@,
        ChannelMessageKind::Other => message_type != "text"@ && message_type != "image"@
            && message_type != "file"@ && message_type != "audio"@ && message_type != "video"@,
    }
}

/// Whether an effect says of a message what its event holds.
pub open spec fn effect_fits(
    c: EventSetup,
    value: JsonView,
    h: Seq<EventAnswer>,
    e: EventEffect<Seq<char>>,
) -> bool {
    match e {
        EventEffect::Log {
            channel_type,
            account_id,
            peer_id,
            chat_id,
            chat_type,
            body,
            access_granted,
        } => {
            &&& c.has_log
            &&& channel_type is Feishu
            &&& account_id == c.account_id@
            &&& peer_id == peer_in_event(value)
            &&& chat_id == chat_in_event(value)
            &&& chat_type == chat_type_in_event(value)
            &&& body == body_in_event(value)
        },
        EventEffect::Emit { channel_type, account_id, peer_id, access_granted } => {
            &&& c.has_sink
            &&& channel_type is Feishu
            &&& account_id == c.account_id@
            &&& peer_id == peer_in_event(value)
        },
        EventEffect::SendText { account_id, chat_id, text } => {
            &&& account_id == c.account_id@
            &&& chat_id == chat_in_event(value)
            &&& is_reply(h, text) || type_in_event(value) == "audio"@
        },
        EventEffect::Chat { target, text, meta, with_attachment } => {
            &&& c.has_sink
            &&& is_target(c, value, target)
            &&& text == body_in_event(value)
            &&& meta.channel_type is Feishu
            &&& meta.model == channel::opt_view(c.model)
            &&& meta.message_kind matches Some(kind)
            &&& is_kind(type_in_event(value), kind)
            &&& with_attachment ==> h.contains(EventAnswer::Downloaded(true)) && (type_in_event(value)
                == "image"@ || type_in_event(value) == "file"@)
            &&& type_in_event(value) != "audio"@
        },
    }
}

/// Whether a command is what follows a slash at the position `n` of a text, trimmed.
pub open spec fn is_command_from(s: Seq<char>, n: int, command: Seq<char>) -> bool {
    0 <= n < s.len() && s[n] == '/' && command == text::trim_of(s.skip(n + 1)) && command.len() > 0
}

/// Whether what is asked about a message is what its event holds.
pub open spec fn ask_fits(
    c: EventSetup,
    value: JsonView,
    h: Seq<EventAnswer>,
    a: EventAsk<Seq<char>>,
) -> bool {
    match a {
        EventAsk::Listed { id, group } => {
            &&& h.len() == 0
            &&& group == (chat_type_in_event(value) != "p2p"@)
            &&& group ==> id == chat_in_event(value) && c.policy.group_policy
                == GroupPolicy::Allowlist
            &&& !group ==> id == peer_in_event(value) && c.policy.dm_policy == DmPolicy::Allowlist
        },
        EventAsk::Command { command, target } => {
            &&& c.has_sink
            &&& is_target(c, value, target)
            &&& exists|n: int| #[trigger] is_command_from(body_in_event(value), n, command)
        },
        EventAsk::Download { message_id, key, kind, name } => {
            &&& message_id == text_in(message_in_event(value), "message_id"@)
            &&& kind == type_in_event(value)
            &&& kind == "image"@ || kind == "file"@
            &&& kind == "image"@ ==> text_in(content_in_event(value), "image_key"@) == Some(key)
            &&& kind == "file"@ ==> text_in(content_in_event(value), "file_key"@) == Some(key)
            &&& name is Some ==> kind == "file"@ && name == Some(
                text::trim_of(text_or(text_in(content_in_event(value), "file_name"@), ""@)),
            )
        },
        EventAsk::Finish => true,
    }
}

proof fn lemma_types()
    ensures
        "image"@ != "file"@,
        "image"@ != "audio"@,
        "file"@ != "audio"@,
        "text"@ != "image"@,
        "text"@ != "file"@,
        "text"@ != "audio"@,
{
    reveal_strlit("image");
    reveal_strlit("file");
    reveal_strlit("audio");
    reveal_strlit("text");
    assert("image"@[0] == 'i');
    assert("file"@[0] == 'f');
    assert("audio"@[0] == 'a');
    assert("text"@[0] == 't');
}

/// What is left of a text without its mentions is an end of it.
proof fn lemma_one_suffix(s: Seq<char>) -> (n: int)
    ensures
        0 <= n <= s.len(),
        events::without_one(s) == s.skip(n),
{
    reveal_strlit("</at>");
    text::lemma_find(s, "</at>"@, 0);
    let a = if text::begins(s, "<at"@) && text::find_in(s, "</at>"@) is Some {
        text::find_in(s, "</at>"@)->0 + 5
    } else {
        0
    };
    let t = events::without_tag(s);
    assert(t =~= s.skip(a));
    let rest = t.skip(1);
    let m = text::lead(rest, text::not_white());
    text::lemma_lead_bounds(rest, text::not_white());
    let b = if t.len() > 0 && t[0] == '@' {
        if m == 0 || m >= rest.len() {
            t.len() as int
        } else {
            m as int + 1
        }
    } else {
        0
    };
    let u = events::without_mention(t);
    assert(u =~= t.skip(b));
    let w = text::lead(u, text::white());
    text::lemma_lead_bounds(u, text::white());
    assert(text::trim_start_of(u) =~= s.skip(a + b + w));
    a + b + w
}

proof fn lemma_all_suffix(s: Seq<char>) -> (n: int)
    ensures
        0 <= n <= s.len(),
        events::without_all(s) == s.skip(n),
    decreases s.len(),
{
    if events::without_one(s).len() >= s.len() {
        assert(s.skip(0) =~= s);
        0
    } else {
        let a = lemma_one_suffix(s);
        let b = lemma_all_suffix(events::without_one(s));
        assert(s.skip(a).skip(b) =~= s.skip(a + b));
        a + b
    }
}

/// A command is what follows a slash in a text.
proof fn lemma_command_from(m: Inbound<Seq<char>>)
    ensures
        events::command_in(m) matches Some(command) ==> exists|n: int| #[trigger]
            is_command_from(m.text, n, command),
{
    if let Some(command) = events::command_in(m) {
        let t = text::trim_start_of(m.text);
        let a = text::lead(m.text, text::white());
        text::lemma_lead_bounds(m.text, text::white());
        let b = lemma_all_suffix(t);
        assert(t.skip(b) =~= m.text.skip(a + b));
        assert(m.text.skip(a + b).skip(1) =~= m.text.skip(a + b + 1));
        assert(is_command_from(m.text, a + b, command));
    }
}

/// What is done about an event and what is asked about it is what the members of the event say: who
/// wrote, in which chat, what and of which kind, and which image or file came with it. An event that
/// is no message is passed over.
pub proof fn law_event(c: EventSetup, value: JsonView, bot: Option<Seq<char>>, h: Seq<EventAnswer>)
    ensures
        ask_fits(c, value, h, events::event_step(c, value, bot, h).ask),
        forall|i: int|
            0 <= i < events::event_step(c, value, bot, h).effects.len() ==> effect_fits(
                c,
                value,
                h,
                #[trigger] events::event_step(c, value, bot, h).effects[i],
            ),
        !is_message(value) ==> events::event_step(c, value, bot, h).effects.len() == 0
            && events::event_step(c, value, bot, h).ask is Finish,
{
    lemma_inbound(value, bot);
    lemma_types();
    assert forall|j: int| 0 <= j < h.len() && #[trigger] h[j] == EventAnswer::Downloaded(true) implies
        h.contains(EventAnswer::Downloaded(true)) by {
        assert(h[j] == EventAnswer::Downloaded(true));
    }
    if let Some(m) = events::inbound_in(value, bot) {
        lemma_command_from(m);
        if let EventAsk::Command { command, target } = events::event_step(c, value, bot, h).ask {
            assert(events::command_in(m) == Some(command));
            let n = choose|n: int| #[trigger] is_command_from(m.text, n, command);
            assert(is_command_from(body_in_event(value), n, command));
        }
        if h.len() > 0 {
            assert(told_by(h[0]) == told_by(h[0]));
        }
        if h.len() > 1 {
            assert(told_by(h[1]) == told_by(h[1]));
        }
    }
}

// ---- what is let through ----

/// Whether the bot lets a message through, by its settings and by whether the list that decides, if
/// one does, holds the sender or the group.
pub proof fn law_let_through(p: AccessPolicy, m: Inbound<Seq<char>>, listed: bool)
    ensures
        m.chat_type == "p2p"@ ==> (events::grants(p, m, listed) <==> p.dm_policy == DmPolicy::Open || (
        p.dm_policy == DmPolicy::Allowlist && listed)),
        m.chat_type != "p2p"@ ==> (events::grants(p, m, listed) <==> (p.group_policy
            == GroupPolicy::Open || (p.group_policy == GroupPolicy::Allowlist && listed)) && (
        p.mention_mode == MentionMode::Always || (p.mention_mode == MentionMode::Mention
            && m.mentioned))),
        m.chat_type == "p2p"@ ==> (events::asks_allowlist(p, m) <==> p.dm_policy
            == DmPolicy::Allowlist),
        m.chat_type != "p2p"@ ==> (events::asks_allowlist(p, m) <==> p.group_policy
            == GroupPolicy::Allowlist),
{
}

/// A message mentions the bot where one of the mentions in its event holds the id of the bot.
pub proof fn law_mentioned(value: JsonView, bot: Option<Seq<char>>, m: Inbound<Seq<char>>)
    requires
        events::inbound_in(value, bot) == Some(m),
    ensures
        m.mentioned <==> {
            &&& bot is Some
            &&& value.member("event"@) is Some
            &&& value.member("event"@)->0.items_at("mentions"@) is Some
            &&& exists|i: int|
                0 <= i < (value.member("event"@)->0.items_at("mentions"@)->0).len() && {
                    let id = (#[trigger] (value.member("event"@)->0.items_at("mentions"@)->0)[i]).member(
                        "id"@,
                    );
                    text_in(id, "open_id"@) == bot || text_in(id, "user_id"@) == bot
                }
        },
{
    if let Some(b) = bot {
        if value.member("event"@) is Some && value.member("event"@)->0.items_at("mentions"@) is Some {
            let all = value.member("event"@)->0.items_at("mentions"@)->0;
            assert forall|i: int| 0 <= i < all.len() implies events::is_mention_of(
                #[trigger] all[i],
                b,
            ) == (text_in(all[i].member("id"@), "open_id"@) == bot || text_in(
                all[i].member("id"@),
                "user_id"@,
            ) == bot) by {}
        }
    }
}

/// Whether the message in an event is let through, given the answers: the list that decides, if one
/// does, was asked first.
pub open spec fn let_through(
    c: EventSetup,
    m: Inbound<Seq<char>>,
    h: Seq<EventAnswer>,
    listed: bool,
) -> bool {
    &&& events::grants(c.policy, m, listed)
    &&& events::asks_allowlist(c.policy, m) ==> h.len() > 0 && h[0] == EventAnswer::Listed(listed)
}

/// How many answers it takes to know whether a message is let through.
pub open spec fn answers_used(c: EventSetup, m: Inbound<Seq<char>>) -> int {
    if events::asks_allowlist(c.policy, m) {
        1
    } else {
        0
    }
}

/// An image that comes with a message which is let through is downloaded by its key, and is handed on
/// with the message once that worked.
pub proof fn law_image(
    c: EventSetup,
    value: JsonView,
    bot: Option<Seq<char>>,
    h: Seq<EventAnswer>,
    m: Inbound<Seq<char>>,
    listed: bool,
    key: Seq<char>,
)
    requires
        events::inbound_in(value, bot) == Some(m),
        let_through(c, m, h, listed),
        !(c.has_sink && events::command_in(m) is Some),
        type_in_event(value) == "image"@,
        text_in(content_in_event(value), "image_key"@) == Some(key),
    ensures
        h.len() == answers_used(c, m) ==> events::event_step(c, value, bot, h).ask == (
        EventAsk::Download {
            message_id: text_in(message_in_event(value), "message_id"@),
            key,
            kind: "image"@,
            name: None,
        }),
        h.len() > answers_used(c, m) && c.has_sink && h[answers_used(c, m)]
            == EventAnswer::Downloaded(true) ==> {
            &&& events::event_step(c, value, bot, h).effects.len() == 1
            &&& events::event_step(c, value, bot, h).effects[0] matches EventEffect::Chat {
                target,
                text,
                meta,
                with_attachment,
            }
            &&& with_attachment
            &&& text == body_in_event(value)
            &&& is_target(c, value, target)
        },
{
    lemma_inbound(value, bot);
    lemma_types();
}

/// A file that comes with a message which is let through is downloaded by its key, and is handed on
/// with the message once that worked.
pub proof fn law_file(
    c: EventSetup,
    value: JsonView,
    bot: Option<Seq<char>>,
    h: Seq<EventAnswer>,
    m: Inbound<Seq<char>>,
    listed: bool,
    key: Seq<char>,
)
    requires
        events::inbound_in(value, bot) == Some(m),
        let_through(c, m, h, listed),
        !(c.has_sink && events::command_in(m) is Some),
        type_in_event(value) == "file"@,
        text_in(content_in_event(value), "file_key"@) == Some(key),
    ensures
        h.len() == answers_used(c, m) ==> {
            &&& events::event_step(c, value, bot, h).ask matches EventAsk::Download {
                message_id,
                key: k,
                kind,
                name,
            }
            &&& message_id == text_in(message_in_event(value), "message_id"@)
            &&& k == key
            &&& kind == "file"@
            &&& text_in(content_in_event(value), "file_name"@) matches Some(full) ==> (text::trim_of(
                full,
            ).len() > 0 ==> name == Some(text::trim_of(full)))
        },
        h.len() > answers_used(c, m) && c.has_sink && h[answers_used(c, m)]
            == EventAnswer::Downloaded(true) ==> {
            &&& events::event_step(c, value, bot, h).effects.len() == 1
            &&& events::event_step(c, value, bot, h).effects[0] matches EventEffect::Chat {
                target,
                text,
                meta,
                with_attachment,
            }
            &&& with_attachment
            &&& text == body_in_event(value)
            &&& is_target(c, value, target)
        },
{
    lemma_inbound(value, bot);
    lemma_types();
}

/// A text that is let through and is no command is handed on as it is, at once.
pub proof fn law_text(
    c: EventSetup,
    value: JsonView,
    bot: Option<Seq<char>>,
    h: Seq<EventAnswer>,
    m: Inbound<Seq<char>>,
    listed: bool,
)
    requires
        events::inbound_in(value, bot) == Some(m),
        let_through(c, m, h, listed),
        c.has_sink,
        events::command_in(m) is None,
        type_in_event(value) == "text"@,
    ensures
        events::event_step(c, value, bot, h).ask is Finish,
        events::event_step(c, value, bot, h).effects.len() > 0,
        events::event_step(c, value, bot, h).effects.last() matches EventEffect::Chat {
            target,
            text,
            meta,
            with_attachment,
        } && text == body_in_event(value) && is_target(c, value, target) && !with_attachment,
{
    lemma_inbound(value, bot);
    lemma_types();
}

/// A message that starts with a slash is a command: what follows the slash, trimmed; and the outcome
/// of the command is told to the chat.
pub proof fn law_command(
    c: EventSetup,
    value: JsonView,
    bot: Option<Seq<char>>,
    h: Seq<EventAnswer>,
    m: Inbound<Seq<char>>,
    listed: bool,
)
    requires
        events::inbound_in(value, bot) == Some(m),
        let_through(c, m, h, listed),
        c.has_sink,
        body_in_event(value).len() > 0,
        body_in_event(value)[0] == '/',
        text::trim_of(body_in_event(value).skip(1)).len() > 0,
    ensures
        h.len() == answers_used(c, m) ==> {
            &&& events::event_step(c, value, bot, h).ask matches EventAsk::Command { command, target }
            &&& command == text::trim_of(body_in_event(value).skip(1))
            &&& is_target(c, value, target)
        },
        h.len() > answers_used(c, m) ==> (h[answers_used(c, m)] matches EventAnswer::Reply(Ok(t))
            ==> events::event_step(c, value, bot, h).effects == seq![
            EventEffect::SendText {
                account_id: c.account_id@,
                chat_id: chat_in_event(value),
                text: t@,
            },
        ]),
{
    lemma_inbound(value, bot);
    let s = body_in_event(value);
    text::lemma_trim_start_id(s);
    reveal_strlit("<at");
    assert(!text::begins(s, "<at"@)) by {
        if text::begins(s, "<at"@) {
            assert(s.subrange(0, 3)[0] == '<');
        }
    }
    assert(events::without_one(s) == s);
    assert(events::command_text(s) == s);
}

/// A mention before a command changes nothing: the command is the same without it.
pub proof fn law_mention_before(name: Seq<char>, t: Seq<char>)
    requires
        name.len() > 0,
        forall|i: int| 0 <= i < name.len() ==> !text::is_white(#[trigger] name[i]),
        t.len() > 0,
        t[0] == '/',
    ensures
        events::command_text(seq!['@'] + name + " "@ + t) == t,
        events::command_text(t) == t,
{
    reveal_strlit(" ");
    reveal_strlit("<at");
    let s = seq!['@'] + name + " "@ + t;
    text::lemma_trim_start_id(s);
    assert(!text::begins(s, "<at"@)) by {
        if text::begins(s, "<at"@) {
            assert(s.subrange(0, 3)[0] == '<');
        }
    }
    assert(!text::begins(t, "<at"@)) by {
        if text::begins(t, "<at"@) {
            assert(t.subrange(0, 3)[0] == '<');
        }
    }
    let rest = s.skip(1);
    assert forall|i: int| 0 <= i < name.len() implies text::not_white()(#[trigger] rest[i]) by {
        assert(rest[i] == name[i]);
    }
    assert(rest[name.len() as int] == ' ');
    text::lemma_lead(rest, text::not_white(), name.len() as int);
    let u = rest.skip(name.len() as int);
    assert(u =~= " "@ + t);
    assert(events::without_mention(s) == u);
    assert(u[1] == t[0]);
    text::lemma_lead(u, text::white(), 1);
    assert(u.skip(1) =~= t);
    assert(events::without_one(s) == t);
    text::lemma_trim_start_id(t);
    assert(events::without_one(t) == t);
    assert(events::without_all(t) == t);
}

/// Every message is logged and announced as soon as it is known whether it is let through, and with
/// that.
pub proof fn law_noted(
    c: EventSetup,
    value: JsonView,
    bot: Option<Seq<char>>,
    h: Seq<EventAnswer>,
    m: Inbound<Seq<char>>,
    listed: bool,
)
    requires
        events::inbound_in(value, bot) == Some(m),
        events::asks_allowlist(c.policy, m) ==> h.len() > 0 && h[0] == EventAnswer::Listed(listed),
        h.len() == answers_used(c, m),
    ensures
        c.has_log ==> events::event_step(c, value, bot, h).effects.contains(
            EventEffect::Log {
                channel_type: ChannelType::Feishu,
                account_id: c.account_id@,
                peer_id: peer_in_event(value),
                chat_id: chat_in_event(value),
                chat_type: chat_type_in_event(value),
                body: body_in_event(value),
                access_granted: events::grants(c.policy, m, listed),
            },
        ),
        c.has_sink ==> events::event_step(c, value, bot, h).effects.contains(
            EventEffect::Emit {
                channel_type: ChannelType::Feishu,
                account_id: c.account_id@,
                peer_id: peer_in_event(value),
                access_granted: events::grants(c.policy, m, listed),
            },
        ),
{
    lemma_inbound(value, bot);
    law_let_through(c.policy, m, listed);
    let granted = events::grants(c.policy, m, listed);
    assert(granted == events::grants(c.policy, m, false) || events::asks_allowlist(c.policy, m));
    let all = events::event_step(c, value, bot, h).effects;
    if c.has_log {
        assert(all[0] == (EventEffect::Log {
            channel_type: ChannelType::Feishu,
            account_id: c.account_id@,
            peer_id: peer_in_event(value),
            chat_id: chat_in_event(value),
            chat_type: chat_type_in_event(value),
            body: body_in_event(value),
            access_granted: granted,
        }));
    }
    if c.has_sink {
        let at = if c.has_log {
            1int
        } else {
            0
        };
        assert(all[at] == (EventEffect::Emit {
            channel_type: ChannelType::Feishu,
            account_id: c.account_id@,
            peer_id: peer_in_event(value),
            access_granted: granted,
        }));
    }
}

/// A recording is not handed on: the chat is told that recordings are not supported.
pub proof fn law_recording(
    c: EventSetup,
    value: JsonView,
    bot: Option<Seq<char>>,
    h: Seq<EventAnswer>,
    m: Inbound<Seq<char>>,
    listed: bool,
)
    requires
        events::inbound_in(value, bot) == Some(m),
        let_through(c, m, h, listed),
        !(c.has_sink && events::command_in(m) is Some),
        type_in_event(value) == "audio"@,
    ensures
        events::event_step(c, value, bot, h).ask is Finish,
        events::event_step(c, value, bot, h).effects.len() > 0,
        events::event_step(c, value, bot, h).effects.last() matches EventEffect::SendText {
            account_id,
            chat_id,
            text,
        } && account_id == c.account_id@ && chat_id == chat_in_event(value) && text::begins(
            text,
            "Voice messages are not supported"@,
        ),
{
    lemma_inbound(value, bot);
    lemma_types();
    reveal_strlit(
        "Voice messages are not supported in this fork. Please send text or upload a file instead.",
    );
    reveal_strlit("Voice messages are not supported");
    let t = events::voice_hint();
    let head = "Voice messages are not supported"@;
    assert(t.subrange(0, head.len() as int) =~= head);
}

// ---- downloads ----

/// An attachment is asked for under its own kind first. What came back has the type that the response
/// gives, and the name that the message gives, else the one that the response gives.
pub proof fn law_download(
    message_id: Seq<char>,
    kind: Seq<char>,
    name: Option<Seq<char>>,
    answers: Seq<events::DownloadAnswer>,
)
    ensures
        answers.len() == 0 ==> events::download_of(Some(message_id), kind, name, answers) == (
        events::DownloadStep::Request { resource_type: kind }),
        answers.len() > 0 ==> (answers[0] matches events::DownloadAnswer::Fetched {
            content_type,
            content_disposition,
        } ==> {
            &&& events::download_of(Some(message_id), kind, name, answers)
                matches events::DownloadStep::Done { media_type, original_name }
            &&& content_type matches Some(t) ==> media_type == t@
            &&& content_type is None ==> media_type == "application/octet-stream"@
            &&& name matches Some(n) ==> (text::trim_of(n).len() > 0 ==> original_name == Some(
                text::trim_of(n),
            ))
            &&& name is None && content_disposition is None ==> original_name is None
        }),
        answers.len() > 0 ==> (answers[0] matches events::DownloadAnswer::Failed(e)
            ==> events::download_of(Some(message_id), kind, name, answers)
            == events::DownloadStep::Failed(e@)),
        events::download_of(None, kind, name, answers) is Failed,
{
}

/// A recording that cannot be had as one is asked for as a file; what is no recording is asked for
/// once.
pub proof fn law_download_again(
    message_id: Seq<char>,
    kind: Seq<char>,
    name: Option<Seq<char>>,
    answers: Seq<events::DownloadAnswer>,
)
    requires
        answers.len() == 1,
        answers[0] is Refused,
    ensures
        kind == "audio"@ ==> events::download_of(Some(message_id), kind, name, answers) == (
        events::DownloadStep::Request { resource_type: "file"@ }),
        kind != "audio"@ ==> events::download_of(Some(message_id), kind, name, answers) is Failed,
{
    reveal_with_fuel(events::download_from, 3);
}

/// The name of a downloaded file is what stands between the quotation marks after `filename=`, whatever
/// white space stands around that part.
pub proof fn law_disposition(part: Seq<char>, name: Seq<char>)
    requires
        name.len() > 0,
        name[0] != '"',
        name.last() != '"',
        text::trim_of(part) == "filename="@ + ("\""@ + name + "\""@),
    ensures
        events::part_name(part) == Some(name),
{
    reveal_strlit("filename=");
    reveal_strlit("filename*=");
    reveal_strlit("\"");
    let p = text::trim_of(part);
    let q = "\""@ + name + "\""@;
    assert(p.subrange(0, 9) =~= "filename="@);
    assert(p.skip(9) =~= q);
    assert(p[8] == '=');
    if text::begins(p, "filename*="@) {
        assert(p.subrange(0, 10)[8] == '*');
    }
    text::lemma_trim_id(q);
    let quote = text::exactly('"');
    text::lemma_lead(q, quote, 1);
    let r = q.skip(1);
    assert(r =~= name + "\""@);
    text::lemma_trail(r, quote, 1);
    assert(r.take(r.len() - 1) =~= name);
}

/// The first part of a content disposition that gives a name counts.
pub proof fn law_disposition_first(value: Seq<char>, i: int)
    requires
        0 <= i < text::pieces_of(value, ';').len(),
        events::part_name(text::pieces_of(value, ';')[i]) is Some,
        forall|j: int|
            0 <= j < i ==> events::part_name(#[trigger] text::pieces_of(value, ';')[j]) is None,
    ensures
        events::disposition_name(value) == events::part_name(text::pieces_of(value, ';')[i]),
{
    lemma_name_from(text::pieces_of(value, ';'), i, 0);
}

proof fn lemma_name_from(parts: Seq<Seq<char>>, i: int, j: int)
    requires
        0 <= j <= i < parts.len(),
        events::part_name(parts[i]) is Some,
        forall|m: int| j <= m < i ==> events::part_name(#[trigger] parts[m]) is None,
    ensures
        events::name_from(parts, j) == events::part_name(parts[i]),
    decreases i - j,
{
    if j < i {
        assert(events::part_name(parts[j]) is None);
        lemma_name_from(parts, i, j + 1);
    }
}

} // verus!
