//! Messages that users send: how they are read, who may send them and what becomes of them.

use crate::channel;
use crate::channel::{ChannelMessageKind, ChannelMessageMeta, ChannelReplyTarget, ChannelType};
use crate::encoding;
use crate::feishu::config::{DmPolicy, GroupPolicy, MentionMode};
use crate::json;
use crate::json::{Json, JsonView};
use crate::text;
use vstd::prelude::*;

verus! {

// ---- the text of a command ----

/// `s` without a mention tag at its start.
pub open spec fn without_tag(s: Seq<char>) -> Seq<char> {
    if text::begins(s, "<at"@) {
        match text::find_in(s, "</at>"@) {
            Some(n) => s.skip(n + 5),
            None => s,
        }
    } else {
        s
    }
}

/// `s` without a mention at its start: an at sign and what follows up to white space. Where no
/// white space follows, or only white space, nothing is left.
pub open spec fn without_mention(s: Seq<char>) -> Seq<char> {
    if s.len() > 0 && s[0] == '@' {
        let rest = s.skip(1);
        let n = text::lead(rest, text::not_white());
        if n == 0 || n >= rest.len() {
            Seq::empty()
        } else {
            rest.skip(n as int)
        }
    } else {
        s
    }
}

/// `s` without one mention and the white space after it.
pub open spec fn without_one(s: Seq<char>) -> Seq<char> {
    text::trim_start_of(without_mention(without_tag(s)))
}

/// `s` without the mentions at its start, as long as there are any.
pub open spec fn without_all(s: Seq<char>) -> Seq<char>
    decreases s.len(),
{
    if without_one(s).len() >= s.len() {
        s
    } else {
        without_all(without_one(s))
    }
}

/// A text as a command: without white space and mentions at its start.
pub open spec fn command_text(s: Seq<char>) -> Seq<char> {
    without_all(text::trim_start_of(s))
}

/// Taking a mention off either shortens a text or leaves it as it is.
pub proof fn lemma_without_one(s: Seq<char>)
    ensures
        without_one(s).len() <= s.len(),
        without_one(s).len() == s.len() ==> without_one(s) == s,
        without_tag(s).len() <= s.len(),
        without_mention(s).len() <= s.len(),
{
    lemma_without_tag(s);
    let t = without_tag(s);
    lemma_without_mention(t);
    lemma_without_mention(s);
    let u = without_mention(t);
    text::lemma_lead_bounds(u, text::white());
    if text::lead(u, text::white()) == 0 {
        assert(u.skip(0) =~= u);
    }
}

proof fn lemma_without_tag(s: Seq<char>)
    ensures
        without_tag(s).len() <= s.len(),
        without_tag(s).len() == s.len() ==> without_tag(s) == s,
{
    reveal_strlit("</at>");
    text::lemma_find(s, "</at>"@, 0);
}

proof fn lemma_without_mention(s: Seq<char>)
    ensures
        without_mention(s).len() <= s.len(),
        without_mention(s).len() == s.len() ==> without_mention(s) == s,
{
    if s.len() > 0 && s[0] == '@' {
        text::lemma_lead_bounds(s.skip(1), text::not_white());
    }
}

/// `text` without a mention tag at its start.
pub fn strip_leading_at_tag(t: &str) -> (r: &str)
    ensures
        r@ == without_tag(t@),
{
    if !text::starts_with(t, "<at") {
        return t;
    }
    proof {
        reveal_strlit("</at>");
    }
    let total: usize = t.unicode_len();
    match text::find(t, "</at>") {
        Some(n) => t.substring_char(n + 5, total),
        None => t,
    }
}

/// `text` without a mention at its start.
pub fn strip_leading_mention_token(t: &str) -> (r: &str)
    ensures
        r@ == without_mention(t@),
{
    let cs = text::chars_of(t);
    if cs.len() == 0 || cs[0] != '@' {
        return t;
    }
    let ghost rest = t@.skip(1);
    let mut i: usize = 1;
    while i < cs.len() && !text::is_whitespace(cs[i])
        invariant
            cs@ == t@,
            1 <= i <= cs@.len(),
            rest == t@.skip(1),
            forall|j: int| 0 <= j < i - 1 ==> text::not_white()(#[trigger] rest[j]),
        decreases cs@.len() - i,
    {
        i += 1;
    }
    proof {
        text::lemma_lead(rest, text::not_white(), i - 1);
    }
    if i == 1 || i == cs.len() {
        let n: usize = cs.len();
        let none = t.substring_char(n, n);
        assert(none@ =~= Seq::<char>::empty());
        none
    } else {
        assert(rest.skip(i - 1) =~= t@.skip(i as int));
        t.substring_char(i, cs.len())
    }
}

/// A text as a command: without white space and mentions at its start.
pub fn normalize_command_text(t: &str) -> (r: &str)
    ensures
        r@ == command_text(t@),
{
    let mut s: &str = text::trim_start(t);
    loop
        invariant
            command_text(t@) == without_all(s@),
        decreases s@.len(),
    {
        let next = text::trim_start(strip_leading_mention_token(strip_leading_at_tag(s)));
        if next.unicode_len() >= s.unicode_len() {
            return s;
        }
        s = next;
    }
}

/// Nothing more can be taken off a normalized text, and normalizing it again changes nothing.
pub proof fn law_command_text(s: Seq<char>)
    ensures
        without_one(command_text(s)) == command_text(s),
        command_text(command_text(s)) == command_text(s),
        command_text(s).len() > 0 ==> command_text(s)[0] != '@' && !text::is_white(command_text(s)[0]),
{
    let t = text::trim_start_of(s);
    lemma_without_all(t);
    let r = command_text(s);
    lemma_without_one(r);
    text::lemma_lead_bounds(s, text::white());
    if t.len() > 0 {
        assert(!text::white()(s[text::lead(s, text::white()) as int]));
        assert(t[0] == s[text::lead(s, text::white()) as int]);
    }
    lemma_without_all_start(t);
    text::lemma_trim_start_id(r);
    if r.len() > 0 && r[0] == '@' {
        assert(without_tag(r) == r) by {
            lemma_without_tag(r);
            lemma_without_mention(without_tag(r));
            text::lemma_lead_bounds(without_mention(without_tag(r)), text::white());
        }
        text::lemma_lead_bounds(r.skip(1), text::not_white());
        assert(without_mention(r).len() < r.len());
        text::lemma_lead_bounds(without_mention(r), text::white());
    }
}

proof fn lemma_without_all(s: Seq<char>)
    ensures
        without_one(without_all(s)) == without_all(s),
    decreases s.len(),
{
    lemma_without_one(s);
    if without_one(s).len() < s.len() {
        lemma_without_all(without_one(s));
    }
}

proof fn lemma_without_all_start(s: Seq<char>)
    requires
        s.len() == 0 || !text::is_white(s[0]),
    ensures
        without_all(s).len() == 0 || !text::is_white(without_all(s)[0]),
    decreases s.len(),
{
    if without_one(s).len() < s.len() {
        let u = without_mention(without_tag(s));
        text::lemma_lead_bounds(u, text::white());
        let t = without_one(s);
        if t.len() > 0 {
            assert(!text::white()(u[text::lead(u, text::white()) as int]));
            assert(t[0] == u[text::lead(u, text::white()) as int]);
        }
        lemma_without_all_start(t);
    }
}

// ---- reading a message ----

/// The kind of a message by the name of its type.
pub open spec fn kind_of(message_type: Seq<char>) -> ChannelMessageKind {
    if message_type == "text"@ {
        ChannelMessageKind::Text
    } else if message_type == "image"@ {
        ChannelMessageKind::Photo
    } else if message_type == "file"@ {
        ChannelMessageKind::Document
    } else if message_type == "audio"@ {
        ChannelMessageKind::Audio
    } else if message_type == "video"@ {
        ChannelMessageKind::Video
    } else {
        ChannelMessageKind::Other
    }
}

/// The kind of a message by the name of its type.
pub fn map_message_kind(message_type: &str) -> (r: ChannelMessageKind)
    ensures
        r == kind_of(message_type@),
{
    if text::str_eq(message_type, "text") {
        ChannelMessageKind::Text
    } else if text::str_eq(message_type, "image") {
        ChannelMessageKind::Photo
    } else if text::str_eq(message_type, "file") {
        ChannelMessageKind::Document
    } else if text::str_eq(message_type, "audio") {
        ChannelMessageKind::Audio
    } else if text::str_eq(message_type, "video") {
        ChannelMessageKind::Video
    } else {
        ChannelMessageKind::Other
    }
}

/// Whether a mention is one of the bot.
pub open spec fn is_mention_of(m: JsonView, bot: Seq<char>) -> bool {
    match m.member("id"@) {
        Some(id) => id.text_at("open_id"@) == Some(bot) || id.text_at("user_id"@) == Some(bot),
        None => false,
    }
}

/// Whether the bot is mentioned; a bot whose id is not known is not.
pub open spec fn mentions_bot(mentions: Seq<JsonView>, bot: Option<Seq<char>>) -> bool {
    bot matches Some(b) && exists|i: int|
        0 <= i < mentions.len() && is_mention_of(#[trigger] mentions[i], b)
}

/// Whether the bot is mentioned; a bot whose id is not known is not.
pub fn mentions_target_bot(mentions: &Vec<Json>, bot_open_id: Option<&str>) -> (r: bool)
    ensures
        r == mentions_bot(json::views(mentions@), json::text_view(bot_open_id)),
{
    let bot = match bot_open_id {
        None => {
            return false;
        },
        Some(b) => b,
    };
    let ghost all = json::views(mentions@);
    let mut i: usize = 0;
    while i < mentions.len()
        invariant
            i <= mentions@.len(),
            all == json::views(mentions@),
            bot_open_id == Some(bot),
            forall|j: int| 0 <= j < i ==> !is_mention_of(#[trigger] all[j], bot@),
        decreases mentions@.len() - i,
    {
        assert(all[i as int] == mentions@[i as int]@);
        if let Some(id) = mentions[i].get("id") {
            if channel::opt_eq(id.text_at("open_id"), Some(bot)) || channel::opt_eq(
                id.text_at("user_id"),
                Some(bot),
            ) {
                assert(is_mention_of(all[i as int], bot@));
                return true;
            }
        }
        i += 1;
    }
    false
}

/// A message of a user.
#[derive(Debug)]
pub struct Inbound<S> {
    pub chat_id: S,
    pub message_id: Option<S>,
    pub chat_type: S,
    pub message_type: S,
    pub peer_id: S,
    pub text: S,
    pub image_key: Option<S>,
    pub file_key: Option<S>,
    pub file_name: Option<S>,
    /// Whether the bot is mentioned.
    pub mentioned: bool,
}

impl View for Inbound<String> {
    type V = Inbound<Seq<char>>;

    open spec fn view(&self) -> Inbound<Seq<char>> {
        Inbound {
            chat_id: self.chat_id@,
            message_id: channel::opt_view(self.message_id),
            chat_type: self.chat_type@,
            message_type: self.message_type@,
            peer_id: self.peer_id@,
            text: self.text@,
            image_key: channel::opt_view(self.image_key),
            file_key: channel::opt_view(self.file_key),
            file_name: channel::opt_view(self.file_name),
            mentioned: self.mentioned,
        }
    }
}

/// The member `name` of the member `outer`.
pub open spec fn inner(j: Option<JsonView>, name: Seq<char>) -> Option<JsonView> {
    match j {
        Some(v) => v.member(name),
        None => None,
    }
}

/// The text that the member `name` holds.
pub open spec fn inner_text(j: Option<JsonView>, name: Seq<char>) -> Option<Seq<char>> {
    match j {
        Some(v) => v.text_at(name),
        None => None,
    }
}

/// A text, or a default.
pub open spec fn or_else(t: Option<Seq<char>>, default: Seq<char>) -> Seq<char> {
    match t {
        Some(s) => s,
        None => default,
    }
}

/// A name, trimmed, if it is not blank.
pub open spec fn nonblank(t: Option<Seq<char>>) -> Option<Seq<char>> {
    match t {
        Some(s) => if text::trim_of(s).len() == 0 {
            None
        } else {
            Some(text::trim_of(s))
        },
        None => None,
    }
}

/// Whether an event is a message of a user.
pub open spec fn is_message_event(value: JsonView) -> bool {
    inner_text(value.member("header"@), "event_type"@) == Some("im.message.receive_v1"@)
}

/// The content of a message as it was sent: a JSON text.
pub open spec fn content_text(value: JsonView) -> Seq<char> {
    or_else(inner_text(inner(value.member("event"@), "message"@), "content"@), "{}"@)
}

/// The message in an event, given its content.
pub open spec fn message_in(value: JsonView, content: JsonView, bot: Option<Seq<char>>) -> Inbound<
    Seq<char>,
> {
    let event = value.member("event"@);
    let message = inner(event, "message"@);
    let sender = inner(inner(event, "sender"@), "sender_id"@);
    Inbound {
        chat_id: or_else(inner_text(message, "chat_id"@), ""@),
        message_id: inner_text(message, "message_id"@),
        chat_type: or_else(inner_text(message, "chat_type"@), "p2p"@),
        message_type: or_else(inner_text(message, "message_type"@), "text"@),
        peer_id: match inner_text(sender, "open_id"@) {
            Some(id) => id,
            None => or_else(inner_text(sender, "user_id"@), ""@),
        },
        text: or_else(content.text_at("text"@), ""@),
        image_key: content.text_at("image_key"@),
        file_key: content.text_at("file_key"@),
        file_name: nonblank(content.text_at("file_name"@)),
        mentioned: match event {
            Some(e) => match e.items_at("mentions"@) {
                Some(mentions) => mentions_bot(mentions, bot),
                None => false,
            },
            None => false,
        },
    }
}

fn get_inner<'a>(j: Option<&'a Json>, name: &str) -> (r: Option<&'a Json>)
    ensures
        json::json_view(r) == inner(json::json_view(j), name@),
{
    match j {
        Some(v) => v.get(name),
        None => None,
    }
}

fn get_inner_text<'a>(j: Option<&'a Json>, name: &str) -> (r: Option<&'a str>)
    ensures
        json::text_view(r) == inner_text(json::json_view(j), name@),
{
    match j {
        Some(v) => v.text_at(name),
        None => None,
    }
}

fn owned_or(t: Option<&str>, default: &str) -> (r: String)
    ensures
        r@ == or_else(json::text_view(t), default@),
{
    match t {
        Some(s) => s.to_string(),
        None => default.to_string(),
    }
}

fn owned(t: Option<&str>) -> (r: Option<String>)
    ensures
        channel::opt_view(r) == json::text_view(t),
{
    match t {
        Some(s) => Some(s.to_string()),
        None => None,
    }
}

/// A name, trimmed, if it is not blank.
pub fn trimmed_name(t: Option<&str>) -> (r: Option<String>)
    ensures
        channel::opt_view(r) == nonblank(json::text_view(t)),
{
    match t {
        Some(s) => {
            let u = text::trim(s);
            if u.unicode_len() == 0 {
                None
            } else {
                Some(u.to_string())
            }
        },
        None => None,
    }
}

/// Reads the message in an event, given its content.
pub fn message_of(value: &Json, content: &Json, bot: Option<&str>) -> (r: Inbound<String>)
    ensures
        r@ == message_in(value@, content@, json::text_view(bot)),
{
    let event = value.get("event");
    let message = get_inner(event, "message");
    let sender = get_inner(get_inner(event, "sender"), "sender_id");
    let peer = match get_inner_text(sender, "open_id") {
        Some(id) => id.to_string(),
        None => owned_or(get_inner_text(sender, "user_id"), ""),
    };
    let mentioned = match event {
        Some(e) => match e.items_at("mentions") {
            Some(mentions) => mentions_target_bot(mentions, bot),
            None => false,
        },
        None => false,
    };
    Inbound {
        chat_id: owned_or(get_inner_text(message, "chat_id"), ""),
        message_id: owned(get_inner_text(message, "message_id")),
        chat_type: owned_or(get_inner_text(message, "chat_type"), "p2p"),
        message_type: owned_or(get_inner_text(message, "message_type"), "text"),
        peer_id: peer,
        text: owned_or(content.text_at("text"), ""),
        image_key: owned(content.text_at("image_key")),
        file_key: owned(content.text_at("file_key")),
        file_name: trimmed_name(content.text_at("file_name")),
        mentioned,
    }
}

/// The message in an event; its content is null where it spells no document.
pub open spec fn inbound_in(value: JsonView, bot: Option<Seq<char>>) -> Option<Inbound<Seq<char>>> {
    if is_message_event(value) {
        Some(
            message_in(
                value,
                match json::document_of(content_text(value)) {
                    Some(j) => j,
                    None => JsonView::Null,
                },
                bot,
            ),
        )
    } else {
        None
    }
}

/// What a message in an option holds.
pub open spec fn inbound_view(m: Option<Inbound<String>>) -> Option<Inbound<Seq<char>>> {
    match m {
        Some(x) => Some(x@),
        None => None,
    }
}

/// Reads the message in an event; nothing where the event is something else.
pub fn read_inbound(value: &Json, bot: Option<&str>) -> (r: Option<Inbound<String>>)
    ensures
        inbound_view(r) == inbound_in(value@, json::text_view(bot)),
{
    if !channel::opt_eq(
        get_inner_text(value.get("header"), "event_type"),
        Some("im.message.receive_v1"),
    ) {
        return None;
    }
    let raw = match get_inner_text(get_inner(value.get("event"), "message"), "content") {
        Some(c) => c,
        None => "{}",
    };
    let content = match json::parse_text(raw) {
        Some(j) => j,
        None => Json::Null,
    };
    Some(message_of(value, &content, bot))
}

// ---- who may write ----

/// Whom the bot answers.
#[derive(Debug, Clone, Copy, PartialEq, Eq, Structural)]
pub struct AccessPolicy {
    pub dm_policy: DmPolicy,
    pub group_policy: GroupPolicy,
    pub mention_mode: MentionMode,
}

/// Whether a chat is a group.
pub open spec fn is_group(m: Inbound<Seq<char>>) -> bool {
    m.chat_type != "p2p"@
}

/// Whether an allow-list decides about the message.
pub open spec fn asks_allowlist(p: AccessPolicy, m: Inbound<Seq<char>>) -> bool {
    if is_group(m) {
        p.group_policy == GroupPolicy::Allowlist
    } else {
        p.dm_policy == DmPolicy::Allowlist
    }
}

/// Whether the message is let through, given what the allow-list says.
pub open spec fn grants(p: AccessPolicy, m: Inbound<Seq<char>>, listed: bool) -> bool {
    if is_group(m) {
        (match p.group_policy {
            GroupPolicy::Open => true,
            GroupPolicy::Allowlist => listed,
            GroupPolicy::Disabled => false,
        }) && (match p.mention_mode {
            MentionMode::Always => true,
            MentionMode::Mention => m.mentioned,
            MentionMode::Never => false,
        })
    } else {
        match p.dm_policy {
            DmPolicy::Open => true,
            DmPolicy::Allowlist => listed,
            DmPolicy::Disabled => false,
        }
    }
}

/// Whether the message is let through, given what the allow-list says.
pub fn access_granted(p: AccessPolicy, m: &Inbound<String>, listed: bool) -> (r: bool)
    ensures
        r == grants(p, m@, listed),
{
    if !text::str_eq(m.chat_type.as_str(), "p2p") {
        let policy = match p.group_policy {
            GroupPolicy::Open => true,
            GroupPolicy::Allowlist => listed,
            GroupPolicy::Disabled => false,
        };
        let mention = match p.mention_mode {
            MentionMode::Always => true,
            MentionMode::Mention => m.mentioned,
            MentionMode::Never => false,
        };
        policy && mention
    } else {
        match p.dm_policy {
            DmPolicy::Open => true,
            DmPolicy::Allowlist => listed,
            DmPolicy::Disabled => false,
        }
    }
}

fn needs_allowlist(p: AccessPolicy, m: &Inbound<String>) -> (r: bool)
    ensures
        r == asks_allowlist(p, m@),
{
    if !text::str_eq(m.chat_type.as_str(), "p2p") {
        p.group_policy == GroupPolicy::Allowlist
    } else {
        p.dm_policy == DmPolicy::Allowlist
    }
}

/// A policy that is switched off lets nothing through, whoever is listed or mentioned; and in a
/// group that asks for mentions only a message that mentions the bot is let through.
pub proof fn law_access(p: AccessPolicy, m: Inbound<Seq<char>>, listed: bool)
    ensures
        is_group(m) && p.group_policy == GroupPolicy::Disabled ==> !grants(p, m, listed),
        !is_group(m) && p.dm_policy == DmPolicy::Disabled ==> !grants(p, m, listed),
        is_group(m) && p.mention_mode == MentionMode::Mention && !m.mentioned ==> !grants(
            p,
            m,
            listed,
        ),
        !asks_allowlist(p, m) ==> grants(p, m, listed) == grants(p, m, !listed),
{
}

// ---- what becomes of a message ----

/// Work whose outcome decides nothing.
#[derive(Debug)]
pub enum EventEffect<S> {
    /// Write the message to the log.
    Log {
        channel_type: ChannelType<S>,
        account_id: S,
        peer_id: S,
        chat_id: S,
        chat_type: S,
        body: S,
        access_granted: bool,
    },
    /// Tell the gateway that a message came.
    Emit { channel_type: ChannelType<S>, account_id: S, peer_id: S, access_granted: bool },
    /// Send a text to the chat.
    SendText { account_id: S, chat_id: S, text: S },
    /// Hand the message to the gateway, with the attachment that was downloaded or without one.
    Chat {
        target: ChannelReplyTarget<S>,
        text: S,
        meta: ChannelMessageMeta<S>,
        with_attachment: bool,
    },
}

/// Work whose answer decides how it goes on.
#[derive(Debug)]
pub enum EventAsk<S> {
    /// Whether the allow-list for groups, or that for users, holds an id.
    Listed { id: S, group: bool },
    /// Carry out a command.
    Command { command: S, target: ChannelReplyTarget<S> },
    /// Download an attachment.
    Download { message_id: Option<S>, key: S, kind: S, name: Option<S> },
    /// Nothing is left to do.
    Finish,
}

/// What is done next: the effects in order, then what is asked.
#[derive(Debug)]
pub struct EventAction {
    pub effects: Vec<EventEffect<String>>,
    pub ask: EventAsk<String>,
}

/// What an action holds.
#[verifier::ext_equal]
pub struct EventActionView {
    pub effects: Seq<EventEffect<Seq<char>>>,
    pub ask: EventAsk<Seq<char>>,
}

/// What came back.
#[derive(Debug)]
pub enum EventAnswer {
    /// To `Listed`.
    Listed(bool),
    /// To `Command`: the reply, or the text of the error.
    Reply(Result<String, String>),
    /// To `Download`: whether it worked.
    Downloaded(bool),
}

impl View for EventEffect<String> {
    type V = EventEffect<Seq<char>>;

    open spec fn view(&self) -> EventEffect<Seq<char>> {
        match *self {
            EventEffect::Log {
                channel_type,
                account_id,
                peer_id,
                chat_id,
                chat_type,
                body,
                access_granted,
            } => EventEffect::Log {
                channel_type: channel_type@,
                account_id: account_id@,
                peer_id: peer_id@,
                chat_id: chat_id@,
                chat_type: chat_type@,
                body: body@,
                access_granted,
            },
            EventEffect::Emit { channel_type, account_id, peer_id, access_granted } =>
                EventEffect::Emit {
                    channel_type: channel_type@,
                    account_id: account_id@,
                    peer_id: peer_id@,
                    access_granted,
                },
            EventEffect::SendText { account_id, chat_id, text } => EventEffect::SendText {
                account_id: account_id@,
                chat_id: chat_id@,
                text: text@,
            },
            EventEffect::Chat { target, text, meta, with_attachment } => EventEffect::Chat {
                target: target@,
                text: text@,
                meta: meta@,
                with_attachment,
            },
        }
    }
}

impl View for EventAsk<String> {
    type V = EventAsk<Seq<char>>;

    open spec fn view(&self) -> EventAsk<Seq<char>> {
        match *self {
            EventAsk::Listed { id, group } => EventAsk::Listed { id: id@, group },
            EventAsk::Command { command, target } => EventAsk::Command {
                command: command@,
                target: target@,
            },
            EventAsk::Download { message_id, key, kind, name } => EventAsk::Download {
                message_id: channel::opt_view(message_id),
                key: key@,
                kind: kind@,
                name: channel::opt_view(name),
            },
            EventAsk::Finish => EventAsk::Finish,
        }
    }
}

/// What a list of effects holds.
pub open spec fn effects_view(effects: Seq<EventEffect<String>>) -> Seq<EventEffect<Seq<char>>> {
    effects.map_values(|e: EventEffect<String>| e@)
}

impl View for EventAction {
    type V = EventActionView;

    open spec fn view(&self) -> EventActionView {
        EventActionView { effects: effects_view(self.effects@), ask: self.ask@ }
    }
}

/// The account that messages come to, and what is at hand for them: a log, the gateway, and whom
/// the bot answers.
#[derive(Debug)]
pub struct EventSetup {
    pub account_id: String,
    /// The model that the account is configured for.
    pub model: Option<String>,
    pub has_log: bool,
    pub has_sink: bool,
    pub policy: AccessPolicy,
}

/// Where the replies to a message go: to its chat, through the account that it came to.
pub open spec fn reply_target_of(c: EventSetup, m: Inbound<Seq<char>>) -> ChannelReplyTarget<
    Seq<char>,
> {
    ChannelReplyTarget {
        channel_type: ChannelType::Feishu,
        account_id: c.account_id@,
        chat_id: m.chat_id,
        message_id: m.message_id,
    }
}

fn reply_target(c: &EventSetup, m: &Inbound<String>) -> (r: ChannelReplyTarget)
    ensures
        r@ == reply_target_of(*c, m@),
{
    ChannelReplyTarget {
        channel_type: ChannelType::Feishu,
        account_id: c.account_id.clone(),
        chat_id: m.chat_id.clone(),
        message_id: channel::opt_copy(&m.message_id),
    }
}

/// What the gateway is told of a message besides its text: its kind, and the model that the account
/// is configured for.
pub open spec fn meta_of(c: EventSetup, m: Inbound<Seq<char>>) -> ChannelMessageMeta<Seq<char>> {
    ChannelMessageMeta {
        channel_type: ChannelType::Feishu,
        sender_name: None,
        username: None,
        message_kind: Some(kind_of(m.message_type)),
        model: channel::opt_view(c.model),
        audio_filename: None,
    }
}

fn message_meta(c: &EventSetup, m: &Inbound<String>) -> (r: ChannelMessageMeta)
    ensures
        r@ == meta_of(*c, m@),
{
    ChannelMessageMeta {
        channel_type: ChannelType::Feishu,
        sender_name: None,
        username: None,
        message_kind: Some(map_message_kind(m.message_type.as_str())),
        model: channel::opt_copy(&c.model),
        audio_filename: None,
    }
}

/// The first effects of every message: it is logged and announced.
pub open spec fn noted(c: EventSetup, m: Inbound<Seq<char>>, granted: bool) -> Seq<
    EventEffect<Seq<char>>,
> {
    (if c.has_log {
        seq![
            EventEffect::Log {
                channel_type: ChannelType::Feishu,
                account_id: c.account_id@,
                peer_id: m.peer_id,
                chat_id: m.chat_id,
                chat_type: m.chat_type,
                body: m.text,
                access_granted: granted,
            },
        ]
    } else {
        Seq::empty()
    }) + (if c.has_sink {
        seq![
            EventEffect::Emit {
                channel_type: ChannelType::Feishu,
                account_id: c.account_id@,
                peer_id: m.peer_id,
                access_granted: granted,
            },
        ]
    } else {
        Seq::empty()
    })
}

/// The command in a message, if it is one.
pub open spec fn command_in(m: Inbound<Seq<char>>) -> Option<Seq<char>> {
    let t = command_text(m.text);
    if t.len() > 0 && t[0] == '/' && text::trim_of(t.skip(1)).len() > 0 {
        Some(text::trim_of(t.skip(1)))
    } else {
        None
    }
}

/// The attachment of a message, if it has one: its key and its kind.
pub open spec fn attachment_in(m: Inbound<Seq<char>>) -> Option<(Seq<char>, Seq<char>, Option<Seq<char>>)> {
    if m.message_type == "image"@ {
        match m.image_key {
            Some(k) => Some((k, "image"@, None)),
            None => None,
        }
    } else if m.message_type == "file"@ {
        match m.file_key {
            Some(k) => Some((k, "file"@, m.file_name)),
            None => None,
        }
    } else {
        None
    }
}

/// What users are told who send a recording.
pub open spec fn voice_hint() -> Seq<char> {
    "Voice messages are not supported in this fork. Please send text or upload a file instead."@
}

/// The message is handed to the gateway, if there is one.
pub open spec fn handed_on(
    c: EventSetup,
    m: Inbound<Seq<char>>,
    effects: Seq<EventEffect<Seq<char>>>,
    with_attachment: bool,
) -> EventActionView {
    EventActionView {
        effects: if c.has_sink {
            effects.push(
                EventEffect::Chat {
                    target: reply_target_of(c, m),
                    text: m.text,
                    meta: meta_of(c, m),
                    with_attachment,
                },
            )
        } else {
            effects
        },
        ask: EventAsk::Finish,
    }
}

/// A text that goes back to the chat of a message.
pub open spec fn told(c: EventSetup, m: Inbound<Seq<char>>, t: Seq<char>) -> EventEffect<Seq<char>> {
    EventEffect::SendText { account_id: c.account_id@, chat_id: m.chat_id, text: t }
}

/// The end of it, after the effects.
pub open spec fn finished(effects: Seq<EventEffect<Seq<char>>>) -> EventActionView {
    EventActionView { effects, ask: EventAsk::Finish }
}

/// What becomes of a message about which it is known whether it is let through.
pub open spec fn admitted_step(
    c: EventSetup,
    m: Inbound<Seq<char>>,
    granted: bool,
    h: Seq<EventAnswer>,
    k: int,
) -> EventActionView {
    let first = noted(c, m, granted);
    if !granted {
        finished(first)
    } else if c.has_sink && command_in(m) is Some {
        if k >= h.len() {
            EventActionView {
                effects: first,
                ask: EventAsk::Command {
                    command: command_in(m)->0,
                    target: reply_target_of(c, m),
                },
            }
        } else {
            match h[k] {
                EventAnswer::Reply(Ok(t)) => finished(seq![told(c, m, t@)]),
                EventAnswer::Reply(Err(e)) => finished(seq![told(c, m, "Error: "@ + e@)]),
                _ => finished(Seq::empty()),
            }
        }
    } else if m.message_type == "audio"@ {
        finished(first.push(told(c, m, voice_hint())))
    } else {
        match attachment_in(m) {
            None => handed_on(c, m, first, false),
            Some((key, kind, name)) => if k >= h.len() {
                EventActionView {
                    effects: first,
                    ask: EventAsk::Download { message_id: m.message_id, key, kind, name },
                }
            } else {
                match h[k] {
                    EventAnswer::Downloaded(worked) => handed_on(c, m, Seq::empty(), worked),
                    _ => finished(Seq::empty()),
                }
            },
        }
    }
}

/// What becomes of a message: it is let through or not, logged and announced; then it is a command,
/// or goes to the gateway with its attachment.
pub open spec fn message_step(c: EventSetup, m: Inbound<Seq<char>>, h: Seq<EventAnswer>) -> EventActionView {
    if asks_allowlist(c.policy, m) {
        if h.len() == 0 {
            EventActionView {
                effects: Seq::empty(),
                ask: EventAsk::Listed {
                    id: if is_group(m) {
                        m.chat_id
                    } else {
                        m.peer_id
                    },
                    group: is_group(m),
                },
            }
        } else {
            match h[0] {
                EventAnswer::Listed(listed) => admitted_step(
                    c,
                    m,
                    grants(c.policy, m, listed),
                    h,
                    1,
                ),
                _ => finished(Seq::empty()),
            }
        }
    } else {
        admitted_step(c, m, grants(c.policy, m, false), h, 0)
    }
}

fn push_effect(effects: &mut Vec<EventEffect<String>>, e: EventEffect<String>)
    ensures
        effects_view(final(effects)@) == effects_view(old(effects)@).push(e@),
{
    let ghost before = effects_view(effects@);
    effects.push(e);
    assert(effects_view(effects@) =~= before.push(e@));
}

fn no_effects() -> (r: Vec<EventEffect<String>>)
    ensures
        effects_view(r@) == Seq::<EventEffect<Seq<char>>>::empty(),
{
    let r: Vec<EventEffect<String>> = Vec::new();
    assert(effects_view(r@) =~= Seq::<EventEffect<Seq<char>>>::empty());
    r
}

fn finish(effects: Vec<EventEffect<String>>) -> (r: EventAction)
    ensures
        r@ == finished(effects_view(effects@)),
{
    EventAction { effects, ask: EventAsk::Finish }
}

fn tell(c: &EventSetup, m: &Inbound<String>, t: String) -> (r: EventEffect<String>)
    ensures
        r@ == told(*c, m@, t@),
{
    EventEffect::SendText {
        account_id: c.account_id.clone(),
        chat_id: m.chat_id.clone(),
        text: t,
    }
}

fn note(c: &EventSetup, m: &Inbound<String>, granted: bool) -> (r: Vec<EventEffect<String>>)
    ensures
        effects_view(r@) == noted(*c, m@, granted),
{
    let mut effects = no_effects();
    if c.has_log {
        push_effect(
            &mut effects,
            EventEffect::Log {
                channel_type: ChannelType::Feishu,
                account_id: c.account_id.clone(),
                peer_id: m.peer_id.clone(),
                chat_id: m.chat_id.clone(),
                chat_type: m.chat_type.clone(),
                body: m.text.clone(),
                access_granted: granted,
            },
        );
    }
    if c.has_sink {
        push_effect(
            &mut effects,
            EventEffect::Emit {
                channel_type: ChannelType::Feishu,
                account_id: c.account_id.clone(),
                peer_id: m.peer_id.clone(),
                access_granted: granted,
            },
        );
    }
    assert(effects_view(effects@) =~= noted(*c, m@, granted));
    effects
}

fn hand_on(
    c: &EventSetup,
    m: &Inbound<String>,
    effects: Vec<EventEffect<String>>,
    with_attachment: bool,
) -> (r: EventAction)
    ensures
        r@ == handed_on(*c, m@, effects_view(effects@), with_attachment),
{
    let mut effects = effects;
    if c.has_sink {
        push_effect(
            &mut effects,
            EventEffect::Chat {
                target: reply_target(c, m),
                text: m.text.clone(),
                meta: message_meta(c, m),
                with_attachment,
            },
        );
    }
    EventAction { effects, ask: EventAsk::Finish }
}

fn find_command(m: &Inbound<String>) -> (r: Option<String>)
    ensures
        channel::opt_view(r) == command_in(m@),
{
    let t = normalize_command_text(m.text.as_str());
    proof {
        reveal_strlit("/");
        assert(t@.len() > 0 && t@[0] == '/' ==> t@.subrange(0, 1) =~= "/"@);
        assert(t@.len() > 0 && t@.subrange(0, 1) == "/"@ ==> t@.subrange(0, 1)[0] == '/');
    }
    match text::strip_prefix(t, "/") {
        None => None,
        Some(rest) => {
            let cmd = text::trim(rest);
            if cmd.unicode_len() == 0 {
                None
            } else {
                Some(cmd.to_string())
            }
        },
    }
}

/// What an attachment in an option holds.
pub open spec fn attachment_view(a: Option<(String, String, Option<String>)>) -> Option<
    (Seq<char>, Seq<char>, Option<Seq<char>>),
> {
    match a {
        Some((key, kind, name)) => Some((key@, kind@, channel::opt_view(name))),
        None => None,
    }
}

fn find_attachment(m: &Inbound<String>) -> (r: Option<(String, String, Option<String>)>)
    ensures
        attachment_view(r) == attachment_in(m@),
{
    if text::str_eq(m.message_type.as_str(), "image") {
        match &m.image_key {
            Some(k) => Some((k.clone(), "image".to_string(), None)),
            None => None,
        }
    } else if text::str_eq(m.message_type.as_str(), "file") {
        match &m.file_key {
            Some(k) => Some((k.clone(), "file".to_string(), channel::opt_copy(&m.file_name))),
            None => None,
        }
    } else {
        None
    }
}

fn run_admitted(
    c: &EventSetup,
    m: &Inbound<String>,
    granted: bool,
    h: &Vec<EventAnswer>,
    k: usize,
) -> (r: EventAction)
    requires
        k <= h@.len(),
    ensures
        r@ == admitted_step(*c, m@, granted, h@, k as int),
{
    let mut first = note(c, m, granted);
    if !granted {
        return finish(first);
    }
    let command = find_command(m);
    if c.has_sink && command.is_some() {
        let command = command.unwrap();
        if k >= h.len() {
            return EventAction {
                effects: first,
                ask: EventAsk::Command { command, target: reply_target(c, m) },
            };
        }
        let t = match &h[k] {
            EventAnswer::Reply(Ok(t)) => t.clone(),
            EventAnswer::Reply(Err(e)) => {
                let mut t = "Error: ".to_string();
                t.append(e.as_str());
                t
            },
            _ => {
                return finish(no_effects());
            },
        };
        let mut effects = no_effects();
        push_effect(&mut effects, tell(c, m, t));
        assert(effects_view(effects@) =~= seq![told(*c, m@, t@)]);
        return finish(effects);
    }
    if text::str_eq(m.message_type.as_str(), "audio") {
        push_effect(
            &mut first,
            tell(
                c,
                m,
                "Voice messages are not supported in this fork. Please send text or upload a file instead.".to_string(),
            ),
        );
        return finish(first);
    }
    match find_attachment(m) {
        None => hand_on(c, m, first, false),
        Some((key, kind, name)) => {
            if k >= h.len() {
                return EventAction {
                    effects: first,
                    ask: EventAsk::Download {
                        message_id: channel::opt_copy(&m.message_id),
                        key,
                        kind,
                        name,
                    },
                };
            }
            match &h[k] {
                EventAnswer::Downloaded(worked) => hand_on(c, m, no_effects(), *worked),
                _ => finish(no_effects()),
            }
        },
    }
}

/// What becomes of a message next, given the answers so far.
pub fn handle_message(c: &EventSetup, m: &Inbound<String>, h: &Vec<EventAnswer>) -> (r: EventAction)
    ensures
        r@ == message_step(*c, m@, h@),
{
    if needs_allowlist(c.policy, m) {
        let group = !text::str_eq(m.chat_type.as_str(), "p2p");
        if h.len() == 0 {
            let id = if group {
                m.chat_id.clone()
            } else {
                m.peer_id.clone()
            };
            return EventAction { effects: no_effects(), ask: EventAsk::Listed { id, group } };
        }
        match &h[0] {
            EventAnswer::Listed(listed) => run_admitted(
                c,
                m,
                access_granted(c.policy, m, *listed),
                h,
                1,
            ),
            _ => finish(no_effects()),
        }
    } else {
        run_admitted(c, m, access_granted(c.policy, m, false), h, 0)
    }
}

/// What becomes of an event next, given the answers so far: events that are no messages are passed
/// over.
pub open spec fn event_step(
    c: EventSetup,
    value: JsonView,
    bot: Option<Seq<char>>,
    h: Seq<EventAnswer>,
) -> EventActionView {
    match inbound_in(value, bot) {
        None => finished(Seq::empty()),
        Some(m) => message_step(c, m, h),
    }
}

/// What becomes of an event next, given the answers so far.
pub fn handle_event_value(c: &EventSetup, value: &Json, bot: Option<&str>, h: &Vec<EventAnswer>) -> (r:
    EventAction)
    ensures
        r@ == event_step(*c, value@, json::text_view(bot), h@),
{
    match read_inbound(value, bot) {
        None => finish(no_effects()),
        Some(m) => handle_message(c, &m, h),
    }
}

/// A message that is not let through is only noted: nothing is sent, downloaded, carried out or
/// handed on.
pub proof fn law_refused_message(c: EventSetup, m: Inbound<Seq<char>>, h: Seq<EventAnswer>, listed: bool)
    requires
        !grants(c.policy, m, listed),
        asks_allowlist(c.policy, m) ==> h.len() > 0 && h[0] == EventAnswer::Listed(listed),
    ensures
        message_step(c, m, h) == finished(noted(c, m, false)),
{
    law_access(c.policy, m, listed);
}

/// A message is carried out as a command, or handed on, as one of the channel and the account that
/// it came to, with its chat and its id; and what is handed on has its kind and the model of the
/// account.
pub proof fn law_answered_there(c: EventSetup, value: JsonView, bot: Option<Seq<char>>, h: Seq<EventAnswer>, i: int)
    ensures
        event_step(c, value, bot, h).ask matches EventAsk::Command { command, target } ==> {
            &&& inbound_in(value, bot) matches Some(m)
            &&& target == reply_target_of(c, m)
        },
        0 <= i < event_step(c, value, bot, h).effects.len() ==> (event_step(c, value, bot, h).effects[i]
            matches EventEffect::Chat { target, text, meta, with_attachment } ==> {
            &&& inbound_in(value, bot) matches Some(m)
            &&& target == reply_target_of(c, m)
            &&& meta == meta_of(c, m)
        }),
{
}

// ---- downloads ----

/// Where an attachment of a message is.
pub open spec fn resource_url_of(base: Seq<char>, message_id: Seq<char>, key: Seq<char>) -> Seq<char> {
    text::trim_end_char_of(base, '/') + "/open-apis/im/v1/messages/"@ + message_id + "/resources/"@
        + key
}

/// Where an attachment of a message is.
pub fn resource_url(base: &str, message_id: &str, key: &str) -> (r: String)
    ensures
        r@ == resource_url_of(base@, message_id@, key@),
{
    let mut out = text::trim_end_char(base, '/').to_string();
    out.append("/open-apis/im/v1/messages/");
    out.append(message_id);
    out.append("/resources/");
    out.append(key);
    out
}

/// The types under which an attachment is asked for, in order: a recording may be had only as a
/// file.
pub open spec fn resource_types(kind: Seq<char>) -> Seq<Seq<char>> {
    if kind == "audio"@ {
        seq!["audio"@, "file"@]
    } else {
        seq![kind]
    }
}

/// What came back for one of the types.
#[derive(Debug)]
pub enum DownloadAnswer {
    /// The request failed.
    Failed(String),
    /// A status that is no success, and the body.
    Refused { status: String, body: String },
    /// The file: what the response says of its type and its name. The host keeps the bytes.
    Fetched { content_type: Option<String>, content_disposition: Option<String> },
}

/// How a download goes on.
#[derive(Debug)]
pub enum DownloadStep<S> {
    /// Ask for the attachment under this type.
    Request { resource_type: S },
    /// It is there: its media type and its name.
    Done { media_type: S, original_name: Option<S> },
    Failed(S),
}

impl View for DownloadStep<String> {
    type V = DownloadStep<Seq<char>>;

    open spec fn view(&self) -> DownloadStep<Seq<char>> {
        match *self {
            DownloadStep::Request { resource_type } => DownloadStep::Request {
                resource_type: resource_type@,
            },
            DownloadStep::Done { media_type, original_name } => DownloadStep::Done {
                media_type: media_type@,
                original_name: channel::opt_view(original_name),
            },
            DownloadStep::Failed(e) => DownloadStep::Failed(e@),
        }
    }
}

/// The message of a refusal.
pub open spec fn refusal_text(status: Seq<char>, resource_type: Seq<char>, body: Seq<char>) -> Seq<
    char,
> {
    "download resource HTTP "@ + status + " (type="@ + resource_type + "): "@ + body
}

/// The name of a file that was fetched: the one that the message gave, else that of the response.
pub open spec fn fetched_name(preferred: Option<Seq<char>>, disposition: Option<Seq<char>>) -> Option<
    Seq<char>,
> {
    match nonblank(preferred) {
        Some(n) => Some(n),
        None => match disposition {
            Some(d) => disposition_name(d),
            None => None,
        },
    }
}

/// How a download goes on after the answers from the `i`-th on: the next type is tried after a
/// refusal; the last refusal is the error.
pub open spec fn download_from(
    types: Seq<Seq<char>>,
    preferred: Option<Seq<char>>,
    answers: Seq<DownloadAnswer>,
    i: int,
    last: Option<Seq<char>>,
) -> DownloadStep<Seq<char>>
    decreases types.len() - i,
{
    if i < 0 || i >= types.len() {
        DownloadStep::Failed(or_else(last, "download resource failed"@))
    } else if i >= answers.len() {
        DownloadStep::Request { resource_type: types[i] }
    } else {
        match answers[i] {
            DownloadAnswer::Failed(e) => DownloadStep::Failed(e@),
            DownloadAnswer::Refused { status, body } => download_from(
                types,
                preferred,
                answers,
                i + 1,
                Some(refusal_text(status@, types[i], body@)),
            ),
            DownloadAnswer::Fetched { content_type, content_disposition } => DownloadStep::Done {
                media_type: or_else(channel::opt_view(content_type), "application/octet-stream"@),
                original_name: fetched_name(preferred, channel::opt_view(content_disposition)),
            },
        }
    }
}

/// How the download of an attachment goes on; without a message there is none.
pub open spec fn download_of(
    message_id: Option<Seq<char>>,
    kind: Seq<char>,
    preferred: Option<Seq<char>>,
    answers: Seq<DownloadAnswer>,
) -> DownloadStep<Seq<char>> {
    match message_id {
        None => DownloadStep::Failed("missing message_id"@),
        Some(_) => download_from(resource_types(kind), preferred, answers, 0, None),
    }
}

/// How the download of an attachment goes on, given the answers so far.
pub fn download_message_resource(
    message_id: Option<&str>,
    kind: &str,
    preferred_name: Option<&str>,
    answers: &Vec<DownloadAnswer>,
) -> (r: DownloadStep<String>)
    ensures
        r@ == download_of(
            json::text_view(message_id),
            kind@,
            json::text_view(preferred_name),
            answers@,
        ),
{
    if message_id.is_none() {
        return DownloadStep::Failed("missing message_id".to_string());
    }
    let ghost types = resource_types(kind@);
    let ghost preferred = json::text_view(preferred_name);
    let audio = text::str_eq(kind, "audio");
    let count: usize = if audio {
        2
    } else {
        1
    };
    let mut last: Option<String> = None;
    let mut i: usize = 0;
    while i < count
        invariant
            i <= count,
            types == resource_types(kind@),
            preferred == json::text_view(preferred_name),
            audio == (kind@ == "audio"@),
            count == types.len(),
            download_from(types, preferred, answers@, 0, None) == download_from(
                types,
                preferred,
                answers@,
                i as int,
                channel::opt_view(last),
            ),
            message_id is Some,
        decreases count - i,
    {
        let resource_type = if !audio {
            kind
        } else if i == 0 {
            "audio"
        } else {
            "file"
        };
        assert(resource_type@ == types[i as int]);
        if i >= answers.len() {
            return DownloadStep::Request { resource_type: resource_type.to_string() };
        }
        match &answers[i] {
            DownloadAnswer::Failed(e) => {
                return DownloadStep::Failed(e.clone());
            },
            DownloadAnswer::Refused { status, body } => {
                let mut m = "download resource HTTP ".to_string();
                m.append(status.as_str());
                m.append(" (type=");
                m.append(resource_type);
                m.append("): ");
                m.append(body.as_str());
                last = Some(m);
            },
            DownloadAnswer::Fetched { content_type, content_disposition } => {
                let media_type = owned_or(
                    channel::opt_str(content_type),
                    "application/octet-stream",
                );
                let original_name = match trimmed_name(preferred_name) {
                    Some(n) => Some(n),
                    None => match content_disposition {
                        Some(d) => content_disposition_filename(d.as_str()),
                        None => None,
                    },
                };
                return DownloadStep::Done { media_type, original_name };
            },
        }
        i += 1;
    }
    match last {
        Some(e) => DownloadStep::Failed(e),
        None => DownloadStep::Failed("download resource failed".to_string()),
    }
}

/// A quoted or bare value, without its quotation marks.
pub open spec fn unquoted(s: Seq<char>) -> Seq<char> {
    text::trim_char_of(text::trim_of(s), '"')
}

/// The name that an extended parameter holds: what is percent-encoded after its character set and
/// language, else the value as it stands; nothing where it is empty.
pub open spec fn extended_name(value: Seq<char>) -> Option<Seq<char>> {
    let cleaned = unquoted(value);
    let decoded = match text::find_in(cleaned, "''"@) {
        Some(n) => nonblank(encoding::percent_text(cleaned.skip(n + 2))),
        None => None,
    };
    if decoded is Some {
        decoded
    } else if cleaned.len() == 0 {
        None
    } else {
        Some(cleaned)
    }
}

/// The name that one part of a header gives.
pub open spec fn part_name(part: Seq<char>) -> Option<Seq<char>> {
    let p = text::trim_of(part);
    if text::begins(p, "filename*="@) {
        extended_name(p.skip("filename*="@.len() as int))
    } else if text::begins(p, "filename="@) {
        let cleaned = unquoted(p.skip("filename="@.len() as int));
        if cleaned.len() == 0 {
            None
        } else {
            Some(cleaned)
        }
    } else {
        None
    }
}

/// The first name that the parts from the `i`-th on give.
pub open spec fn name_from(parts: Seq<Seq<char>>, i: int) -> Option<Seq<char>>
    decreases parts.len() - i,
{
    if i < 0 || i >= parts.len() {
        None
    } else if part_name(parts[i]) is Some {
        part_name(parts[i])
    } else {
        name_from(parts, i + 1)
    }
}

/// The file name that a content disposition gives.
pub open spec fn disposition_name(value: Seq<char>) -> Option<Seq<char>> {
    name_from(text::pieces_of(value, ';'), 0)
}

fn read_extended_name(value: &str) -> (r: Option<String>)
    ensures
        channel::opt_view(r) == extended_name(value@),
{
    let cleaned = text::trim_char(text::trim(value), '"');
    proof {
        reveal_strlit("''");
    }
    let total: usize = cleaned.unicode_len();
    if let Some(n) = text::find(cleaned, "''") {
        let encoded = cleaned.substring_char(n + 2, total);
        if let Some(decoded) = encoding::percent_decode_text(encoded) {
            let name = text::trim(decoded.as_str());
            if name.unicode_len() > 0 {
                return Some(name.to_string());
            }
        }
    }
    if cleaned.unicode_len() == 0 {
        None
    } else {
        Some(cleaned.to_string())
    }
}

fn read_part_name(part: &str) -> (r: Option<String>)
    ensures
        channel::opt_view(r) == part_name(part@),
{
    let p = text::trim(part);
    if let Some(raw) = text::strip_prefix(p, "filename*=") {
        return read_extended_name(raw);
    }
    if let Some(raw) = text::strip_prefix(p, "filename=") {
        let cleaned = text::trim_char(text::trim(raw), '"');
        if cleaned.unicode_len() > 0 {
            return Some(cleaned.to_string());
        }
    }
    None
}

/// The file name that a content disposition gives.
pub fn content_disposition_filename(value: &str) -> (r: Option<String>)
    ensures
        channel::opt_view(r) == disposition_name(value@),
{
    let parts = text::split_char(value, ';');
    let ghost all = text::views(parts@);
    let mut i: usize = 0;
    while i < parts.len()
        invariant
            i <= parts@.len(),
            all == text::views(parts@),
            all == text::pieces_of(value@, ';'),
            name_from(all, 0) == name_from(all, i as int),
        decreases parts@.len() - i,
    {
        assert(all[i as int] == parts@[i as int]@);
        let name = read_part_name(parts[i].as_str());
        if name.is_some() {
            return name;
        }
        i += 1;
    }
    None
}

} // verus!
