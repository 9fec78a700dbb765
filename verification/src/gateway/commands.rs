//! The commands that a user can type in a channel, and how they are read.

use crate::channel;
use crate::channel::{ChannelError, ChannelReplyTarget};
use crate::text;
use vstd::prelude::*;

verus! {

/// The session key that a chat has of itself: channel kind, account and chat.
pub open spec fn session_key_of(target: ChannelReplyTarget) -> Seq<char> {
    target.channel_type.name() + ":"@ + target.account_id@ + ":"@ + target.chat_id@
}

/// The session key that a chat has of itself.
pub fn default_channel_session_key(target: &ChannelReplyTarget) -> (r: String)
    ensures
        r@ == session_key_of(*target),
{
    let mut out = target.channel_type.as_str().to_string();
    out.append(":");
    out.append(target.account_id.as_str());
    out.append(":");
    out.append(target.chat_id.as_str());
    out
}

/// The name of the command that a message asks for, if it starts with a slash.
pub open spec fn command_name_of(s: Seq<char>) -> Option<Seq<char>> {
    let t = text::trim_start_of(s);
    if t.len() > 0 && t[0] == '/' && text::words_of(t.skip(1)).len() > 0 {
        Some(text::words_of(t.skip(1))[0])
    } else {
        None
    }
}

/// The name of the command that a message asks for, if it starts with a slash.
pub fn slash_command_name(message: &str) -> (r: Option<&str>)
    ensures
        crate::json::text_view(r) == command_name_of(message@),
{
    let t = text::trim_start(message);
    proof {
        reveal_strlit("/");
        assert(t@.len() > 0 && t@[0] == '/' ==> t@.subrange(0, 1) =~= "/"@);
        assert(t@.len() > 0 && t@.subrange(0, 1) == "/"@ ==> t@.subrange(0, 1)[0] == '/');
        text::lemma_first_word(t@.skip(1));
    }
    match text::strip_prefix(t, "/") {
        None => None,
        Some(rest) => {
            let name = text::first_word(rest);
            if name.unicode_len() == 0 {
                None
            } else {
                Some(name)
            }
        },
    }
}

/// The commands that steer the channel itself.
pub open spec fn is_control(cmd: Seq<char>) -> bool {
    ||| cmd == "new"@
    ||| cmd == "clear"@
    ||| cmd == "compact"@
    ||| cmd == "context"@
    ||| cmd == "model"@
    ||| cmd == "sandbox"@
    ||| cmd == "sessions"@
    ||| cmd == "agent"@
    ||| cmd == "handoff"@
    ||| cmd == "help"@
    ||| cmd == "sh"@
}

/// Whether a command steers the channel itself.
pub fn is_channel_control_command_name(cmd: &str) -> (r: bool)
    ensures
        r == is_control(cmd@),
{
    text::str_eq(cmd, "new") || text::str_eq(cmd, "clear") || text::str_eq(cmd, "compact")
        || text::str_eq(cmd, "context") || text::str_eq(cmd, "model") || text::str_eq(
        cmd,
        "sandbox",
    ) || text::str_eq(cmd, "sessions") || text::str_eq(cmd, "agent") || text::str_eq(cmd, "handoff")
        || text::str_eq(cmd, "help") || text::str_eq(cmd, "sh")
}

/// What a message becomes in command mode: a shell command, unless it is blank or steers the
/// channel.
pub open spec fn shell_rewrite(s: Seq<char>) -> Option<Seq<char>> {
    let t = text::trim_of(s);
    if t.len() == 0 {
        None
    } else if command_name_of(t) matches Some(cmd) && is_control(cmd) {
        None
    } else {
        Some("/sh "@ + t)
    }
}

/// What a message becomes in command mode: a shell command, unless it is blank or steers the
/// channel.
pub fn rewrite_for_shell_mode(message: &str) -> (r: Option<String>)
    ensures
        channel::opt_view(r) == shell_rewrite(message@),
{
    let trimmed = text::trim(message);
    if trimmed.unicode_len() == 0 {
        return None;
    }
    if let Some(cmd) = slash_command_name(trimmed) {
        if is_channel_control_command_name(cmd) {
            return None;
        }
    }
    let mut out = "/sh ".to_string();
    out.append(trimmed);
    Some(out)
}

/// Whether a media type names an image.
pub open spec fn is_image(media_type: Seq<char>) -> bool {
    text::begins(text::lower_of(text::trim_of(media_type)), "image/"@)
}

/// Whether a media type names an image; letter case and surrounding white space do not matter.
pub fn is_image_media_type(media_type: &str) -> (r: bool)
    ensures
        r == is_image(media_type@),
{
    let lower = text::to_ascii_lowercase(text::trim(media_type));
    text::starts_with(lower.as_str(), "image/")
}

/// What stands in place of the text of a message that has none.
pub open spec fn placeholder_of(has_images: bool, has_non_images: bool) -> Seq<char> {
    if has_images && has_non_images {
        "[Image + Attachment]"@
    } else if has_images {
        "[Image]"@
    } else if has_non_images {
        "[Attachment]"@
    } else {
        ""@
    }
}

/// What stands in place of the text of a message that has none.
pub fn attachment_placeholder_text(has_images: bool, has_non_images: bool) -> (r: &'static str)
    ensures
        r@ == placeholder_of(has_images, has_non_images),
{
    match (has_images, has_non_images) {
        (true, true) => "[Image + Attachment]",
        (true, false) => "[Image]",
        (false, true) => "[Attachment]",
        (false, false) => "",
    }
}

// ---- taking a command apart ----

/// The name of a command, which is its first word, and its arguments, which are the rest, trimmed.
pub open spec fn command_parts(s: Seq<char>) -> (Seq<char>, Seq<char>) {
    let name = text::first_word_of(s);
    (name, text::trim_of(text::trim_start_of(s).skip(name.len() as int)))
}

/// White space before the name and around the arguments changes nothing: a name that holds none is
/// the name, and what follows it makes the arguments.
pub proof fn law_command_parts(pad: Seq<char>, name: Seq<char>, gap: char, args: Seq<char>)
    requires
        forall|i: int| 0 <= i < pad.len() ==> text::is_white(#[trigger] pad[i]),
        name.len() > 0,
        forall|i: int| 0 <= i < name.len() ==> !text::is_white(#[trigger] name[i]),
        text::is_white(gap),
    ensures
        command_parts(pad + name + seq![gap] + args) == (name, text::trim_of(args)),
        command_parts(pad + name) == (name, Seq::<char>::empty()),
{
    let tail = seq![gap] + args;
    let s = pad + name + seq![gap] + args;
    let w = text::lead(args, text::white()) as int;
    assert(s[pad.len() as int] == name[0]);
    text::lemma_lead(s, text::white(), pad.len() as int);
    assert(text::trim_start_of(s) =~= name + tail);
    assert((name + tail)[name.len() as int] == gap);
    text::lemma_lead(name + tail, text::not_white(), name.len() as int);
    assert(text::first_word_of(s) =~= name);
    assert((name + tail).skip(name.len() as int) =~= tail);
    text::lemma_lead_bounds(args, text::white());
    assert forall|i: int| 0 <= i < w + 1 implies text::white()(#[trigger] tail[i]) by {
        if i > 0 {
            assert(tail[i] == args[i - 1]);
        }
    }
    if w < args.len() {
        assert(tail[w + 1] == args[w]);
    }
    text::lemma_lead(tail, text::white(), w + 1);
    assert(text::trim_start_of(tail) =~= text::trim_start_of(args));
    let bare = pad + name;
    assert(bare[pad.len() as int] == name[0]);
    text::lemma_lead(bare, text::white(), pad.len() as int);
    assert(text::trim_start_of(bare) =~= name);
    text::lemma_lead(name, text::not_white(), name.len() as int);
    assert(text::first_word_of(bare) =~= name);
    let nothing = name.skip(name.len() as int);
    text::lemma_lead_bounds(nothing, text::white());
    assert(text::trim_of(nothing) =~= Seq::<char>::empty());
}

/// Takes a command apart into its name and its arguments.
pub fn split_command(command: &str) -> (r: (String, String))
    ensures
        (r.0@, r.1@) == command_parts(command@),
{
    let name = text::first_word(command);
    let rest = text::trim_start(command);
    let size: usize = text::chars_of(name).len();
    let whole: usize = text::chars_of(rest).len();
    proof {
        text::lemma_lead_bounds(rest@, text::not_white());
    }
    let tail = rest.substring_char(size, whole);
    assert(tail@ =~= rest@.skip(size as int));
    (name.to_string(), text::trim(tail).to_string())
}

// ---- agents ----

/// An agent that a session can be given to.
#[derive(Debug)]
pub struct AgentPersona {
    pub id: String,
    pub name: String,
    pub is_default: bool,
    pub aliases: Vec<String>,
    pub emoji: Option<String>,
    pub theme: Option<String>,
    pub description: Option<String>,
    pub created_at: i64,
    pub updated_at: i64,
}

/// A selector as it is compared: trimmed, in lower case.
pub open spec fn selector_of(s: Seq<char>) -> Seq<char> {
    text::lower_of(text::trim_of(s))
}

/// A selector as it is compared: trimmed, in lower case.
pub fn normalize_selector(input: &str) -> (r: String)
    ensures
        r@ == selector_of(input@),
{
    text::to_ascii_lowercase(text::trim(input))
}

/// The position of the first agent with that id, at or after `i`.
pub open spec fn agent_from(agents: Seq<AgentPersona>, id: Seq<char>, i: int) -> Option<int>
    decreases agents.len() - i,
{
    if i < 0 || i >= agents.len() {
        None
    } else if agents[i].id@ == id {
        Some(i)
    } else {
        agent_from(agents, id, i + 1)
    }
}

/// The position of the agent that a selector chooses, by id alone.
pub open spec fn agent_choice(agents: Seq<AgentPersona>, selector: Seq<char>) -> Result<
    int,
    ChannelError<Seq<char>>,
> {
    let t = text::trim_of(selector);
    if t.len() == 0 {
        Err(ChannelError::InvalidInput("missing agent id"@))
    } else {
        match agent_from(agents, selector_of(t), 0) {
            Some(i) => Ok(i),
            None => Err(ChannelError::InvalidInput("unknown agent id: '"@ + t + "'"@)),
        }
    }
}

/// The position of the agent that a selector chooses, by id alone.
pub fn choose_agent(agents: &[AgentPersona], selector: &str) -> (r: Result<
    usize,
    ChannelError<String>,
>)
    ensures
        r matches Ok(i) ==> agent_choice(agents@, selector@) == Ok::<
            int,
            ChannelError<Seq<char>>,
        >(i as int) && i < agents@.len(),
        r matches Err(e) ==> agent_choice(agents@, selector@) == Err::<
            int,
            ChannelError<Seq<char>>,
        >(e@),
{
    let trimmed = text::trim(selector);
    if trimmed.unicode_len() == 0 {
        return Err(channel::invalid_input("missing agent id"));
    }
    let id = normalize_selector(trimmed);
    let mut i: usize = 0;
    while i < agents.len()
        invariant
            i <= agents@.len(),
            trimmed@ == text::trim_of(selector@),
            trimmed@.len() > 0,
            id@ == selector_of(trimmed@),
            agent_from(agents@, id@, 0) == agent_from(agents@, id@, i as int),
        decreases agents@.len() - i,
    {
        if text::str_eq(agents[i].id.as_str(), id.as_str()) {
            return Ok(i);
        }
        i += 1;
    }
    let mut message = "unknown agent id: '".to_string();
    message.append(trimmed);
    message.append("'");
    Err(channel::invalid_input(message.as_str()))
}

/// The agent that a selector chooses, by id alone.
pub fn resolve_agent_selector<'a>(agents: &'a [AgentPersona], selector: &str) -> (r: Result<
    &'a AgentPersona,
    ChannelError<String>,
>)
    ensures
        r matches Ok(a) ==> (agent_choice(agents@, selector@) matches Ok(i) && 0 <= i
            < agents@.len() && *a == agents@[i]),
        r matches Err(e) ==> agent_choice(agents@, selector@) == Err::<
            int,
            ChannelError<Seq<char>>,
        >(e@),
{
    match choose_agent(agents, selector) {
        Ok(i) => Ok(&agents[i]),
        Err(e) => Err(e),
    }
}

// ---- hand-off arguments ----

/// How a session is handed to another agent.
#[derive(Debug, Clone, Copy, PartialEq, Eq, Structural)]
pub enum HandoffMode {
    SameSession,
    NewSession,
    ForkSession,
}

impl HandoffMode {
    /// The name of the mode.
    pub open spec fn name(self) -> Seq<char> {
        match self {
            HandoffMode::SameSession => "same_session"@,
            HandoffMode::NewSession => "new_session"@,
            HandoffMode::ForkSession => "fork_session"@,
        }
    }

    /// The name of the mode.
    pub fn as_str(self) -> (r: &'static str)
        ensures
            r@ == self.name(),
    {
        match self {
            HandoffMode::SameSession => "same_session",
            HandoffMode::NewSession => "new_session",
            HandoffMode::ForkSession => "fork_session",
        }
    }
}

/// The mode that a word names, in full or in short.
pub open spec fn mode_of(s: Seq<char>) -> Option<HandoffMode> {
    let t = text::lower_of(text::trim_of(s));
    if t == "same_session"@ || t == "same"@ {
        Some(HandoffMode::SameSession)
    } else if t == "new_session"@ || t == "new"@ {
        Some(HandoffMode::NewSession)
    } else if t == "fork_session"@ || t == "fork"@ {
        Some(HandoffMode::ForkSession)
    } else {
        None
    }
}

/// The mode that a word names, in full or in short.
pub fn parse_handoff_mode(value: &str) -> (r: Option<HandoffMode>)
    ensures
        r == mode_of(value@),
{
    let lower = text::to_ascii_lowercase(text::trim(value));
    let t = lower.as_str();
    if text::str_eq(t, "same_session") || text::str_eq(t, "same") {
        Some(HandoffMode::SameSession)
    } else if text::str_eq(t, "new_session") || text::str_eq(t, "new") {
        Some(HandoffMode::NewSession)
    } else if text::str_eq(t, "fork_session") || text::str_eq(t, "fork") {
        Some(HandoffMode::ForkSession)
    } else {
        None
    }
}

/// What the words after the agent id say: a mode, if one is named, and the words of the note.
pub open spec fn handoff_words(
    words: Seq<Seq<char>>,
    i: int,
    mode: Option<HandoffMode>,
    note: Seq<Seq<char>>,
) -> Result<(Option<HandoffMode>, Seq<Seq<char>>), ChannelError<Seq<char>>>
    decreases words.len() - i,
{
    if i < 0 || i >= words.len() {
        Ok((mode, note))
    } else if text::begins(words[i], "--mode="@) {
        match mode_of(words[i].skip(7)) {
            Some(m) => handoff_words(words, i + 1, Some(m), note),
            None => Err(
                ChannelError::InvalidInput(
                    "invalid mode; use same_session|new_session|fork_session"@,
                ),
            ),
        }
    } else if words[i] == "--mode"@ {
        if i + 1 >= words.len() {
            Err(ChannelError::InvalidInput("missing mode value after --mode"@))
        } else {
            match mode_of(words[i + 1]) {
                Some(m) => handoff_words(words, i + 2, Some(m), note),
                None => Err(
                    ChannelError::InvalidInput(
                        "invalid mode; use same_session|new_session|fork_session"@,
                    ),
                ),
            }
        }
    } else if text::begins(words[i], "--"@) {
        Err(ChannelError::InvalidInput("unknown flag: "@ + words[i]))
    } else if mode is None && mode_of(words[i]) is Some {
        handoff_words(words, i + 1, mode_of(words[i]), note)
    } else {
        handoff_words(words, i + 1, mode, note.push(words[i]))
    }
}

/// What the arguments of a hand-off say: the agent, the mode and the note. With no mode named, the
/// hand-off goes to a new session.
pub open spec fn handoff_args_of(args: Seq<char>) -> Result<
    (Seq<char>, HandoffMode, Seq<char>),
    ChannelError<Seq<char>>,
> {
    let words = text::words_of(args);
    if words.len() == 0 {
        Err(ChannelError::InvalidInput("usage: /handoff <agent_id> [note]"@))
    } else {
        match handoff_words(words, 1, None, Seq::empty()) {
            Ok((mode, note)) => Ok(
                (
                    words[0],
                    match mode {
                        Some(m) => m,
                        None => HandoffMode::NewSession,
                    },
                    text::trim_of(text::join_of(note, " "@)),
                ),
            ),
            Err(e) => Err(e),
        }
    }
}

/// What reading the arguments of a hand-off gave.
pub open spec fn handoff_args_view(
    r: Result<(String, HandoffMode, String), ChannelError<String>>,
) -> Result<(Seq<char>, HandoffMode, Seq<char>), ChannelError<Seq<char>>> {
    match r {
        Ok((selector, mode, note)) => Ok((selector@, mode, note@)),
        Err(e) => Err(e@),
    }
}

/// Reads the arguments of a hand-off: the agent, the mode and the note.
pub fn parse_handoff_args(args: &str) -> (r: Result<
    (String, HandoffMode, String),
    ChannelError<String>,
>)
    ensures
        handoff_args_view(r) == handoff_args_of(args@),
{
    let words = text::split_words(args);
    let ghost all = text::views(words@);
    if words.len() == 0 {
        return Err(channel::invalid_input("usage: /handoff <agent_id> [note]"));
    }
    let mut mode: Option<HandoffMode> = None;
    let mut note: Vec<String> = Vec::new();
    let mut i: usize = 1;
    assert(text::views(note@) =~= Seq::<Seq<char>>::empty());
    proof {
        reveal_strlit("--mode=");
    }
    while i < words.len()
        invariant
            1 <= i <= words@.len(),
            all == text::views(words@),
            all == text::words_of(args@),
            "--mode="@.len() == 7,
            handoff_words(all, 1, None, Seq::empty()) == handoff_words(
                all,
                i as int,
                mode,
                text::views(note@),
            ),
        decreases words@.len() - i,
    {
        let word = words[i].as_str();
        assert(word@ == all[i as int]);
        if let Some(value) = text::strip_prefix(word, "--mode=") {
            match parse_handoff_mode(value) {
                Some(m) => {
                    mode = Some(m);
                    i += 1;
                },
                None => {
                    return Err(
                        channel::invalid_input(
                            "invalid mode; use same_session|new_session|fork_session",
                        ),
                    );
                },
            }
        } else if text::str_eq(word, "--mode") {
            if i + 1 >= words.len() {
                return Err(channel::invalid_input("missing mode value after --mode"));
            }
            assert(words@[i + 1]@ == all[i + 1]);
            match parse_handoff_mode(words[i + 1].as_str()) {
                Some(m) => {
                    mode = Some(m);
                    i += 2;
                },
                None => {
                    return Err(
                        channel::invalid_input(
                            "invalid mode; use same_session|new_session|fork_session",
                        ),
                    );
                },
            }
        } else if text::starts_with(word, "--") {
            let mut message = "unknown flag: ".to_string();
            message.append(word);
            return Err(channel::invalid_input(message.as_str()));
        } else {
            let named = parse_handoff_mode(word);
            if mode.is_none() && named.is_some() {
                mode = named;
            } else {
                let ghost before = text::views(note@);
                note.push(words[i].clone());
                assert(text::views(note@) =~= before.push(word@));
            }
            i += 1;
        }
    }
    let joined = text::join(&note, " ");
    let note_text = text::trim(joined.as_str()).to_string();
    let mode = match mode {
        Some(m) => m,
        None => HandoffMode::NewSession,
    };
    assert(words@[0]@ == all[0]);
    Ok((words[0].clone(), mode, note_text))
}

// ---- session arguments ----

/// What a user asks of the sessions of a chat.
#[derive(Debug, Clone, Copy, PartialEq, Eq, Structural)]
pub enum SessionsCommand {
    List,
    Switch(usize),
    Archive(usize),
    Unarchive(usize),
}

/// The number of a session: at least one.
pub open spec fn session_number_of(s: Seq<char>, usage: Seq<char>) -> Result<
    usize,
    ChannelError<Seq<char>>,
> {
    match text::number_up_to(s, usize::MAX as nat) {
        None => Err(ChannelError::InvalidInput(usage)),
        Some(n) => if n == 0 {
            Err(ChannelError::InvalidInput("session number must be >= 1"@))
        } else {
            Ok(n as usize)
        },
    }
}

/// What the arguments of the sessions command ask for.
pub open spec fn sessions_args_of(args: Seq<char>) -> Result<
    SessionsCommand,
    ChannelError<Seq<char>>,
> {
    let words = text::words_of(text::trim_of(args));
    if text::trim_of(args).len() == 0 {
        Ok(SessionsCommand::List)
    } else if words[0] == "archive"@ || words[0] == "unarchive"@ {
        let usage = "usage: /sessions "@ + words[0] + " <number>"@;
        if words.len() != 2 {
            Err(ChannelError::InvalidInput(usage))
        } else {
            match session_number_of(words[1], usage) {
                Err(e) => Err(e),
                Ok(n) => if words[0] == "archive"@ {
                    Ok(SessionsCommand::Archive(n))
                } else {
                    Ok(SessionsCommand::Unarchive(n))
                },
            }
        }
    } else if words.len() != 1 {
        Err(
            ChannelError::InvalidInput(
                "usage: /sessions [number]|archive <number>|unarchive <number>"@,
            ),
        )
    } else {
        match session_number_of(words[0], "usage: /sessions <number>"@) {
            Err(e) => Err(e),
            Ok(n) => Ok(SessionsCommand::Switch(n)),
        }
    }
}

/// What reading the arguments of the sessions command gave.
pub open spec fn sessions_args_view(r: Result<SessionsCommand, ChannelError<String>>) -> Result<
    SessionsCommand,
    ChannelError<Seq<char>>,
> {
    match r {
        Ok(c) => Ok(c),
        Err(e) => Err(e@),
    }
}

fn parse_session_number(s: &str, usage: &str) -> (r: Result<usize, ChannelError<String>>)
    ensures
        r matches Ok(n) ==> session_number_of(s@, usage@) == Ok::<
            usize,
            ChannelError<Seq<char>>,
        >(n),
        r matches Err(e) ==> session_number_of(s@, usage@) == Err::<
            usize,
            ChannelError<Seq<char>>,
        >(e@),
{
    match text::parse_usize(s) {
        None => Err(channel::invalid_input(usage)),
        Some(n) => {
            if n == 0 {
                Err(channel::invalid_input("session number must be >= 1"))
            } else {
                Ok(n)
            }
        },
    }
}

/// Reads the arguments of the sessions command.
pub fn parse_sessions_command_args(args: &str) -> (r: Result<
    SessionsCommand,
    ChannelError<String>,
>)
    ensures
        sessions_args_view(r) == sessions_args_of(args@),
{
    let trimmed = text::trim(args);
    if trimmed.unicode_len() == 0 {
        return Ok(SessionsCommand::List);
    }
    let words = text::split_words(trimmed);
    let ghost all = text::views(words@);
    proof {
        text::lemma_trimmed_has_word(args@);
    }
    let head = words[0].as_str();
    assert(head@ == all[0]);
    let archive = text::str_eq(head, "archive");
    if archive || text::str_eq(head, "unarchive") {
        let mut usage = "usage: /sessions ".to_string();
        usage.append(head);
        usage.append(" <number>");
        if words.len() != 2 {
            return Err(channel::invalid_input(usage.as_str()));
        }
        assert(words@[1]@ == all[1]);
        match parse_session_number(words[1].as_str(), usage.as_str()) {
            Err(e) => Err(e),
            Ok(n) => {
                if archive {
                    Ok(SessionsCommand::Archive(n))
                } else {
                    Ok(SessionsCommand::Unarchive(n))
                }
            },
        }
    } else if words.len() != 1 {
        Err(
            channel::invalid_input(
                "usage: /sessions [number]|archive <number>|unarchive <number>",
            ),
        )
    } else {
        match parse_session_number(head, "usage: /sessions <number>") {
            Err(e) => Err(e),
            Ok(n) => Ok(SessionsCommand::Switch(n)),
        }
    }
}

} // verus!
