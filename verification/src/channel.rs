//! What the channels have in common: where a reply goes and how a request fails.

use crate::text;
use vstd::prelude::*;

verus! {

/// The kind of a channel.
#[derive(Debug)]
pub enum ChannelType<S = String> {
    Telegram,
    Feishu,
    /// Any other channel, by its name.
    Other(S),
}

impl View for ChannelType<String> {
    type V = ChannelType<Seq<char>>;

    open spec fn view(&self) -> ChannelType<Seq<char>> {
        match *self {
            ChannelType::Telegram => ChannelType::Telegram,
            ChannelType::Feishu => ChannelType::Feishu,
            ChannelType::Other(name) => ChannelType::Other(name@),
        }
    }
}

impl ChannelType<String> {
    /// The name of the channel kind.
    pub open spec fn name(self) -> Seq<char> {
        match self {
            ChannelType::Telegram => "telegram"@,
            ChannelType::Feishu => "feishu"@,
            ChannelType::Other(name) => name@,
        }
    }

    /// The name of the channel kind.
    pub fn as_str(&self) -> (r: &str)
        ensures
            r@ == self.name(),
    {
        match self {
            ChannelType::Telegram => "telegram",
            ChannelType::Feishu => "feishu",
            ChannelType::Other(name) => name.as_str(),
        }
    }

    /// Another value for the same channel kind.
    pub fn copy(&self) -> (r: ChannelType<String>)
        ensures
            r@ == self@,
    {
        match self {
            ChannelType::Telegram => ChannelType::Telegram,
            ChannelType::Feishu => ChannelType::Feishu,
            ChannelType::Other(name) => ChannelType::Other(name.clone()),
        }
    }
}

/// Where a reply goes.
#[derive(Debug)]
pub struct ChannelReplyTarget<S = String> {
    pub channel_type: ChannelType<S>,
    pub account_id: S,
    pub chat_id: S,
    pub message_id: Option<S>,
}

impl View for ChannelReplyTarget<String> {
    type V = ChannelReplyTarget<Seq<char>>;

    open spec fn view(&self) -> ChannelReplyTarget<Seq<char>> {
        ChannelReplyTarget {
            channel_type: self.channel_type@,
            account_id: self.account_id@,
            chat_id: self.chat_id@,
            message_id: opt_view(self.message_id),
        }
    }
}

impl ChannelReplyTarget<String> {
    /// Another value for the same place.
    pub fn copy(&self) -> (r: ChannelReplyTarget<String>)
        ensures
            r@ == self@,
    {
        ChannelReplyTarget {
            channel_type: self.channel_type.copy(),
            account_id: self.account_id.clone(),
            chat_id: self.chat_id.clone(),
            message_id: opt_copy(&self.message_id),
        }
    }
}

/// What kind of message it is.
#[derive(Debug, Clone, Copy, PartialEq, Eq, Structural)]
pub enum ChannelMessageKind {
    Text,
    Photo,
    Document,
    Audio,
    Video,
    Other,
}

/// What is known of a message besides its text.
#[derive(Debug)]
pub struct ChannelMessageMeta<S = String> {
    pub channel_type: ChannelType<S>,
    pub sender_name: Option<S>,
    pub username: Option<S>,
    pub message_kind: Option<ChannelMessageKind>,
    /// The model that the channel is configured for.
    pub model: Option<S>,
    /// The recording that the message was transcribed from.
    pub audio_filename: Option<S>,
}

impl View for ChannelMessageMeta<String> {
    type V = ChannelMessageMeta<Seq<char>>;

    open spec fn view(&self) -> ChannelMessageMeta<Seq<char>> {
        ChannelMessageMeta {
            channel_type: self.channel_type@,
            sender_name: opt_view(self.sender_name),
            username: opt_view(self.username),
            message_kind: self.message_kind,
            model: opt_view(self.model),
            audio_filename: opt_view(self.audio_filename),
        }
    }
}

impl ChannelMessageMeta<String> {
    /// Another value that says the same of a message.
    pub fn copy(&self) -> (r: ChannelMessageMeta<String>)
        ensures
            r@ == self@,
    {
        ChannelMessageMeta {
            channel_type: self.channel_type.copy(),
            sender_name: opt_copy(&self.sender_name),
            username: opt_copy(&self.username),
            message_kind: self.message_kind,
            model: opt_copy(&self.model),
            audio_filename: opt_copy(&self.audio_filename),
        }
    }
}

/// Why a request of a channel failed.
#[derive(Debug, PartialEq, Eq)]
pub enum ChannelError<S> {
    /// The user asked for something that cannot be done.
    InvalidInput(S),
    /// A service is missing or failed.
    Unavailable(S),
    /// There is no account of that name.
    UnknownAccount(S),
    /// An operation on stored or remote data failed: what was tried, and what came back.
    External { context: S, message: S },
}

impl View for ChannelError<String> {
    type V = ChannelError<Seq<char>>;

    open spec fn view(&self) -> ChannelError<Seq<char>> {
        match *self {
            ChannelError::InvalidInput(m) => ChannelError::InvalidInput(m@),
            ChannelError::Unavailable(m) => ChannelError::Unavailable(m@),
            ChannelError::UnknownAccount(m) => ChannelError::UnknownAccount(m@),
            ChannelError::External { context, message } => ChannelError::External {
                context: context@,
                message: message@,
            },
        }
    }
}

/// The error that tells the user what was wrong.
pub fn invalid_input(message: &str) -> (r: ChannelError<String>)
    ensures
        r@ == ChannelError::InvalidInput(message@),
{
    ChannelError::InvalidInput(message.to_string())
}

/// The error that names a service that is missing or failed.
pub fn unavailable(message: &str) -> (r: ChannelError<String>)
    ensures
        r@ == ChannelError::Unavailable(message@),
{
    ChannelError::Unavailable(message.to_string())
}

/// The error that says what was tried and what came back.
pub fn external(context: &str, message: &str) -> (r: ChannelError<String>)
    ensures
        r@ == (ChannelError::External { context: context@, message: message@ }),
{
    ChannelError::External { context: context.to_string(), message: message.to_string() }
}

/// What an answer holds.
pub open spec fn reply_view(r: Result<String, ChannelError<String>>) -> Result<
    Seq<char>,
    ChannelError<Seq<char>>,
> {
    match r {
        Ok(t) => Ok(t@),
        Err(e) => Err(e@),
    }
}

/// What an optional string holds.
pub open spec fn opt_view(s: Option<String>) -> Option<Seq<char>> {
    match s {
        Some(t) => Some(t@),
        None => None,
    }
}

/// Another optional string with the same text.
pub fn opt_copy(s: &Option<String>) -> (r: Option<String>)
    ensures
        opt_view(r) == opt_view(*s),
{
    match s {
        Some(t) => Some(t.clone()),
        None => None,
    }
}

/// The text of an optional string.
pub fn opt_str(s: &Option<String>) -> (r: Option<&str>)
    ensures
        crate::json::text_view(r) == opt_view(*s),
{
    match s {
        Some(t) => Some(t.as_str()),
        None => None,
    }
}

/// Whether two optional texts are the same.
pub fn opt_eq(a: Option<&str>, b: Option<&str>) -> (r: bool)
    ensures
        r == (crate::json::text_view(a) == crate::json::text_view(b)),
{
    match (a, b) {
        (Some(x), Some(y)) => text::str_eq(x, y),
        (None, None) => true,
        _ => false,
    }
}

} // verus!
