//! Recordings, their transcription, and places that a chat shares.

use crate::channel;
use crate::channel::{ChannelError, ChannelReplyTarget};
use crate::gateway::chat;
use crate::gateway::host;
use crate::gateway::host::{Action, ActionView, Answer, Progress};
use crate::json::Json;
use vstd::prelude::*;

verus! {

/// The text of a recording: the member `text` of what the transcription gave.
pub open spec fn transcript(ready: bool, reply: Option<Result<Json, String>>) -> Option<
    Result<Seq<char>, ChannelError<Seq<char>>>,
> {
    if !ready {
        Some(Err(ChannelError::Unavailable("gateway not ready"@)))
    } else {
        match reply {
            None => None,
            Some(Err(e)) => Some(
                Err(ChannelError::Unavailable("transcription failed: "@ + e@)),
            ),
            Some(Ok(j)) => match j@.text_at("text"@) {
                Some(t) => Some(Ok(t)),
                None => Some(
                    Err(ChannelError::InvalidInput("transcription result missing text"@)),
                ),
            },
        }
    }
}

/// The answer in an option.
pub open spec fn transcript_view(r: Option<Result<String, ChannelError<String>>>) -> Option<
    Result<Seq<char>, ChannelError<Seq<char>>>,
> {
    match r {
        Some(x) => Some(channel::reply_view(x)),
        None => None,
    }
}

/// The text of a recording; nothing as long as the recording has yet to be transcribed.
pub fn transcribe_voice(ready: bool, reply: &Option<Result<Json, String>>) -> (r: Option<
    Result<String, ChannelError<String>>,
>)
    ensures
        transcript_view(r) == transcript(ready, *reply),
{
    if !ready {
        return Some(Err(channel::unavailable("gateway not ready")));
    }
    match reply {
        None => None,
        Some(Err(e)) => {
            let mut out = "transcription failed: ".to_string();
            out.append(e.as_str());
            Some(Err(channel::unavailable(out.as_str())))
        },
        Some(Ok(j)) => match j.text_at("text") {
            Some(t) => Some(Ok(t.to_string())),
            None => Some(Err(channel::invalid_input("transcription result missing text"))),
        },
    }
}

/// Whether recordings can be transcribed, as the status of the service says. There is none where
/// the gateway is not up.
pub open spec fn stt_enabled(status: Option<Result<Json, String>>) -> bool {
    match status {
        Some(Ok(j)) => j@.truth_at("enabled"@) == Some(true),
        _ => false,
    }
}

/// Whether recordings can be transcribed.
pub fn voice_stt_available(status: &Option<Result<Json, String>>) -> (r: bool)
    ensures
        r == stt_enabled(*status),
{
    match status {
        Some(Ok(j)) => match j.truth_at("enabled") {
            Some(b) => b,
            None => false,
        },
        _ => false,
    }
}

/// What a recording or a place asks of the host: an action of a conversation, work in a session,
/// or nothing more.
pub enum SessionStep<A, S, T> {
    Ask(A),
    /// Keep the recording with the session; or look for who waits for the place under this name.
    Work(S),
    Done(T),
}

/// What a step about a recording holds.
pub open spec fn voice_view(s: SessionStep<Action, String, Option<String>>) -> SessionStep<
    ActionView,
    Seq<char>,
    Option<Seq<char>>,
> {
    match s {
        SessionStep::Ask(a) => SessionStep::Ask(a@),
        SessionStep::Work(key) => SessionStep::Work(key@),
        SessionStep::Done(f) => SessionStep::Done(channel::opt_view(f)),
    }
}

/// A recording is kept with the session that its message goes to. It ends with the file name
/// where that worked.
pub open spec fn voice_step(
    ready: bool,
    has_metadata: bool,
    has_session_store: bool,
    target: ChannelReplyTarget,
    filename: Seq<char>,
    h: Seq<Answer>,
) -> SessionStep<ActionView, Seq<char>, Option<Seq<char>>> {
    if !ready {
        SessionStep::Done(None)
    } else {
        match chat::inbound_session(has_metadata, target, h, 0) {
            Progress::Wait(a) => SessionStep::Ask(a),
            Progress::Ready(key, k) => if !has_session_store {
                SessionStep::Done(None)
            } else if k >= h.len() {
                SessionStep::Work(key)
            } else {
                match h[k] {
                    Answer::Outcome(Ok(_)) => SessionStep::Done(Some(filename)),
                    Answer::Outcome(Err(_)) => SessionStep::Done(None),
                    _ => SessionStep::Ask(host::off_script()),
                }
            },
        }
    }
}

/// A recording is kept with the session that its message goes to.
pub fn save_channel_voice(
    ready: bool,
    has_metadata: bool,
    has_session_store: bool,
    target: &ChannelReplyTarget,
    filename: &str,
    h: &Vec<Answer>,
) -> (r: SessionStep<Action, String, Option<String>>)
    ensures
        voice_view(r) == voice_step(
            ready,
            has_metadata,
            has_session_store,
            *target,
            filename@,
            h@,
        ),
{
    if !ready {
        return SessionStep::Done(None);
    }
    match chat::resolve_inbound_channel_session(has_metadata, target, h, 0) {
        Progress::Wait(a) => SessionStep::Ask(a),
        Progress::Ready(key, k) => {
            if !has_session_store {
                return SessionStep::Done(None);
            }
            if k >= h.len() {
                return SessionStep::Work(key);
            }
            match &h[k] {
                Answer::Outcome(Ok(_)) => SessionStep::Done(Some(filename.to_string())),
                Answer::Outcome(Err(_)) => SessionStep::Done(None),
                _ => SessionStep::Ask(host::strayed()),
            }
        },
    }
}

/// What a step about a place holds.
pub open spec fn place_view(s: SessionStep<Action, String, bool>) -> SessionStep<
    ActionView,
    Seq<char>,
    bool,
> {
    match s {
        SessionStep::Ask(a) => SessionStep::Ask(a@),
        SessionStep::Work(key) => SessionStep::Work(key@),
        SessionStep::Done(b) => SessionStep::Done(b),
    }
}

/// Under which name someone waits for the place of a session.
pub open spec fn waiting_name(key: Seq<char>) -> Seq<char> {
    "channel_location:"@ + key
}

/// A place that a chat shares goes to whoever waits for it in the session. It ends with whether
/// someone did.
pub open spec fn place_step(
    ready: bool,
    has_metadata: bool,
    target: ChannelReplyTarget,
    h: Seq<Answer>,
) -> SessionStep<ActionView, Seq<char>, bool> {
    if !ready {
        SessionStep::Done(false)
    } else {
        match chat::inbound_session(has_metadata, target, h, 0) {
            Progress::Wait(a) => SessionStep::Ask(a),
            Progress::Ready(key, k) => if k >= h.len() {
                SessionStep::Work(waiting_name(key))
            } else {
                match h[k] {
                    Answer::Flag(waited) => SessionStep::Done(waited),
                    _ => SessionStep::Ask(host::off_script()),
                }
            },
        }
    }
}

/// A place that a chat shares goes to whoever waits for it in the session.
pub fn update_location(
    ready: bool,
    has_metadata: bool,
    target: &ChannelReplyTarget,
    h: &Vec<Answer>,
) -> (r: SessionStep<Action, String, bool>)
    ensures
        place_view(r) == place_step(ready, has_metadata, *target, h@),
{
    if !ready {
        return SessionStep::Done(false);
    }
    match chat::resolve_inbound_channel_session(has_metadata, target, h, 0) {
        Progress::Wait(a) => SessionStep::Ask(a),
        Progress::Ready(key, k) => {
            if k >= h.len() {
                let mut name = "channel_location:".to_string();
                name.append(key.as_str());
                return SessionStep::Work(name);
            }
            match &h[k] {
                Answer::Flag(waited) => SessionStep::Done(*waited),
                _ => SessionStep::Ask(host::strayed()),
            }
        },
    }
}

} // verus!
