//! What is sent to a chat: texts, media and streamed replies.

use crate::channel;
use crate::encoding;
use crate::text;
use crate::web_url;
use vstd::prelude::*;

verus! {

/// A medium of a reply: where it is and what type it is said to have.
#[derive(Debug)]
pub struct MediaAttachment {
    pub url: String,
    pub mime_type: String,
}

/// The last of the path segments, if it is not empty.
pub open spec fn last_name(segments: Option<Seq<Seq<char>>>) -> Option<Seq<char>> {
    match segments {
        None => None,
        Some(s) => if s.len() == 0 || s.last().len() == 0 {
            None
        } else {
            Some(s.last())
        },
    }
}

/// The last path segment of a URL, if it is not empty.
pub open spec fn url_name(url: Seq<char>) -> Option<Seq<char>> {
    last_name(web_url::url_segments(url))
}

/// The last of the path segments, if it is not empty.
pub fn last_segment(segments: &Option<Vec<String>>) -> (r: Option<String>)
    ensures
        channel::opt_view(r) == last_name(web_url::list_view(*segments)),
{
    match segments {
        None => None,
        Some(s) => {
            let n: usize = s.len();
            if n == 0 {
                return None;
            }
            let name = &s[n - 1];
            assert(text::views(s@).last() == name@);
            if name.as_str().unicode_len() == 0 {
                None
            } else {
                Some(name.clone())
            }
        },
    }
}

/// The file name in a URL: its last path segment, if that is not empty.
pub fn filename_from_url(url: &str) -> (r: Option<String>)
    ensures
        channel::opt_view(r) == url_name(url@),
{
    last_segment(&web_url::path_segments(url))
}

/// The file extension for a media type.
pub open spec fn mime_extension(mime: Seq<char>) -> Option<Seq<char>> {
    let m = text::lower_of(mime);
    if m == "audio/ogg"@ || m == "audio/opus"@ {
        Some("ogg"@)
    } else if m == "audio/mpeg"@ || m == "audio/mp3"@ {
        Some("mp3"@)
    } else if m == "audio/mp4"@ || m == "audio/m4a"@ || m == "audio/x-m4a"@ || m == "audio/aac"@ {
        Some("m4a"@)
    } else if m == "audio/wav"@ || m == "audio/x-wav"@ || m == "audio/pcm"@ {
        Some("wav"@)
    } else if m == "audio/webm"@ {
        Some("webm"@)
    } else if m == "application/pdf"@ {
        Some("pdf"@)
    } else if m == "image/png"@ {
        Some("png"@)
    } else if m == "image/jpeg"@ || m == "image/jpg"@ {
        Some("jpg"@)
    } else {
        None
    }
}

/// The file extension for a media type; letter case does not matter.
pub fn extension_from_mime(mime_type: &str) -> (r: Option<&'static str>)
    ensures
        crate::json::text_view(r) == mime_extension(mime_type@),
{
    let lower = text::to_ascii_lowercase(mime_type);
    let m = lower.as_str();
    if text::str_eq(m, "audio/ogg") || text::str_eq(m, "audio/opus") {
        Some("ogg")
    } else if text::str_eq(m, "audio/mpeg") || text::str_eq(m, "audio/mp3") {
        Some("mp3")
    } else if text::str_eq(m, "audio/mp4") || text::str_eq(m, "audio/m4a") || text::str_eq(
        m,
        "audio/x-m4a",
    ) || text::str_eq(m, "audio/aac") {
        Some("m4a")
    } else if text::str_eq(m, "audio/wav") || text::str_eq(m, "audio/x-wav") || text::str_eq(
        m,
        "audio/pcm",
    ) {
        Some("wav")
    } else if text::str_eq(m, "audio/webm") {
        Some("webm")
    } else if text::str_eq(m, "application/pdf") {
        Some("pdf")
    } else if text::str_eq(m, "image/png") {
        Some("png")
    } else if text::str_eq(m, "image/jpeg") || text::str_eq(m, "image/jpg") {
        Some("jpg")
    } else {
        None
    }
}

/// A stem with the extension for a media type, or the stem alone.
pub open spec fn named_by_type(stem: Seq<char>, mime: Seq<char>) -> Seq<char> {
    match mime_extension(mime) {
        Some(ext) => stem + "."@ + ext,
        None => stem,
    }
}

fn name_by_type(stem: &str, mime: &str) -> (r: String)
    ensures
        r@ == named_by_type(stem@, mime@),
{
    let mut out = stem.to_string();
    if let Some(ext) = extension_from_mime(mime) {
        out.append(".");
        out.append(ext);
    }
    out
}

/// A name that was found, else one made of a stem and the extension for a media type.
pub open spec fn media_name(found: Option<Seq<char>>, stem: Seq<char>, mime: Seq<char>) -> Seq<char> {
    match found {
        Some(n) => n,
        None => named_by_type(stem, mime),
    }
}

/// A name that was found, else one made of a stem and the extension for a media type.
pub fn name_or_default(found: Option<String>, stem: &str, mime: &str) -> (r: String)
    ensures
        r@ == media_name(channel::opt_view(found), stem@, mime@),
{
    match found {
        Some(n) => n,
        None => name_by_type(stem, mime),
    }
}

/// The file name of a medium: that in its URL, else one made of a stem and the extension for its
/// type.
pub fn filename_from_media(media: &MediaAttachment, fallback_stem: &str) -> (r: String)
    ensures
        r@ == media_name(url_name(media.url@), fallback_stem@, media.mime_type@),
{
    name_or_default(
        filename_from_url(media.url.as_str()),
        fallback_stem,
        media.mime_type.as_str(),
    )
}

// ---- getting the bytes of a medium ----

/// The bytes of a medium, the file name that they are uploaded under and their media type.
#[derive(Debug)]
pub struct MediaBytes {
    pub bytes: Vec<u8>,
    pub filename: String,
    pub mime: String,
}

/// What a medium holds.
pub open spec fn media_view(m: Option<MediaBytes>) -> Option<(Seq<u8>, Seq<char>, Seq<char>)> {
    match m {
        Some(x) => Some((x.bytes@, x.filename@, x.mime@)),
        None => None,
    }
}

/// The medium that a data URI holds; nothing where the URL is none, and has to be fetched.
pub open spec fn inline_media_of(url: Seq<char>) -> Option<(Seq<u8>, Seq<char>, Seq<char>)> {
    match encoding::data_url_of(url) {
        Some((mime, data)) => Some((data, named_by_type("upload"@, mime), mime)),
        None => None,
    }
}

/// The medium that a data URI holds.
pub fn inline_media(url: &str) -> (r: Option<MediaBytes>)
    ensures
        media_view(r) == inline_media_of(url@),
{
    match encoding::parse_data_url(url) {
        Some((mime, bytes)) => {
            let filename = name_by_type("upload", mime.as_str());
            Some(MediaBytes { bytes, filename, mime })
        },
        None => None,
    }
}

/// The media type of a medium that was fetched: what the response says, else what the reply said.
pub open spec fn fetched_type(header: Option<Seq<char>>, declared: Seq<char>) -> Seq<char> {
    match header {
        Some(h) => h,
        None => declared,
    }
}

/// A medium that was fetched: its bytes, its name and its type.
pub fn fetched_media(media: &MediaAttachment, content_type: Option<&str>, bytes: Vec<u8>) -> (r:
    MediaBytes)
    ensures
        r.bytes@ == bytes@,
        r.mime@ == fetched_type(crate::json::text_view(content_type), media.mime_type@),
        r.filename@ == media_name(url_name(media.url@), "upload"@, r.mime@),
{
    let mime = match content_type {
        Some(h) => h.to_string(),
        None => media.mime_type.clone(),
    };
    let filename = name_or_default(
        filename_from_url(media.url.as_str()),
        "upload",
        mime.as_str(),
    );
    MediaBytes { bytes, filename, mime }
}

// ---- what a medium is sent as ----

/// How a medium is sent.
#[derive(Debug, Clone, Copy, PartialEq, Eq, Structural)]
pub enum MediaRoute {
    Image,
    Audio,
    File,
}

/// How a medium of that type is sent.
pub open spec fn route_of(mime: Seq<char>) -> MediaRoute {
    if text::begins(mime, "image/"@) {
        MediaRoute::Image
    } else if text::begins(mime, "audio/"@) {
        MediaRoute::Audio
    } else {
        MediaRoute::File
    }
}

/// How a medium of that type is sent.
pub fn media_route(mime: &str) -> (r: MediaRoute)
    ensures
        r == route_of(mime@),
{
    if text::starts_with(mime, "image/") {
        MediaRoute::Image
    } else if text::starts_with(mime, "audio/") {
        MediaRoute::Audio
    } else {
        MediaRoute::File
    }
}

impl MediaRoute {
    /// The type of the message that carries the medium.
    pub open spec fn message_type_name(self) -> Seq<char> {
        match self {
            MediaRoute::Image => "image"@,
            _ => "file"@,
        }
    }

    /// The type of the message that carries the medium.
    pub fn message_type(self) -> (r: &'static str)
        ensures
            r@ == self.message_type_name(),
    {
        match self {
            MediaRoute::Image => "image",
            _ => "file",
        }
    }

    /// The stem of a file name where the medium has none.
    pub open spec fn stem_name(self) -> Seq<char> {
        match self {
            MediaRoute::Audio => "audio"@,
            _ => "file"@,
        }
    }

    /// The stem of a file name where the medium has none.
    pub fn stem(self) -> (r: &'static str)
        ensures
            r@ == self.stem_name(),
    {
        match self {
            MediaRoute::Audio => "audio",
            _ => "file",
        }
    }
}

/// The content of the message that carries a medium which was uploaded under `key`.
pub open spec fn media_content_of(media: MediaAttachment, key: Seq<char>) -> Seq<char> {
    let route = route_of(media.mime_type@);
    match route {
        MediaRoute::Image => crate::feishu::api::object_of_one("image_key"@, key),
        _ => crate::feishu::api::object_of_two(
            "file_key"@,
            key,
            "file_name"@,
            media_name(url_name(media.url@), route.stem_name(), media.mime_type@),
        ),
    }
}

/// The content of the message that carries a medium which was uploaded under `key`.
pub fn media_content(media: &MediaAttachment, key: &str) -> (r: String)
    ensures
        r@ == media_content_of(*media, key@),
{
    let route = media_route(media.mime_type.as_str());
    match route {
        MediaRoute::Image => crate::feishu::api::image_content(key),
        _ => {
            let name = filename_from_media(media, route.stem());
            crate::feishu::api::file_content(key, name.as_str())
        },
    }
}

// ---- texts ----

/// A text and what is appended to it, a blank line between them.
pub open spec fn suffixed_of(t: Seq<char>, suffix: Seq<char>) -> Seq<char> {
    if suffix.len() == 0 {
        t
    } else {
        t + "\n\n"@ + suffix
    }
}

/// A text and what is appended to it, a blank line between them.
pub fn text_with_suffix(t: &str, suffix: &str) -> (r: String)
    ensures
        r@ == suffixed_of(t@, suffix@),
{
    let mut out = t.to_string();
    if suffix.unicode_len() > 0 {
        out.append("\n\n");
        out.append(suffix);
    }
    out
}

/// A link to a place, below its title if it has one.
pub open spec fn titled_of(title: Option<Seq<char>>, link: Seq<char>) -> Seq<char> {
    match title {
        Some(t) => t + "\n"@ + link,
        None => link,
    }
}

/// A link to a place, below its title if it has one.
pub fn titled_link(title: Option<&str>, link: &str) -> (r: String)
    ensures
        r@ == titled_of(crate::json::text_view(title), link@),
{
    match title {
        Some(t) => {
            let mut out = t.to_string();
            out.append("\n");
            out.append(link);
            out
        },
        None => link.to_string(),
    }
}

/// One event of a streamed reply.
#[derive(Debug)]
pub enum StreamEvent {
    Delta(String),
    Done,
    Error(String),
}

/// The text of a streamed reply after the events from the `i`-th on: the pieces one after the other
/// up to the end of the stream; an error stands for the text only where there is none yet.
pub open spec fn streamed_from(events: Seq<StreamEvent>, i: int, t: Seq<char>) -> Seq<char>
    decreases events.len() - i,
{
    if i < 0 || i >= events.len() {
        t
    } else {
        match events[i] {
            StreamEvent::Delta(d) => streamed_from(events, i + 1, t + d@),
            StreamEvent::Done => t,
            StreamEvent::Error(e) => if t.len() == 0 {
                e@
            } else {
                t
            },
        }
    }
}

/// A streamed reply as far as it has come.
#[derive(Debug)]
pub struct StreamedText {
    pub text: String,
    /// Whether more can come.
    pub open: bool,
}

impl StreamedText {
    /// Nothing has come yet.
    pub fn new() -> (r: Self)
        ensures
            r.text@ == Seq::<char>::empty(),
            r.open,
    {
        StreamedText { text: String::new(), open: true }
    }

    /// Takes in an event; after the end nothing changes any more.
    pub fn push(&mut self, event: &StreamEvent)
        ensures
            final(self).text@ == (if old(self).open {
                streamed_from(seq![*event], 0, old(self).text@)
            } else {
                old(self).text@
            }),
            final(self).open == (old(self).open && event is Delta),
    {
        proof {
            reveal_with_fuel(streamed_from, 2);
        }
        if self.open {
            match event {
                StreamEvent::Delta(d) => {
                    self.text.append(d.as_str());
                },
                StreamEvent::Done => {
                    self.open = false;
                },
                StreamEvent::Error(e) => {
                    if self.text.as_str().unicode_len() == 0 {
                        self.text = e.clone();
                    }
                    self.open = false;
                },
            }
        }
    }

    /// What is sent: nothing where the reply stayed empty.
    pub fn message(&self) -> (r: Option<&str>)
        ensures
            crate::json::text_view(r) == (if self.text@.len() == 0 {
                None
            } else {
                Some(self.text@)
            }),
    {
        if self.text.as_str().unicode_len() == 0 {
            None
        } else {
            Some(self.text.as_str())
        }
    }
}

/// The text of a streamed reply: its events one after the other.
pub fn collect_stream(events: &Vec<StreamEvent>) -> (r: String)
    ensures
        r@ == streamed_from(events@, 0, Seq::empty()),
{
    let mut s = StreamedText::new();
    let mut i: usize = 0;
    while i < events.len() && s.open
        invariant
            i <= events@.len(),
            s.open ==> streamed_from(events@, 0, Seq::empty()) == streamed_from(
                events@,
                i as int,
                s.text@,
            ),
            !s.open ==> streamed_from(events@, 0, Seq::empty()) == s.text@,
        decreases events@.len() - i,
    {
        proof {
            reveal_with_fuel(streamed_from, 2);
        }
        s.push(&events[i]);
        i += 1;
    }
    s.text
}

} // verus!
