//! The store for attachments: one file for equal contents, and a record of every use.

use crate::channel;
use crate::clock;
use crate::json;
use crate::text;
use vstd::prelude::*;

verus! {

/// An attachment that was stored.
#[derive(Debug)]
pub struct StoredAttachment {
    pub blob_sha256: String,
    pub media_type: String,
    pub size_bytes: u64,
    pub original_name: String,
    pub relative_path: String,
    pub absolute_path: String,
}

/// An attachment that is to be stored, and where it came from.
#[derive(Debug)]
pub struct SaveChannelAttachment<'a> {
    pub session_key: &'a str,
    pub channel_type: &'a str,
    pub account_id: &'a str,
    pub chat_id: &'a str,
    pub message_id: Option<&'a str>,
    pub media_type: &'a str,
    pub original_name: Option<&'a str>,
    pub data: &'a [u8],
}

// ---- digests ----

/// The SHA-256 digest of bytes.
pub uninterp spec fn sha256_of(data: Seq<u8>) -> Seq<u8>;

/// `sha2::Sha256` digests bytes to thirty-two bytes that depend on them alone.
#[verifier::external_body]
fn sha256(data: &[u8]) -> (r: Vec<u8>)
    ensures
        r@ == sha256_of(data@),
        r@.len() == 32,
{
    <sha2::Sha256 as sha2::Digest>::digest(data).to_vec()
}

/// Bytes in lower-case hexadecimal digits.
pub open spec fn hex_of(b: Seq<u8>) -> Seq<char>
    decreases b.len(),
{
    if b.len() == 0 {
        Seq::empty()
    } else {
        hex_of(b.drop_last()).push(json::hex_char(b.last() as nat / 16)).push(
            json::hex_char(b.last() as nat % 16),
        )
    }
}

fn hex_digit(d: u8) -> (r: char)
    requires
        d < 16,
    ensures
        r == json::hex_char(d as nat),
{
    if d < 10 {
        (48 + d) as char
    } else {
        (87 + d) as char
    }
}

/// Two digits for every byte, each a hexadecimal digit.
pub proof fn lemma_hex(b: Seq<u8>)
    ensures
        hex_of(b).len() == 2 * b.len(),
        forall|i: int| 0 <= i < hex_of(b).len() ==> (#[trigger] hex_of(b)[i] as u32) < 0x80,
    decreases b.len(),
{
    if b.len() > 0 {
        lemma_hex(b.drop_last());
    }
}

/// Bytes in lower-case hexadecimal digits.
pub fn hex_text(b: &Vec<u8>) -> (r: String)
    ensures
        r@ == hex_of(b@),
{
    let mut out = String::new();
    let mut i: usize = 0;
    assert(out@ =~= hex_of(b@.take(0)));
    while i < b.len()
        invariant
            i <= b@.len(),
            out@ == hex_of(b@.take(i as int)),
        decreases b@.len() - i,
    {
        assert(b@.take(i + 1).drop_last() =~= b@.take(i as int));
        out.push(hex_digit(b[i] / 16));
        out.push(hex_digit(b[i] % 16));
        i += 1;
    }
    assert(b@.take(i as int) =~= b@);
    out
}

/// The name under which a content is known: its digest.
pub open spec fn blob_name(data: Seq<u8>) -> Seq<char> {
    hex_of(sha256_of(data))
}

// ---- extensions ----

/// A name that is taken apart in the same way on every system: without a backslash, without a colon
/// in the place where it would end the letter of a drive, and not starting with two slashes.
pub open spec fn is_portable(name: Seq<char>) -> bool {
    &&& forall|i: int| 0 <= i < name.len() ==> #[trigger] name[i] != '\\'
    &&& !(name.len() >= 2 && name[1] == ':')
    &&& !(name.len() >= 2 && name[0] == '/' && name[1] == '/')
}

/// The last component of a path other than the empty one and the single dot.
pub open spec fn last_component(parts: Seq<Seq<char>>) -> Option<Seq<char>>
    decreases parts.len(),
{
    if parts.len() == 0 {
        None
    } else if parts.last() == ""@ || parts.last() == "."@ {
        last_component(parts.drop_last())
    } else {
        Some(parts.last())
    }
}

/// The extension of a file name: what follows its last dot, if that is not its first character.
pub open spec fn extension_in(name: Seq<char>) -> Option<Seq<char>> {
    let n = name.len() - text::trail(name, text::all_but('.'));
    if n <= 1 {
        None
    } else {
        Some(name.skip(n))
    }
}

/// The extension of the file that a path names.
pub open spec fn path_extension(path: Seq<char>) -> Option<Seq<char>> {
    match last_component(text::pieces_of(path, '/')) {
        None => None,
        Some(name) => if name == ".."@ {
            None
        } else {
            extension_in(name)
        },
    }
}

/// `Path::extension` gives what follows the last dot in the last component of a path, unless that
/// dot is its first character; the two dots that name the parent have none. What it gives for a
/// path that another system would take apart otherwise is left open.
#[verifier::external_body]
fn file_extension(path: &str) -> (r: Option<String>)
    ensures
        is_portable(path@) ==> channel::opt_view(r) == path_extension(path@),
{
    std::path::Path::new(path).extension().and_then(|e| e.to_str()).map(|e| e.to_string())
}

/// Whether a character is an ASCII letter or digit.
pub open spec fn is_alphanumeric(c: char) -> bool {
    ('0' <= c && c <= '9') || ('a' <= c && c <= 'z') || ('A' <= c && c <= 'Z')
}

/// Whether an extension is kept: up to twelve letters and digits.
pub open spec fn is_plain_extension(e: Seq<char>) -> bool {
    0 < e.len() <= 12 && forall|i: int| 0 <= i < e.len() ==> is_alphanumeric(#[trigger] e[i])
}

/// The extension for a media type.
pub open spec fn type_extension(media_type: Seq<char>) -> Seq<char> {
    let m = text::lower_of(media_type);
    if m == "application/vnd.openxmlformats-officedocument.wordprocessingml.document"@ {
        "docx"@
    } else if m == "application/vnd.openxmlformats-officedocument.spreadsheetml.sheet"@ {
        "xlsx"@
    } else if m == "application/vnd.openxmlformats-officedocument.presentationml.presentation"@ {
        "pptx"@
    } else if m == "application/msword"@ {
        "doc"@
    } else if m == "application/vnd.ms-excel"@ {
        "xls"@
    } else if m == "application/pdf"@ {
        "pdf"@
    } else if m == "text/plain"@ {
        "txt"@
    } else if m == "text/csv"@ {
        "csv"@
    } else if m == "application/json"@ {
        "json"@
    } else if m == "application/zip"@ {
        "zip"@
    } else if m == "image/png"@ {
        "png"@
    } else if m == "image/jpeg"@ {
        "jpg"@
    } else if m == "image/webp"@ {
        "webp"@
    } else if m == "image/gif"@ {
        "gif"@
    } else {
        "bin"@
    }
}

fn extension_for_type(media_type: &str) -> (r: &'static str)
    ensures
        r@ == type_extension(media_type@),
{
    let lower = text::to_ascii_lowercase(media_type);
    let m = lower.as_str();
    if text::str_eq(
        m,
        "application/vnd.openxmlformats-officedocument.wordprocessingml.document",
    ) {
        "docx"
    } else if text::str_eq(m, "application/vnd.openxmlformats-officedocument.spreadsheetml.sheet") {
        "xlsx"
    } else if text::str_eq(
        m,
        "application/vnd.openxmlformats-officedocument.presentationml.presentation",
    ) {
        "pptx"
    } else if text::str_eq(m, "application/msword") {
        "doc"
    } else if text::str_eq(m, "application/vnd.ms-excel") {
        "xls"
    } else if text::str_eq(m, "application/pdf") {
        "pdf"
    } else if text::str_eq(m, "text/plain") {
        "txt"
    } else if text::str_eq(m, "text/csv") {
        "csv"
    } else if text::str_eq(m, "application/json") {
        "json"
    } else if text::str_eq(m, "application/zip") {
        "zip"
    } else if text::str_eq(m, "image/png") {
        "png"
    } else if text::str_eq(m, "image/jpeg") {
        "jpg"
    } else if text::str_eq(m, "image/webp") {
        "webp"
    } else if text::str_eq(m, "image/gif") {
        "gif"
    } else {
        "bin"
    }
}

/// The extension of a stored file: that of its name in lower case, if it is a plain one, else that
/// for its media type.
pub open spec fn extension_for(media_type: Seq<char>, ext: Option<Seq<char>>) -> Seq<char> {
    match ext {
        Some(e) => {
            let lower = text::lower_of(text::trim_of(e));
            if is_plain_extension(lower) {
                lower
            } else {
                type_extension(media_type)
            }
        },
        None => type_extension(media_type),
    }
}

fn has_plain_extension(e: &str) -> (r: bool)
    ensures
        r == is_plain_extension(e@),
{
    let cs = text::chars_of(e);
    if cs.len() == 0 || cs.len() > 12 {
        return false;
    }
    let mut i: usize = 0;
    while i < cs.len()
        invariant
            cs@ == e@,
            i <= cs@.len(),
            0 < cs@.len() <= 12,
            forall|j: int| 0 <= j < i ==> is_alphanumeric(#[trigger] e@[j]),
        decreases cs@.len() - i,
    {
        let c: char = cs[i];
        if !(('0' <= c && c <= '9') || ('a' <= c && c <= 'z') || ('A' <= c && c <= 'Z')) {
            assert(!is_alphanumeric(e@[i as int]));
            return false;
        }
        i += 1;
    }
    true
}

/// The extension of a stored file, given the extension of its name.
pub fn choose_extension(media_type: &str, ext: Option<&str>) -> (r: String)
    ensures
        r@ == extension_for(media_type@, json::text_view(ext)),
{
    if let Some(e) = ext {
        let lower = text::to_ascii_lowercase(text::trim(e));
        if has_plain_extension(lower.as_str()) {
            return lower;
        }
    }
    extension_for_type(media_type).to_string()
}

/// The extension that a name gives.
pub open spec fn named_extension(name: Option<Seq<char>>) -> Option<Seq<char>> {
    match name {
        Some(n) => path_extension(n),
        None => None,
    }
}

/// The extension of a stored file: that of its name in lower case, if it is a plain one, else that
/// for its media type.
pub fn infer_extension(media_type: &str, original_name: Option<&str>) -> (r: String)
    ensures
        exists|ext: Option<Seq<char>>| r@ == #[trigger] extension_for(media_type@, ext),
        (original_name matches Some(n) ==> is_portable(n@)) ==> r@ == extension_for(
            media_type@,
            named_extension(json::text_view(original_name)),
        ),
{
    let ext = match original_name {
        Some(n) => file_extension(n),
        None => None,
    };
    choose_extension(media_type, channel::opt_str(&ext))
}

// ---- names ----

/// A control character.
pub open spec fn is_control(c: char) -> bool {
    (c as u32) <= 0x1f || 0x7f <= (c as u32) <= 0x9f
}

/// A character as it stands in a stored name: separators and control characters are replaced.
pub open spec fn safe_char(c: char) -> char {
    if c == '/' || c == '\\' || is_control(c) {
        '_'
    } else {
        c
    }
}

/// Whether an original name holds more than white space.
pub open spec fn names_something(name: Option<Seq<char>>) -> bool {
    name matches Some(n) && text::trim_of(n).len() > 0
}

/// The name that is stored with an attachment: the trimmed original with unsafe characters
/// replaced, or one made of the digest where there is none.
pub open spec fn stored_name(name: Option<Seq<char>>, blob: Seq<char>, ext: Seq<char>) -> Seq<char> {
    if names_something(name) {
        text::trim_of(name->0).map_values(|c: char| safe_char(c))
    } else {
        "attachment-"@ + blob.take(12) + "."@ + ext
    }
}

fn make_safe(s: &str) -> (r: String)
    ensures
        r@ == s@.map_values(|c: char| safe_char(c)),
{
    let cs = text::chars_of(s);
    let mut out = String::new();
    let mut i: usize = 0;
    while i < cs.len()
        invariant
            cs@ == s@,
            i <= cs@.len(),
            out@ == s@.take(i as int).map_values(|c: char| safe_char(c)),
        decreases cs@.len() - i,
    {
        let c: char = cs[i];
        let n: u32 = c as u32;
        if c == '/' || c == '\\' || n <= 0x1f || (0x7f <= n && n <= 0x9f) {
            out.push('_');
        } else {
            out.push(c);
        }
        assert(out@ =~= s@.take(i + 1).map_values(|c: char| safe_char(c)));
        i += 1;
    }
    assert(s@.take(i as int) =~= s@);
    out
}

/// The name that is stored with an attachment.
pub fn sanitize_original_name(raw_name: Option<&str>, blob_sha256: &str, ext: &str) -> (r: String)
    requires
        !names_something(json::text_view(raw_name)) ==> {
            &&& blob_sha256@.len() >= 12
            &&& forall|i: int| 0 <= i < 12 ==> (#[trigger] blob_sha256@[i] as u32) < 0x80
        },
    ensures
        r@ == stored_name(json::text_view(raw_name), blob_sha256@, ext@),
{
    if let Some(name) = raw_name {
        let trimmed = text::trim(name);
        if trimmed.unicode_len() > 0 {
            return make_safe(trimmed);
        }
    }
    let mut out = "attachment-".to_string();
    out.append(blob_sha256.substring_char(0, 12));
    out.append(".");
    out.append(ext);
    assert(blob_sha256@.subrange(0, 12) =~= blob_sha256@.take(12));
    out
}

/// A stored name that comes from an original name is not empty and holds no separator and no
/// control character.
pub proof fn law_stored_name(name: Seq<char>, blob: Seq<char>, ext: Seq<char>)
    requires
        text::trim_of(name).len() > 0,
    ensures
        stored_name(Some(name), blob, ext).len() > 0,
        forall|i: int|
            0 <= i < stored_name(Some(name), blob, ext).len() ==> {
                let c = #[trigger] stored_name(Some(name), blob, ext)[i];
                c != '/' && c != '\\' && !is_control(c)
            },
{
}

/// A name without surrounding white space, separators and control characters is kept as it is.
pub proof fn law_name_kept(name: Seq<char>, blob: Seq<char>, ext: Seq<char>)
    requires
        name.len() > 0,
        text::trim_of(name) == name,
        forall|i: int|
            0 <= i < name.len() ==> {
                let c = #[trigger] name[i];
                c != '/' && c != '\\' && !is_control(c)
            },
    ensures
        stored_name(Some(name), blob, ext) == name,
{
    assert(name.map_values(|c: char| safe_char(c)) =~= name);
}

// ---- saving ----

/// The path under which a content is stored first.
pub open spec fn candidate_path(blob: Seq<char>, ext: Seq<char>) -> Seq<char> {
    "attachments/blobs/"@ + blob.take(2) + "/"@ + blob + "."@ + ext
}

/// What is asked of the file system and the tables.
#[derive(Debug)]
pub enum StoreAsk<S> {
    /// The path under which a content is stored.
    FindBlob { sha256: S },
    /// Whether there is a file at the path.
    FileExists { path: S },
    /// Write the content to the path.
    WriteFile { path: S },
    /// Note when the content was used last.
    TouchBlob { sha256: S, now: i64 },
    /// Note the content, unless it is noted already.
    InsertBlob { sha256: S, media_type: S, ext: S, size_bytes: i64, path: S, now: i64 },
    /// Remove the file at the path; a failure is passed over.
    RemoveFile { path: S },
    /// Note the use of the content.
    InsertRef {
        id: S,
        session_key: S,
        channel_type: S,
        account_id: S,
        chat_id: S,
        message_id: Option<S>,
        sha256: S,
        original_name: S,
        now: i64,
    },
    /// It is over: what was stored, or the message of an error.
    Finish(Result<StoredBlob<S>, S>),
}

/// What was stored.
#[derive(Debug)]
pub struct StoredBlob<S> {
    pub blob_sha256: S,
    pub media_type: S,
    pub size_bytes: u64,
    pub original_name: S,
    pub relative_path: S,
}

/// What came back.
#[derive(Debug)]
pub enum StoreAnswer {
    /// To `FindBlob`.
    Row(Result<Option<String>, String>),
    /// To `FileExists`.
    Exists(bool),
    /// To everything else.
    Outcome(Result<(), String>),
}

impl View for StoredBlob<String> {
    type V = StoredBlob<Seq<char>>;

    open spec fn view(&self) -> StoredBlob<Seq<char>> {
        StoredBlob {
            blob_sha256: self.blob_sha256@,
            media_type: self.media_type@,
            size_bytes: self.size_bytes,
            original_name: self.original_name@,
            relative_path: self.relative_path@,
        }
    }
}

impl View for StoreAsk<String> {
    type V = StoreAsk<Seq<char>>;

    open spec fn view(&self) -> StoreAsk<Seq<char>> {
        match *self {
            StoreAsk::FindBlob { sha256 } => StoreAsk::FindBlob { sha256: sha256@ },
            StoreAsk::FileExists { path } => StoreAsk::FileExists { path: path@ },
            StoreAsk::WriteFile { path } => StoreAsk::WriteFile { path: path@ },
            StoreAsk::TouchBlob { sha256, now } => StoreAsk::TouchBlob { sha256: sha256@, now },
            StoreAsk::InsertBlob { sha256, media_type, ext, size_bytes, path, now } =>
                StoreAsk::InsertBlob {
                    sha256: sha256@,
                    media_type: media_type@,
                    ext: ext@,
                    size_bytes,
                    path: path@,
                    now,
                },
            StoreAsk::RemoveFile { path } => StoreAsk::RemoveFile { path: path@ },
            StoreAsk::InsertRef {
                id,
                session_key,
                channel_type,
                account_id,
                chat_id,
                message_id,
                sha256,
                original_name,
                now,
            } => StoreAsk::InsertRef {
                id: id@,
                session_key: session_key@,
                channel_type: channel_type@,
                account_id: account_id@,
                chat_id: chat_id@,
                message_id: channel::opt_view(message_id),
                sha256: sha256@,
                original_name: original_name@,
                now,
            },
            StoreAsk::Finish(Ok(s)) => StoreAsk::Finish(Ok(s@)),
            StoreAsk::Finish(Err(e)) => StoreAsk::Finish(Err(e@)),
        }
    }
}

/// A content that is being stored: its digest, its extension, and what is noted of it and of the
/// message that it came with.
#[derive(Debug)]
pub struct Saving {
    pub session_key: String,
    pub channel_type: String,
    pub account_id: String,
    pub chat_id: String,
    pub message_id: Option<String>,
    pub blob_sha256: String,
    pub ext: String,
    pub media_type: String,
    pub size_bytes: usize,
    pub original_name: Option<String>,
    /// The id of the record of this use.
    pub ref_id: String,
    pub now: i64,
}

impl Saving {
    /// The digest is long enough to name files by.
    pub open spec fn wf(self) -> bool {
        &&& self.blob_sha256@.len() >= 12
        &&& forall|i: int| 0 <= i < 12 ==> (#[trigger] self.blob_sha256@[i] as u32) < 0x80
    }

    /// The path under which the content is stored first.
    pub open spec fn candidate(self) -> Seq<char> {
        candidate_path(self.blob_sha256@, self.ext@)
    }

    /// Starts to store an attachment.
    pub fn new(req: &SaveChannelAttachment) -> (r: Self)
        ensures
            r.wf(),
            r.session_key@ == req.session_key@,
            r.channel_type@ == req.channel_type@,
            r.account_id@ == req.account_id@,
            r.chat_id@ == req.chat_id@,
            channel::opt_view(r.message_id) == json::text_view(req.message_id),
            r.blob_sha256@ == blob_name(req.data@),
            (req.original_name matches Some(n) ==> is_portable(n@)) ==> r.ext@ == extension_for(
                req.media_type@,
                named_extension(json::text_view(req.original_name)),
            ),
            exists|ext: Option<Seq<char>>| r.ext@ == #[trigger] extension_for(req.media_type@, ext),
            r.media_type@ == req.media_type@,
            r.size_bytes == req.data@.len(),
            channel::opt_view(r.original_name) == json::text_view(req.original_name),
            crate::gateway::dispatch::is_uuid(r.ref_id@),
    {
        let digest = sha256(req.data);
        let blob_sha256 = hex_text(&digest);
        proof {
            lemma_hex(digest@);
        }
        Saving {
            session_key: req.session_key.to_string(),
            channel_type: req.channel_type.to_string(),
            account_id: req.account_id.to_string(),
            chat_id: req.chat_id.to_string(),
            message_id: match req.message_id {
                Some(id) => Some(id.to_string()),
                None => None,
            },
            blob_sha256,
            ext: infer_extension(req.media_type, req.original_name),
            media_type: req.media_type.to_string(),
            size_bytes: req.data.len(),
            original_name: match req.original_name {
                Some(n) => Some(n.to_string()),
                None => None,
            },
            ref_id: crate::gateway::dispatch::random_uuid(),
            now: clock::now_ms(),
        }
    }

    fn candidate_text(&self) -> (r: String)
        requires
            self.wf(),
        ensures
            r@ == self.candidate(),
    {
        let mut out = "attachments/blobs/".to_string();
        out.append(self.blob_sha256.as_str().substring_char(0, 2));
        out.append("/");
        out.append(self.blob_sha256.as_str());
        out.append(".");
        out.append(self.ext.as_str());
        assert(self.blob_sha256@.subrange(0, 2) =~= self.blob_sha256@.take(2));
        out
    }
}

/// The end with an error.
pub open spec fn failed(e: Seq<char>) -> StoreAsk<Seq<char>> {
    StoreAsk::Finish(Err(e))
}

/// The end after an answer to something that was not asked.
pub open spec fn off_script() -> StoreAsk<Seq<char>> {
    failed("unexpected answer"@)
}

fn fail(e: &str) -> (r: StoreAsk<String>)
    ensures
        r@ == failed(e@),
{
    StoreAsk::Finish(Err(e.to_string()))
}

/// The use is noted, and the attachment is stored. `ext` is the extension of the path, if it has
/// one.
pub open spec fn ref_step(
    s: Saving,
    path: Seq<char>,
    ext: Option<Seq<char>>,
    h: Seq<StoreAnswer>,
    k: int,
) -> StoreAsk<Seq<char>> {
    let name = stored_name(
        channel::opt_view(s.original_name),
        s.blob_sha256@,
        match ext {
            Some(e) => e,
            None => s.ext@,
        },
    );
    if k >= h.len() {
        StoreAsk::InsertRef {
            id: s.ref_id@,
            session_key: s.session_key@,
            channel_type: s.channel_type@,
            account_id: s.account_id@,
            chat_id: s.chat_id@,
            message_id: channel::opt_view(s.message_id),
            sha256: s.blob_sha256@,
            original_name: name,
            now: s.now,
        }
    } else {
        match h[k] {
            StoreAnswer::Outcome(Ok(_)) => StoreAsk::Finish(
                Ok(
                    StoredBlob {
                        blob_sha256: s.blob_sha256@,
                        media_type: s.media_type@,
                        size_bytes: s.size_bytes as u64,
                        original_name: name,
                        relative_path: path,
                    },
                ),
            ),
            StoreAnswer::Outcome(Err(e)) => failed(e@),
            _ => off_script(),
        }
    }
}

/// The use is noted, and the attachment is stored.
pub fn finish_save(s: &Saving, path: &str, ext: Option<&str>, h: &Vec<StoreAnswer>, k: usize) -> (r:
    StoreAsk<String>)
    requires
        s.wf(),
        k <= h@.len(),
    ensures
        r@ == ref_step(*s, path@, json::text_view(ext), h@, k as int),
{
    let stored_ext = match ext {
        Some(e) => e,
        None => s.ext.as_str(),
    };
    let name = sanitize_original_name(
        channel::opt_str(&s.original_name),
        s.blob_sha256.as_str(),
        stored_ext,
    );
    if k >= h.len() {
        return StoreAsk::InsertRef {
            id: s.ref_id.clone(),
            session_key: s.session_key.clone(),
            channel_type: s.channel_type.clone(),
            account_id: s.account_id.clone(),
            chat_id: s.chat_id.clone(),
            message_id: channel::opt_copy(&s.message_id),
            sha256: s.blob_sha256.clone(),
            original_name: name,
            now: s.now,
        };
    }
    match &h[k] {
        StoreAnswer::Outcome(Ok(_)) => StoreAsk::Finish(
            Ok(
                StoredBlob {
                    blob_sha256: s.blob_sha256.clone(),
                    media_type: s.media_type.clone(),
                    size_bytes: s.size_bytes as u64,
                    original_name: name,
                    relative_path: path.to_string(),
                },
            ),
        ),
        StoreAnswer::Outcome(Err(e)) => fail(e.as_str()),
        _ => fail("unexpected answer"),
    }
}

/// Whether a step is the one of an extension that the path may have.
pub open spec fn ref_step_somehow(
    s: Saving,
    path: Seq<char>,
    h: Seq<StoreAnswer>,
    k: int,
    next: StoreAsk<Seq<char>>,
) -> bool {
    &&& exists|ext: Option<Seq<char>>| next == #[trigger] ref_step(s, path, ext, h, k)
    &&& is_portable(path) ==> next == ref_step(s, path, path_extension(path), h, k)
}

fn run_ref_step(s: &Saving, path: &str, h: &Vec<StoreAnswer>, k: usize) -> (r: StoreAsk<String>)
    requires
        s.wf(),
        k <= h@.len(),
    ensures
        ref_step_somehow(*s, path@, h@, k as int, r@),
{
    let ext = file_extension(path);
    finish_save(s, path, channel::opt_str(&ext), h, k)
}

/// The content is known already: its file is written again if it is gone, and its use is noted.
pub open spec fn known_step(
    s: Saving,
    path: Seq<char>,
    h: Seq<StoreAnswer>,
    k: int,
    next: StoreAsk<Seq<char>>,
) -> bool {
    if k >= h.len() {
        next == (StoreAsk::FileExists { path })
    } else {
        match h[k] {
            StoreAnswer::Exists(true) => touch_step(s, path, h, k + 1, next),
            StoreAnswer::Exists(false) => if k + 1 >= h.len() {
                next == (StoreAsk::WriteFile { path })
            } else {
                match h[k + 1] {
                    StoreAnswer::Outcome(Ok(_)) => touch_step(s, path, h, k + 2, next),
                    StoreAnswer::Outcome(Err(e)) => next == failed(e@),
                    _ => next == off_script(),
                }
            },
            _ => next == off_script(),
        }
    }
}

/// The time of the last use is noted.
pub open spec fn touch_step(
    s: Saving,
    path: Seq<char>,
    h: Seq<StoreAnswer>,
    k: int,
    next: StoreAsk<Seq<char>>,
) -> bool {
    if k >= h.len() {
        next == (StoreAsk::TouchBlob { sha256: s.blob_sha256@, now: s.now })
    } else {
        match h[k] {
            StoreAnswer::Outcome(Ok(_)) => ref_step_somehow(s, path, h, k + 1, next),
            StoreAnswer::Outcome(Err(e)) => next == failed(e@),
            _ => next == off_script(),
        }
    }
}

fn run_touch_step(s: &Saving, path: &str, h: &Vec<StoreAnswer>, k: usize) -> (r: StoreAsk<String>)
    requires
        s.wf(),
        k <= h@.len(),
    ensures
        touch_step(*s, path@, h@, k as int, r@),
{
    if k >= h.len() {
        return StoreAsk::TouchBlob { sha256: s.blob_sha256.clone(), now: s.now };
    }
    match &h[k] {
        StoreAnswer::Outcome(Ok(_)) => run_ref_step(s, path, h, k + 1),
        StoreAnswer::Outcome(Err(e)) => fail(e.as_str()),
        _ => fail("unexpected answer"),
    }
}

fn run_known_step(s: &Saving, path: &str, h: &Vec<StoreAnswer>, k: usize) -> (r: StoreAsk<String>)
    requires
        s.wf(),
        k <= h@.len(),
    ensures
        known_step(*s, path@, h@, k as int, r@),
{
    if k >= h.len() {
        return StoreAsk::FileExists { path: path.to_string() };
    }
    match &h[k] {
        StoreAnswer::Exists(there) => {
            if *there {
                return run_touch_step(s, path, h, k + 1);
            }
            if k + 1 >= h.len() {
                return StoreAsk::WriteFile { path: path.to_string() };
            }
            match &h[k + 1] {
                StoreAnswer::Outcome(Ok(_)) => run_touch_step(s, path, h, k + 2),
                StoreAnswer::Outcome(Err(e)) => fail(e.as_str()),
                _ => fail("unexpected answer"),
            }
        },
        _ => fail("unexpected answer"),
    }
}

/// Another path won: the file is written there if it is missing, and the first one is removed.
pub open spec fn moved_step(
    s: Saving,
    path: Seq<char>,
    h: Seq<StoreAnswer>,
    k: int,
    next: StoreAsk<Seq<char>>,
) -> bool {
    if k >= h.len() {
        next == (StoreAsk::FileExists { path })
    } else {
        match h[k] {
            StoreAnswer::Exists(true) => remove_step(s, path, h, k + 1, next),
            StoreAnswer::Exists(false) => if k + 1 >= h.len() {
                next == (StoreAsk::WriteFile { path })
            } else {
                match h[k + 1] {
                    StoreAnswer::Outcome(Ok(_)) => remove_step(s, path, h, k + 2, next),
                    StoreAnswer::Outcome(Err(e)) => next == failed(e@),
                    _ => next == off_script(),
                }
            },
            _ => next == off_script(),
        }
    }
}

/// The file at the first path is removed.
pub open spec fn remove_step(
    s: Saving,
    path: Seq<char>,
    h: Seq<StoreAnswer>,
    k: int,
    next: StoreAsk<Seq<char>>,
) -> bool {
    if k >= h.len() {
        next == (StoreAsk::RemoveFile { path: s.candidate() })
    } else {
        ref_step_somehow(s, path, h, k + 1, next)
    }
}

fn run_remove_step(s: &Saving, path: &str, h: &Vec<StoreAnswer>, k: usize) -> (r: StoreAsk<String>)
    requires
        s.wf(),
        k <= h@.len(),
    ensures
        remove_step(*s, path@, h@, k as int, r@),
{
    if k >= h.len() {
        StoreAsk::RemoveFile { path: s.candidate_text() }
    } else {
        run_ref_step(s, path, h, k + 1)
    }
}

fn run_moved_step(s: &Saving, path: &str, h: &Vec<StoreAnswer>, k: usize) -> (r: StoreAsk<String>)
    requires
        s.wf(),
        k <= h@.len(),
    ensures
        moved_step(*s, path@, h@, k as int, r@),
{
    if k >= h.len() {
        return StoreAsk::FileExists { path: path.to_string() };
    }
    match &h[k] {
        StoreAnswer::Exists(there) => {
            if *there {
                return run_remove_step(s, path, h, k + 1);
            }
            if k + 1 >= h.len() {
                return StoreAsk::WriteFile { path: path.to_string() };
            }
            match &h[k + 1] {
                StoreAnswer::Outcome(Ok(_)) => run_remove_step(s, path, h, k + 2),
                StoreAnswer::Outcome(Err(e)) => fail(e.as_str()),
                _ => fail("unexpected answer"),
            }
        },
        _ => fail("unexpected answer"),
    }
}

/// The content is new: its file is written and noted. Where somebody else was faster, their path
/// counts.
pub open spec fn new_step(s: Saving, h: Seq<StoreAnswer>, k: int, next: StoreAsk<Seq<char>>) -> bool {
    if k >= h.len() {
        next == (StoreAsk::WriteFile { path: s.candidate() })
    } else {
        match h[k] {
            StoreAnswer::Outcome(Err(e)) => next == failed(e@),
            StoreAnswer::Outcome(Ok(_)) => if k + 1 >= h.len() {
                next == (StoreAsk::InsertBlob {
                    sha256: s.blob_sha256@,
                    media_type: s.media_type@,
                    ext: s.ext@,
                    size_bytes: s.size_bytes as i64,
                    path: s.candidate(),
                    now: s.now,
                })
            } else {
                match h[k + 1] {
                    StoreAnswer::Outcome(Err(e)) => next == failed(e@),
                    StoreAnswer::Outcome(Ok(_)) => if k + 2 >= h.len() {
                        next == (StoreAsk::FindBlob { sha256: s.blob_sha256@ })
                    } else {
                        match h[k + 2] {
                            StoreAnswer::Row(Err(e)) => next == failed(e@),
                            StoreAnswer::Row(Ok(None)) => ref_step_somehow(
                                s,
                                s.candidate(),
                                h,
                                k + 3,
                                next,
                            ),
                            StoreAnswer::Row(Ok(Some(path))) => if path@ == s.candidate() {
                                ref_step_somehow(s, path@, h, k + 3, next)
                            } else {
                                moved_step(s, path@, h, k + 3, next)
                            },
                            _ => next == off_script(),
                        }
                    },
                    _ => next == off_script(),
                }
            },
            _ => next == off_script(),
        }
    }
}

fn run_new_step(s: &Saving, h: &Vec<StoreAnswer>, k: usize) -> (r: StoreAsk<String>)
    requires
        s.wf(),
        k <= h@.len(),
    ensures
        new_step(*s, h@, k as int, r@),
{
    if k >= h.len() {
        return StoreAsk::WriteFile { path: s.candidate_text() };
    }
    match &h[k] {
        StoreAnswer::Outcome(Err(e)) => {
            return fail(e.as_str());
        },
        StoreAnswer::Outcome(Ok(_)) => {},
        _ => {
            return fail("unexpected answer");
        },
    }
    if k + 1 >= h.len() {
        return StoreAsk::InsertBlob {
            sha256: s.blob_sha256.clone(),
            media_type: s.media_type.clone(),
            ext: s.ext.clone(),
            size_bytes: s.size_bytes as i64,
            path: s.candidate_text(),
            now: s.now,
        };
    }
    match &h[k + 1] {
        StoreAnswer::Outcome(Err(e)) => {
            return fail(e.as_str());
        },
        StoreAnswer::Outcome(Ok(_)) => {},
        _ => {
            return fail("unexpected answer");
        },
    }
    if k + 2 >= h.len() {
        return StoreAsk::FindBlob { sha256: s.blob_sha256.clone() };
    }
    match &h[k + 2] {
        StoreAnswer::Row(Err(e)) => fail(e.as_str()),
        StoreAnswer::Row(Ok(None)) => {
            let path = s.candidate_text();
            run_ref_step(s, path.as_str(), h, k + 3)
        },
        StoreAnswer::Row(Ok(Some(path))) => {
            let candidate = s.candidate_text();
            if text::str_eq(path.as_str(), candidate.as_str()) {
                run_ref_step(s, path.as_str(), h, k + 3)
            } else {
                run_moved_step(s, path.as_str(), h, k + 3)
            }
        },
        _ => fail("unexpected answer"),
    }
}

/// What storing an attachment does next, given the answers so far.
pub open spec fn save_step(s: Saving, h: Seq<StoreAnswer>, next: StoreAsk<Seq<char>>) -> bool {
    if h.len() == 0 {
        next == (StoreAsk::FindBlob { sha256: s.blob_sha256@ })
    } else {
        match h[0] {
            StoreAnswer::Row(Err(e)) => next == failed(e@),
            StoreAnswer::Row(Ok(Some(path))) => known_step(s, path@, h, 1, next),
            StoreAnswer::Row(Ok(None)) => new_step(s, h, 1, next),
            _ => next == off_script(),
        }
    }
}

/// What storing an attachment does next, given the answers so far.
pub fn save_channel_attachment(s: &Saving, h: &Vec<StoreAnswer>) -> (r: StoreAsk<String>)
    requires
        s.wf(),
    ensures
        save_step(*s, h@, r@),
{
    if h.len() == 0 {
        return StoreAsk::FindBlob { sha256: s.blob_sha256.clone() };
    }
    match &h[0] {
        StoreAnswer::Row(Err(e)) => fail(e.as_str()),
        StoreAnswer::Row(Ok(Some(path))) => run_known_step(s, path.as_str(), h, 1),
        StoreAnswer::Row(Ok(None)) => run_new_step(s, h, 1),
        _ => fail("unexpected answer"),
    }
}

impl StoredBlob<String> {
    /// The stored attachment with the place where its file is.
    pub fn located(self, absolute_path: String) -> (r: StoredAttachment)
        ensures
            r.blob_sha256@ == self@.blob_sha256,
            r.media_type@ == self@.media_type,
            r.size_bytes == self@.size_bytes,
            r.original_name@ == self@.original_name,
            r.relative_path@ == self@.relative_path,
            r.absolute_path@ == absolute_path@,
    {
        StoredAttachment {
            blob_sha256: self.blob_sha256,
            media_type: self.media_type,
            size_bytes: self.size_bytes,
            original_name: self.original_name,
            relative_path: self.relative_path,
            absolute_path,
        }
    }
}

/// Equal contents are stored once: a content that is known is never noted a second time, its path
/// stays, and what is handed out names that path.
pub proof fn law_deduplicated(s: Saving, h: Seq<StoreAnswer>, path: String, next: StoreAsk<Seq<char>>)
    requires
        h.len() > 0,
        h[0] == StoreAnswer::Row(Ok(Some(path))),
        save_step(s, h, next),
    ensures
        !(next is InsertBlob),
        next matches StoreAsk::WriteFile { path: p } ==> p == path@,
        next matches StoreAsk::Finish(Ok(b)) ==> b.relative_path == path@ && b.blob_sha256
            == s.blob_sha256@,
{
}

/// A content that is not known yet is written and noted under the directory of the blobs, in a file
/// that its digest names.
pub proof fn law_under_blobs(s: Saving, h: Seq<StoreAnswer>, next: StoreAsk<Seq<char>>)
    requires
        h.len() > 0,
        h[0] == StoreAnswer::Row(Ok(None)),
        save_step(s, h, next),
    ensures
        h.len() == 1 ==> next == (StoreAsk::WriteFile { path: s.candidate() }),
        next matches StoreAsk::InsertBlob { sha256, media_type, ext, size_bytes, path, now } ==> path
            == s.candidate(),
        text::begins(s.candidate(), "attachments/blobs/"@),
        text::begins(
            s.candidate().skip("attachments/blobs/"@.len() as int),
            s.blob_sha256@.take(2) + "/"@ + s.blob_sha256@,
        ),
{
    let head = "attachments/blobs/"@;
    let tail = s.blob_sha256@.take(2) + "/"@ + s.blob_sha256@;
    assert(s.candidate() =~= head + (tail + ("."@ + s.ext@)));
    assert(s.candidate().subrange(0, head.len() as int) =~= head);
    assert(s.candidate().skip(head.len() as int) =~= tail + ("."@ + s.ext@));
    assert(s.candidate().skip(head.len() as int).subrange(0, tail.len() as int) =~= tail);
}

} // verus!
