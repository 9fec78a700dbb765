//! What is stored of an attachment, in terms of the attachment and of what was found.

use crate::channel;
use crate::gateway::attachment_store;
use crate::gateway::attachment_store::{Saving, StoreAnswer, StoreAsk};
use crate::text;
use vstd::prelude::*;

verus! {

/// The path under which an answer knows the content.
pub open spec fn known_at(a: StoreAnswer) -> Option<Seq<char>> {
    match a {
        StoreAnswer::Row(Ok(Some(path))) => Some(path@),
        _ => None,
    }
}

/// Whether a path is one of the content: the one that its digest names, or one under which it is
/// known.
pub open spec fn is_path(s: Saving, h: Seq<StoreAnswer>, path: Seq<char>) -> bool {
    path == s.candidate() || exists|j: int| 0 <= j < h.len() && #[trigger] known_at(h[j]) == Some(path)
}

/// Whether a name is one of the attachment: the original without white space around it, in which only
/// separators and control characters are replaced; or, where there is none, one that starts like the
/// digest.
pub open spec fn is_name(s: Saving, name: Seq<char>) -> bool {
    let original = match s.original_name {
        Some(n) => text::trim_of(n@),
        None => Seq::empty(),
    };
    if original.len() > 0 {
        &&& name.len() == original.len()
        &&& forall|i: int|
            0 <= i < name.len() ==> {
                let c = original[i];
                let replaced = c == '/' || c == '\\' || attachment_store::is_control(c);
                #[trigger] name[i] == if replaced {
                    '_'
                } else {
                    c
                }
            }
    } else {
        text::begins(name, "attachment-"@ + s.blob_sha256@.take(12) + "."@)
    }
}

/// Whether what is asked is about the content, and notes the attachment as it is and where it came
/// from.
pub open spec fn ask_fits(s: Saving, h: Seq<StoreAnswer>, next: StoreAsk<Seq<char>>) -> bool {
    match next {
        StoreAsk::FindBlob { sha256 } => sha256 == s.blob_sha256@,
        StoreAsk::FileExists { path } => is_path(s, h, path),
        StoreAsk::WriteFile { path } => is_path(s, h, path),
        StoreAsk::TouchBlob { sha256, now } => sha256 == s.blob_sha256@ && now == s.now,
        StoreAsk::InsertBlob { sha256, media_type, ext, size_bytes, path, now } => {
            &&& sha256 == s.blob_sha256@
            &&& media_type == s.media_type@
            &&& ext == s.ext@
            &&& size_bytes == s.size_bytes as i64
            &&& path == s.candidate()
            &&& now == s.now
        },
        StoreAsk::RemoveFile { path } => {
            &&& path == s.candidate()
            &&& exists|j: int|
                0 <= j < h.len() && #[trigger] known_at(h[j]) is Some && known_at(h[j]) != Some(path)
        },
        StoreAsk::InsertRef {
            id,
            session_key,
            channel_type,
            account_id,
            chat_id,
            message_id,
            sha256,
            original_name,
            now,
        } => {
            &&& id == s.ref_id@
            &&& session_key == s.session_key@
            &&& channel_type == s.channel_type@
            &&& account_id == s.account_id@
            &&& chat_id == s.chat_id@
            &&& message_id == channel::opt_view(s.message_id)
            &&& sha256 == s.blob_sha256@
            &&& is_name(s, original_name)
            &&& now == s.now
        },
        StoreAsk::Finish(Ok(b)) => {
            &&& b.blob_sha256 == s.blob_sha256@
            &&& b.media_type == s.media_type@
            &&& b.size_bytes == s.size_bytes as u64
            &&& is_name(s, b.original_name)
            &&& is_path(s, h, b.relative_path)
        },
        StoreAsk::Finish(Err(_)) => true,
    }
}

proof fn lemma_name(s: Saving, ext: Seq<char>)
    ensures
        is_name(
            s,
            attachment_store::stored_name(channel::opt_view(s.original_name), s.blob_sha256@, ext),
        ),
{
    let name = attachment_store::stored_name(
        channel::opt_view(s.original_name),
        s.blob_sha256@,
        ext,
    );
    let head = "attachment-"@ + s.blob_sha256@.take(12) + "."@;
    if !attachment_store::names_something(channel::opt_view(s.original_name)) {
        assert(name.subrange(0, head.len() as int) =~= head);
    }
}

proof fn lemma_ref(
    s: Saving,
    path: Seq<char>,
    h: Seq<StoreAnswer>,
    k: int,
    next: StoreAsk<Seq<char>>,
)
    requires
        attachment_store::ref_step_somehow(s, path, h, k, next),
        is_path(s, h, path),
    ensures
        ask_fits(s, h, next),
{
    let ext = choose|ext: Option<Seq<char>>| next == #[trigger] attachment_store::ref_step(
        s,
        path,
        ext,
        h,
        k,
    );
    lemma_name(
        s,
        match ext {
            Some(e) => e,
            None => s.ext@,
        },
    );
}

/// Whatever is asked on the way is about the content that is stored, and what is noted of the
/// attachment and handed out in the end is the attachment; a file is removed only where the content is
/// known in another place.
pub proof fn law_stored(s: Saving, h: Seq<StoreAnswer>, next: StoreAsk<Seq<char>>)
    requires
        attachment_store::save_step(s, h, next),
    ensures
        ask_fits(s, h, next),
{
    assert forall|path: Seq<char>, k: int|
        is_path(s, h, path) && #[trigger] attachment_store::ref_step_somehow(
            s,
            path,
            h,
            k,
            next,
        ) implies ask_fits(s, h, next) by {
        lemma_ref(s, path, h, k, next);
    }
    assert forall|j: int| 0 <= j < h.len() && #[trigger] known_at(h[j]) is Some implies is_path(
        s,
        h,
        known_at(h[j])->0,
    ) by {}
    if h.len() > 0 {
        assert(known_at(h[0]) == known_at(h[0]));
    }
    if h.len() > 3 {
        assert(known_at(h[3]) == known_at(h[3]));
    }
}

/// An attachment is handed out only after its use was noted, and a known content only after the time
/// of that use was noted with it.
pub proof fn law_noted(s: Saving, h: Seq<StoreAnswer>, next: StoreAsk<Seq<char>>)
    requires
        attachment_store::save_step(s, h, next),
        next matches StoreAsk::Finish(Ok(_)),
    ensures
        exists|n: int| 0 <= n < h.len() && #[trigger] notes_use(s, h.take(n)),
        known_at(h[0]) is Some ==> exists|n: int|
            0 <= n < h.len() && #[trigger] attachment_store::save_step(
                s,
                h.take(n),
                StoreAsk::TouchBlob { sha256: s.blob_sha256@, now: s.now },
            ),
{
    assert(h.len() > 0);
    if known_at(h[0]) is Some {
        let n: int = if h[1] == StoreAnswer::Exists(true) {
            2
        } else {
            3
        };
        let p = h.take(n);
        assert(p[0] == h[0] && p[1] == h[1]);
        if n == 3 {
            assert(p[2] == h[2]);
        }
        assert(attachment_store::save_step(
            s,
            p,
            StoreAsk::TouchBlob { sha256: s.blob_sha256@, now: s.now },
        ));
        let path = h[0]->Row_0->Ok_0->Some_0@;
        lemma_use(s, h, path, n + 1);
    } else {
        let path = match known_at(h[3]) {
            Some(q) => q,
            None => s.candidate(),
        };
        if path == s.candidate() {
            lemma_use(s, h, path, 4);
        } else if h[4] == StoreAnswer::Exists(true) {
            lemma_use(s, h, path, 6);
        } else {
            lemma_use(s, h, path, 7);
        }
    }
}

/// Whether the next thing asked is to note the use of the content.
pub open spec fn notes_use(s: Saving, h: Seq<StoreAnswer>) -> bool {
    exists|next: StoreAsk<Seq<char>>| #[trigger]
        attachment_store::save_step(s, h, next) && next is InsertRef
}

proof fn lemma_use(s: Saving, h: Seq<StoreAnswer>, path: Seq<char>, n: int)
    requires
        0 <= n < h.len(),
        forall|next: StoreAsk<Seq<char>>|
            attachment_store::ref_step_somehow(s, path, h.take(n), n, next)
                ==> #[trigger] attachment_store::save_step(s, h.take(n), next),
    ensures
        notes_use(s, h.take(n)),
{
    let ext = attachment_store::path_extension(path);
    let next = attachment_store::ref_step(s, path, ext, h.take(n), n);
    assert(attachment_store::ref_step_somehow(s, path, h.take(n), n, next));
    assert(attachment_store::save_step(s, h.take(n), next));
}

} // verus!
