//! What a fetch of a web page gives and where it asks, in terms of the answers.

use crate::channel;
use crate::json;
use crate::json::JsonView;
use crate::text;
use crate::tools::net;
use crate::tools::net::{IpAddress, Network};
use crate::tools::web_read;
use crate::tools::web_read::{Backend, Guard, PartsView, ReadActionView, ReadAnswer, ReadCallView, ReadReply, WebReadTool};
use vstd::prelude::*;

verus! {

/// The place of a backend in the order in which the backends are asked.
pub open spec fn place(b: Backend) -> int {
    match b {
        Backend::Jina => 0,
        Backend::Metaso => 1,
        Backend::Crawl4ai => 2,
        Backend::Pinchtab => 3,
    }
}

/// Whether a backend can be asked, by the settings.
pub open spec fn can_be_asked(t: WebReadTool, b: Backend) -> bool {
    match b {
        Backend::Jina => t.jina_key is Some,
        Backend::Metaso => t.metaso_key is Some,
        Backend::Crawl4ai => t.crawl4ai_endpoint@.len() > 0 && t.crawl4ai_token@.len() > 0,
        Backend::Pinchtab => text::trim_of(t.pinchtab_endpoint@).len() > 0 && text::trim_of(
            t.pinchtab_token@,
        ).len() > 0,
    }
}

/// Whether a request is the one to a backend about a page: it goes there, it names the page and it
/// carries the key of that backend.
pub open spec fn is_request_to(
    t: WebReadTool,
    b: Backend,
    url: Seq<char>,
    with_links: bool,
    call: ReadCallView,
) -> bool {
    match b {
        Backend::Jina => {
            &&& !call.call.post
            &&& call.call.url == "https://r.jina.ai/"@ + url
            &&& channel::opt_view(t.jina_key) == Some(call.key)
            &&& call.call.headers.contains(
                (
                    "x-with-links-summary"@,
                    if with_links {
                        "true"@
                    } else {
                        "false"@
                    },
                ),
            )
            &&& !call.document
        },
        Backend::Metaso => {
            &&& call.call.post
            &&& call.call.url == "https://metaso.cn/api/v1/reader"@
            &&& call.call.body matches Some(body)
            &&& body.text_at("url"@) == Some(url)
            &&& channel::opt_view(t.metaso_key) == Some(call.key)
            &&& !call.document
        },
        Backend::Crawl4ai => {
            &&& call.call.post
            &&& call.call.url == text::trim_end_char_of(t.crawl4ai_endpoint@, '/') + "/crawl"@
            &&& call.call.body matches Some(body)
            &&& body.items_at("urls"@) == Some(seq![JsonView::Text(url)])
            &&& call.key == t.crawl4ai_token@
            &&& call.document
        },
        Backend::Pinchtab => {
            &&& call.call.post
            &&& call.call.url == text::trim_end_char_of(t.pinchtab_endpoint@, '/') + "/api/fetch"@
            &&& call.call.body matches Some(body)
            &&& body.text_at("url"@) == Some(url)
            &&& call.key == t.pinchtab_token@
            &&& !call.document
        },
    }
}

proof fn lemma_request(t: WebReadTool, b: Backend, url: Seq<char>, with_links: bool)
    ensures
        web_read::request_of(t, b, url, with_links) is Ok <==> can_be_asked(t, b),
        web_read::request_of(t, b, url, with_links) matches Ok(call) ==> is_request_to(
            t,
            b,
            url,
            with_links,
            call,
        ),
{
    reveal_with_fuel(json::member_from, 3);
    reveal_strlit("url");
    reveal_strlit("urls");
    if let Ok(call) = web_read::request_of(t, b, url, with_links) {
        if b == Backend::Jina {
            assert(call.call.headers[3] == (
                "x-with-links-summary"@,
                if with_links {
                    "true"@
                } else {
                    "false"@
                },
            ));
        }
    }
}

/// The text that a reply of a backend brings: the whole of a text, for Metaso the member `content` of
/// the document that the text spells, if it has one; and what the first result of a document holds.
pub open spec fn brings(b: Backend, reply: ReadReply, content: Seq<char>) -> bool {
    match reply {
        ReadReply::Text(t) => match b {
            Backend::Jina => content == t@,
            Backend::Pinchtab => content == t@,
            Backend::Metaso => match json::document_of(t@) {
                Some(j) => match j.text_at("content"@) {
                    Some(inner) => content == inner,
                    None => content == t@,
                },
                None => content == t@,
            },
            Backend::Crawl4ai => false,
        },
        ReadReply::Document(d) => b == Backend::Crawl4ai && crawled(d@, content),
        _ => false,
    }
}

/// Whether a text is there and not empty.
pub open spec fn is_there(t: Option<Seq<char>>) -> bool {
    t matches Some(x) && x.len() > 0
}

/// Whether a text is that of the first result of a document, which did not fail: its markdown, or the
/// better or the raw form of it, the first that is not empty.
pub open spec fn crawled(d: JsonView, content: Seq<char>) -> bool {
    match d.items_at("results"@) {
        Some(items) => if items.len() == 0 {
            content.len() == 0
        } else {
            &&& items[0].truth_at("success"@) != Some(false)
            &&& match items[0].member("markdown"@) {
                None => content.len() == 0,
                Some(md) => if is_there(md.text()) {
                    md.text() == Some(content)
                } else if is_there(md.text_at("fit_markdown"@)) {
                    md.text_at("fit_markdown"@) == Some(content)
                } else if is_there(md.text_at("raw_markdown"@)) {
                    md.text_at("raw_markdown"@) == Some(content)
                } else {
                    content.len() == 0
                },
            }
        },
        None => content.len() == 0,
    }
}

/// Whether a text is what one of the replies of a backend brings.
pub open spec fn is_brought(b: Backend, h: Seq<ReadAnswer>, content: Seq<char>) -> bool {
    exists|n: int|
        0 <= n < h.len() && (h[n] matches ReadAnswer::Reply(_)) && #[trigger] brings(
            b,
            h[n]->Reply_0,
            content,
        )
}

pub(crate) proof fn lemma_brings(b: Backend, url: Seq<char>, reply: ReadReply, content: Seq<char>)
    requires
        web_read::content_of(b, url, reply) == Some(Ok::<Seq<char>, Seq<char>>(content)),
    ensures
        brings(b, reply, content),
{
    reveal_with_fuel(json::member_from, 2);
}

/// Whether a page is the result of a fetch: it names the backend, the URL, the number of bytes and
/// the text.
pub open spec fn is_page(page: JsonView, b: Backend, url: Seq<char>, content: Seq<char>) -> bool {
    &&& page.text_at("backend"@) == Some(
        match b {
            Backend::Jina => "jina"@,
            Backend::Metaso => "metaso"@,
            Backend::Crawl4ai => "crawl4ai"@,
            Backend::Pinchtab => "pinchtab"@,
        },
    )
    &&& page.text_at("url"@) == Some(url)
    &&& page.text_at("content"@) == Some(content)
    &&& page.unsigned_at("length"@) == Some(vstd::utf8::encode_utf8(content).len() as u64)
}

proof fn lemma_page(b: Backend, url: Seq<char>, content: Seq<char>)
    ensures
        is_page(web_read::page_of(b.label(), url, content), b, url, content),
{
    reveal_with_fuel(json::member_from, 5);
    reveal_strlit("backend");
    reveal_strlit("url");
    reveal_strlit("length");
    reveal_strlit("content");
    assert("length"@[0] == 'l');
    assert("content"@[0] == 'c');
    assert("backend"@[0] == 'b');
}

proof fn lemma_chain_at_end(
    t: WebReadTool,
    url: Seq<char>,
    with_links: bool,
    h: Seq<ReadAnswer>,
    b: Option<Backend>,
    errors: Seq<Seq<char>>,
)
    ensures
        ({
            let r = web_read::chain(t, url, with_links, h, h.len(), b, errors);
            r is Send || r is Fail
        }),
    decreases
            match b {
                Some(x) => x.rank(),
                None => 0,
            },
{
    if let Some(x) = b {
        if let Err(e) = web_read::request_of(t, x, url, with_links) {
            lemma_chain_at_end(
                t,
                url,
                with_links,
                h,
                x.following(),
                errors.push(web_read::blamed(x, e)),
            );
        }
    }
}

/// The backend that a request goes to, and what its reply leads to.
proof fn lemma_answered(
    t: WebReadTool,
    url: Seq<char>,
    with_links: bool,
    h: Seq<ReadAnswer>,
    k: nat,
    b: Option<Backend>,
    errors: Seq<Seq<char>>,
    call: ReadCallView,
) -> (x: Backend)
    requires
        k < h.len(),
        web_read::chain(t, url, with_links, h.drop_last(), k, b, errors) == ReadActionView::Send(call),
    ensures
        web_read::request_of(t, x, url, with_links) == Ok::<ReadCallView, Seq<char>>(call),
        web_read::chain(t, url, with_links, h, k, b, errors) matches ReadActionView::Done {
            page,
            fresh,
        } ==> fresh && (h.last() matches ReadAnswer::Reply(reply) && web_read::content_of(
            x,
            url,
            reply,
        ) matches Some(Ok(content)) && web_read::byte_len(content) >= t.min_chars && page
            == web_read::page_of(x.label(), url, content)),
        h.last() matches ReadAnswer::Reply(reply) ==> (web_read::content_of(x, url, reply)
            matches Some(Ok(content)) ==> (web_read::byte_len(content) >= t.min_chars
            ==> web_read::chain(t, url, with_links, h, k, b, errors) == (ReadActionView::Done {
            page: web_read::page_of(x.label(), url, content),
            fresh: true,
        }))),
    decreases
            match b {
                Some(x) => x.rank(),
                None => 0,
            },
{
    let p = h.drop_last();
    match b {
        None => Backend::Jina,
        Some(x) => match web_read::request_of(t, x, url, with_links) {
            Err(e) => lemma_answered(
                t,
                url,
                with_links,
                h,
                k,
                x.following(),
                errors.push(web_read::blamed(x, e)),
                call,
            ),
            Ok(own) => if k >= p.len() {
                assert(h[k as int] == h.last());
                if let ReadAnswer::Reply(reply) = h.last() {
                    lemma_chain_at_end(t, url, with_links, h, x.following(), errors);
                    if let Some(Err(e)) = web_read::content_of(x, url, reply) {
                        lemma_chain_at_end(
                            t,
                            url,
                            with_links,
                            h,
                            x.following(),
                            errors.push(web_read::blamed(x, e)),
                        );
                    }
                }
                x
            } else {
                assert(p[k as int] == h[k as int]);
                match h[k as int] {
                    ReadAnswer::Reply(reply) => match web_read::content_of(x, url, reply) {
                        Some(Ok(content)) => lemma_answered(
                            t,
                            url,
                            with_links,
                            h,
                            k + 1,
                            x.following(),
                            errors,
                            call,
                        ),
                        Some(Err(e)) => lemma_answered(
                            t,
                            url,
                            with_links,
                            h,
                            k + 1,
                            x.following(),
                            errors.push(web_read::blamed(x, e)),
                            call,
                        ),
                        None => x,
                    },
                    _ => x,
                }
            },
        },
    }
}

/// A page that a fetch ends with holds exactly the text of the reply that it came from, names the
/// backend that was asked and the page that was asked for, and counts the bytes of the text, which are
/// as many as are wanted at least.
pub proof fn law_page(
    t: WebReadTool,
    parts: PartsView,
    url: Seq<char>,
    with_links: bool,
    h: Seq<ReadAnswer>,
    call: ReadCallView,
    page: JsonView,
    fresh: bool,
)
    requires
        h.len() > 0,
        web_read::fetch_of(t, parts, url, with_links, h.drop_last()) == ReadActionView::Send(call),
        web_read::fetch_of(t, parts, url, with_links, h) == (ReadActionView::Done { page, fresh }),
    ensures
        fresh,
        h.last() matches ReadAnswer::Reply(reply) && exists|b: Backend, content: Seq<char>| #[trigger]
            is_page(page, b, url, content) && is_request_to(t, b, url, with_links, call) && brings(
                b,
                reply,
                content,
            ) && vstd::utf8::encode_utf8(content).len() >= t.min_chars,
{
    let p = h.drop_last();
    let k = lemma_guard_prefix(parts, t.ssrf_allowlist@, h);
    assert(p[k as int] == h[k as int]);
    let x = lemma_answered(
        t,
        url,
        with_links,
        h,
        k + 1,
        Some(Backend::Jina),
        Seq::empty(),
        call,
    );
    lemma_request(t, x, url, with_links);
    if let ReadAnswer::Reply(reply) = h.last() {
        if let Some(Ok(content)) = web_read::content_of(x, url, reply) {
            lemma_brings(x, url, reply, content);
            lemma_page(x, url, content);
            assert(is_page(page, x, url, content));
        }
    }
}

/// A backend was asked, so the check of the URL is over before the last answer.
proof fn lemma_guard_prefix(parts: PartsView, allowlist: Seq<Network>, h: Seq<ReadAnswer>) -> (k: nat)
    requires
        h.len() > 0,
        web_read::guard_of(parts, allowlist, h.drop_last()) matches Guard::Pass(n) && n
            < h.drop_last().len(),
    ensures
        k + 1 < h.len(),
        web_read::guard_of(parts, allowlist, h.drop_last()) == Guard::<ReadActionView, nat>::Pass(k),
        web_read::guard_of(parts, allowlist, h) == Guard::<ReadActionView, nat>::Pass(k),
{
    let p = h.drop_last();
    assert(p[0] == h[0]);
    if p.len() > 1 {
        assert(p[1] == h[1]);
    }
    match web_read::guard_of(parts, allowlist, p) {
        Guard::Pass(n) => n,
        Guard::Stop(a) => 0,
    }
}

proof fn lemma_chain_kinds(
    t: WebReadTool,
    url: Seq<char>,
    with_links: bool,
    h: Seq<ReadAnswer>,
    k: nat,
    b: Option<Backend>,
    errors: Seq<Seq<char>>,
)
    ensures
        !(web_read::chain(t, url, with_links, h, k, b, errors) is Cached),
    decreases
            match b {
                Some(x) => x.rank(),
                None => 0,
            },
{
    if let Some(x) = b {
        match web_read::request_of(t, x, url, with_links) {
            Err(e) => lemma_chain_kinds(
                t,
                url,
                with_links,
                h,
                k,
                x.following(),
                errors.push(web_read::blamed(x, e)),
            ),
            Ok(own) => if k < h.len() {
                if let ReadAnswer::Reply(reply) = h[k as int] {
                    lemma_chain_kinds(t, url, with_links, h, k + 1, x.following(), errors);
                    if let Some(Err(e)) = web_read::content_of(x, url, reply) {
                        lemma_chain_kinds(
                            t,
                            url,
                            with_links,
                            h,
                            k + 1,
                            x.following(),
                            errors.push(web_read::blamed(x, e)),
                        );
                    }
                }
            },
        }
    }
}

/// The page was looked for among those that are kept, so the check of the URL was over by then.
proof fn lemma_guard_over(
    t: WebReadTool,
    parts: PartsView,
    url: Seq<char>,
    with_links: bool,
    h: Seq<ReadAnswer>,
)
    requires
        h.len() > 0,
        web_read::fetch_of(t, parts, url, with_links, h.drop_last()) is Cached,
    ensures
        t.configured(),
        web_read::guard_of(parts, t.ssrf_allowlist@, h) == Guard::<ReadActionView, nat>::Pass(
            (h.len() - 1) as nat,
        ),
{
    let p = h.drop_last();
    assert(p.len() > 0);
    assert(p[0] == h[0]);
    match web_read::guard_of(parts, t.ssrf_allowlist@, p) {
        Guard::Pass(k) => {
            lemma_chain_kinds(t, url, with_links, p, k + 1, Some(Backend::Jina), Seq::empty());
            assert(k >= p.len());
            if k == 2 {
                assert(p[1] == h[1]);
            }
        },
        Guard::Stop(a) => {},
    }
}

/// A reply with a text that is long enough ends the fetch.
pub proof fn law_good_reply(
    t: WebReadTool,
    parts: PartsView,
    url: Seq<char>,
    with_links: bool,
    h: Seq<ReadAnswer>,
    call: ReadCallView,
    page: String,
)
    requires
        h.len() > 0,
        web_read::fetch_of(t, parts, url, with_links, h.drop_last()) == ReadActionView::Send(call),
        h.last() == ReadAnswer::Reply(ReadReply::Text(page)),
        vstd::utf8::encode_utf8(page@).len() >= t.min_chars,
        json::document_of(page@) is None,
        !call.document,
    ensures
        web_read::fetch_of(t, parts, url, with_links, h) matches ReadActionView::Done { page: p, fresh }
            && fresh && p.text_at("content"@) == Some(page@),
{
    let k = lemma_guard_prefix(parts, t.ssrf_allowlist@, h);
    assert(h.drop_last()[k as int] == h[k as int]);
    let x = lemma_answered(
        t,
        url,
        with_links,
        h,
        k + 1,
        Some(Backend::Jina),
        Seq::empty(),
        call,
    );
    lemma_request(t, x, url, with_links);
    lemma_page(x, url, page@);
}

/// A backend is asked only about a page whose host is no address that must not be reached, or has no
/// such address; and the request goes to a backend that can be asked, with its key, about that page.
pub proof fn law_request(
    t: WebReadTool,
    parts: PartsView,
    url: Seq<char>,
    with_links: bool,
    h: Seq<ReadAnswer>,
    call: ReadCallView,
)
    requires
        web_read::fetch_of(t, parts, url, with_links, h) == ReadActionView::Send(call),
    ensures
        exists|b: Backend| can_be_asked(t, b) && #[trigger] is_request_to(t, b, url, with_links, call),
        parts.form is Ok,
        h.len() > 0,
        (h[0] matches ReadAnswer::Literal(Some(ip)) && !net::blocked(ip, t.ssrf_allowlist@)) || (h[0]
            == ReadAnswer::Literal(None) && h.len() > 1 && (h[1] matches ReadAnswer::Addresses(Ok(list))
            && forall|j: int|
            0 <= j < list@.len() ==> !net::blocked((#[trigger] list@[j]).0, t.ssrf_allowlist@))),
{
    if let Guard::Pass(k) = web_read::guard_of(parts, t.ssrf_allowlist@, h) {
        lemma_sent(t, url, with_links, h, k + 1, Some(Backend::Jina), Seq::empty(), call);
        if h[0] == ReadAnswer::Literal(None) {
            if let ReadAnswer::Addresses(Ok(list)) = h[1] {
                assert forall|j: int| 0 <= j < list@.len() implies !net::blocked(
                    (#[trigger] list@[j]).0,
                    t.ssrf_allowlist@,
                ) by {
                    if net::blocked(list@[j].0, t.ssrf_allowlist@) {
                        web_read::law_lookup_guarded(t, parts, url, with_links, h, list, j);
                    }
                }
            }
        }
    }
}

proof fn lemma_sent(
    t: WebReadTool,
    url: Seq<char>,
    with_links: bool,
    h: Seq<ReadAnswer>,
    k: nat,
    b: Option<Backend>,
    errors: Seq<Seq<char>>,
    call: ReadCallView,
)
    requires
        web_read::chain(t, url, with_links, h, k, b, errors) == ReadActionView::Send(call),
    ensures
        exists|x: Backend| can_be_asked(t, x) && #[trigger] is_request_to(t, x, url, with_links, call),
    decreases
            match b {
                Some(x) => x.rank(),
                None => 0,
            },
{
    if let Some(x) = b {
        lemma_request(t, x, url, with_links);
        match web_read::request_of(t, x, url, with_links) {
            Err(e) => lemma_sent(
                t,
                url,
                with_links,
                h,
                k,
                x.following(),
                errors.push(web_read::blamed(x, e)),
                call,
            ),
            Ok(own) => if k >= h.len() {
                assert(is_request_to(t, x, url, with_links, call));
            } else if let ReadAnswer::Reply(reply) = h[k as int] {
                match web_read::content_of(x, url, reply) {
                    Some(Ok(content)) => lemma_sent(
                        t,
                        url,
                        with_links,
                        h,
                        k + 1,
                        x.following(),
                        errors,
                        call,
                    ),
                    Some(Err(e)) => lemma_sent(
                        t,
                        url,
                        with_links,
                        h,
                        k + 1,
                        x.following(),
                        errors.push(web_read::blamed(x, e)),
                        call,
                    ),
                    None => {},
                }
            },
        }
    }
}

/// Whether `b` is the first backend that can be asked, of those whose place is `from` or later.
pub open spec fn is_first_from(t: WebReadTool, from: int, b: Backend) -> bool {
    &&& place(b) >= from
    &&& can_be_asked(t, b)
    &&& forall|x: Backend| from <= #[trigger] place(x) < place(b) ==> !can_be_asked(t, x)
}

proof fn lemma_next(
    t: WebReadTool,
    url: Seq<char>,
    with_links: bool,
    h: Seq<ReadAnswer>,
    b: Option<Backend>,
    errors: Seq<Seq<char>>,
    first: Backend,
    from: int,
)
    requires
        from == (match b {
            Some(x) => place(x),
            None => 4,
        }),
        is_first_from(t, from, first),
    ensures
        web_read::chain(t, url, with_links, h, h.len(), b, errors) matches ReadActionView::Send(call)
            && is_request_to(t, first, url, with_links, call),
    decreases 4 - from,
{
    if let Some(x) = b {
        lemma_request(t, x, url, with_links);
        lemma_request(t, first, url, with_links);
        if x != first {
            assert(place(x) < place(first));
            let e = web_read::request_of(t, x, url, with_links)->Err_0;
            let next = x.following();
            assert forall|y: Backend|
                from + 1 <= #[trigger] place(y) < place(first) implies !can_be_asked(t, y) by {}
            lemma_next(
                t,
                url,
                with_links,
                h,
                next,
                errors.push(web_read::blamed(x, e)),
                first,
                from + 1,
            );
        }
    }
}

/// A page that is not there yet is asked for at the first backend, in the order Jina, Metaso, Crawl4AI
/// and Pinchtab, that can be asked.
pub proof fn law_first_backend(
    t: WebReadTool,
    parts: PartsView,
    url: Seq<char>,
    with_links: bool,
    h: Seq<ReadAnswer>,
    first: Backend,
)
    requires
        is_first_from(t, 0, first),
        h.len() > 0,
        web_read::fetch_of(t, parts, url, with_links, h.drop_last()) is Cached,
        h.last() == ReadAnswer::Cached(None),
    ensures
        web_read::fetch_of(t, parts, url, with_links, h) matches ReadActionView::Send(call)
            && is_request_to(t, first, url, with_links, call),
{
    lemma_guard_over(t, parts, url, with_links, h);
    lemma_next(t, url, with_links, h, Some(Backend::Jina), Seq::empty(), first, 0);
}

/// After a reply that brings no text, or too short a one, the next backend that can be asked is asked;
/// where there is none, the fetch fails.
pub proof fn law_next_backend(
    t: WebReadTool,
    parts: PartsView,
    url: Seq<char>,
    with_links: bool,
    h: Seq<ReadAnswer>,
    call: ReadCallView,
    message: String,
)
    requires
        h.len() > 0,
        web_read::fetch_of(t, parts, url, with_links, h.drop_last()) == ReadActionView::Send(call),
        h.last() == ReadAnswer::Reply(ReadReply::Failed(message)),
    ensures
        exists|b: Backend| #[trigger]
            is_request_to(t, b, url, with_links, call) && ((web_read::fetch_of(
                t,
                parts,
                url,
                with_links,
                h,
            ) is Fail && forall|x: Backend| place(x) > place(b) ==> !#[trigger] can_be_asked(t, x)) || (
            web_read::fetch_of(t, parts, url, with_links, h) matches ReadActionView::Send(next)
                && exists|x: Backend| #[trigger]
                is_first_from(t, place(b) + 1, x) && is_request_to(t, x, url, with_links, next))),
{
    let k = lemma_guard_prefix(parts, t.ssrf_allowlist@, h);
    assert(h.drop_last()[k as int] == h[k as int]);
    lemma_failed(t, url, with_links, h, k + 1, Some(Backend::Jina), Seq::empty(), call, message);
}

proof fn lemma_none_left(
    t: WebReadTool,
    url: Seq<char>,
    with_links: bool,
    h: Seq<ReadAnswer>,
    b: Option<Backend>,
    errors: Seq<Seq<char>>,
    from: int,
)
    requires
        from == (match b {
            Some(x) => place(x),
            None => 4,
        }),
        forall|x: Backend| place(x) >= from ==> !#[trigger] can_be_asked(t, x),
    ensures
        web_read::chain(t, url, with_links, h, h.len(), b, errors) is Fail,
    decreases 4 - from,
{
    if let Some(x) = b {
        lemma_request(t, x, url, with_links);
        assert(!can_be_asked(t, x));
        let e = web_read::request_of(t, x, url, with_links)->Err_0;
        lemma_none_left(
            t,
            url,
            with_links,
            h,
            x.following(),
            errors.push(web_read::blamed(x, e)),
            from + 1,
        );
    }
}

proof fn lemma_failed(
    t: WebReadTool,
    url: Seq<char>,
    with_links: bool,
    h: Seq<ReadAnswer>,
    k: nat,
    b: Option<Backend>,
    errors: Seq<Seq<char>>,
    call: ReadCallView,
    message: String,
)
    requires
        k < h.len(),
        web_read::chain(t, url, with_links, h.drop_last(), k, b, errors) == ReadActionView::Send(call),
        h.last() == ReadAnswer::Reply(ReadReply::Failed(message)),
    ensures
        exists|x: Backend| #[trigger]
            is_request_to(t, x, url, with_links, call) && ((web_read::chain(
                t,
                url,
                with_links,
                h,
                k,
                b,
                errors,
            ) is Fail && forall|y: Backend| place(y) > place(x) ==> !#[trigger] can_be_asked(t, y)) || (
            web_read::chain(t, url, with_links, h, k, b, errors) matches ReadActionView::Send(next)
                && exists|y: Backend| #[trigger]
                is_first_from(t, place(x) + 1, y) && is_request_to(t, y, url, with_links, next))),
    decreases
            match b {
                Some(x) => x.rank(),
                None => 0,
            },
{
    let p = h.drop_last();
    if let Some(x) = b {
        lemma_request(t, x, url, with_links);
        match web_read::request_of(t, x, url, with_links) {
            Err(e) => lemma_failed(
                t,
                url,
                with_links,
                h,
                k,
                x.following(),
                errors.push(web_read::blamed(x, e)),
                call,
                message,
            ),
            Ok(own) => if k >= p.len() {
                assert(h[k as int] == h.last());
                assert(is_request_to(t, x, url, with_links, call));
                let after = errors.push(web_read::blamed(x, message@));
                let next = x.following();
                let from = place(x) + 1;
                if forall|y: Backend| place(y) >= from ==> !#[trigger] can_be_asked(t, y) {
                    lemma_none_left(t, url, with_links, h, next, after, from);
                } else {
                    let first = if can_be_asked(t, Backend::Metaso) && from <= 1 {
                        Backend::Metaso
                    } else if can_be_asked(t, Backend::Crawl4ai) && from <= 2 {
                        Backend::Crawl4ai
                    } else {
                        Backend::Pinchtab
                    };
                    assert(is_first_from(t, from, first));
                    lemma_next(t, url, with_links, h, next, after, first, from);
                }
            } else {
                assert(p[k as int] == h[k as int]);
                if let ReadAnswer::Reply(reply) = h[k as int] {
                    match web_read::content_of(x, url, reply) {
                        Some(Ok(content)) => lemma_failed(
                            t,
                            url,
                            with_links,
                            h,
                            k + 1,
                            x.following(),
                            errors,
                            call,
                            message,
                        ),
                        Some(Err(e)) => lemma_failed(
                            t,
                            url,
                            with_links,
                            h,
                            k + 1,
                            x.following(),
                            errors.push(web_read::blamed(x, e)),
                            call,
                            message,
                        ),
                        None => {},
                    }
                }
            },
        }
    }
}

/// A page that is there already is handed out as it is and asked for nowhere.
pub proof fn law_kept_page(
    t: WebReadTool,
    parts: PartsView,
    url: Seq<char>,
    with_links: bool,
    h: Seq<ReadAnswer>,
    page: json::Json,
)
    requires
        h.len() > 0,
        web_read::fetch_of(t, parts, url, with_links, h.drop_last()) is Cached,
        h.last() == ReadAnswer::Cached(Some(page)),
    ensures
        web_read::fetch_of(t, parts, url, with_links, h) == (ReadActionView::Done {
            page: page@,
            fresh: false,
        }),
{
    lemma_guard_over(t, parts, url, with_links, h);
}

/// Pages are kept apart by their URL and by whether links are wanted.
pub proof fn law_kept_apart(url: Seq<char>, other: Seq<char>, a: bool, b: bool)
    requires
        url != other || a != b,
    ensures
        web_read::cache_key_of(url, a) != web_read::cache_key_of(other, b),
{
    reveal_strlit(":with_links=");
    reveal_strlit("true");
    reveal_strlit("false");
    let x = web_read::cache_key_of(url, a);
    let y = web_read::cache_key_of(other, b);
    if x == y {
        if a == b {
            let n = x.len() - 12 - (if a {
                4int
            } else {
                5
            });
            assert(url =~= x.take(n));
            assert(other =~= y.take(n));
        } else {
            let last = x.len() - 4;
            assert(x[last] == (if a {
                't'
            } else {
                'a'
            }));
            assert(y[last] == (if b {
                't'
            } else {
                'a'
            }));
        }
    }
}

/// What a call asks for is the URL in its parameters, trimmed, and links only where they are wanted.
pub proof fn law_read_request(params: JsonView)
    ensures
        web_read::read_request(params) is Ok <==> (params.text_at("url"@) matches Some(url)
            && text::trim_of(url).len() > 0),
        web_read::read_request(params) matches Ok(r) ==> Some(r.0) == (match params.text_at("url"@) {
            Some(url) => Some(text::trim_of(url)),
            None => None,
        }) && r.1 == (params.truth_at("with_links"@) == Some(true)),
{
}

/// The addresses that are not to be reached, unless a network is allowed that they lie in: loopback
/// and private ones, and those that are only valid on a link.
pub proof fn law_blocked(a: int, b: int, c: int, d: int, v4: u32, allowlist: Seq<Network>)
    requires
        0 <= a < 256,
        0 <= b < 256,
        0 <= c < 256,
        0 <= d < 256,
        v4 == a * 16_777_216 + b * 65_536 + c * 256 + d,
    ensures
        net::blocked(IpAddress::V4(v4), allowlist) <==> (a == 127 || a == 10 || (a == 192 && b == 168)
            || (a == 172 && 16 <= b <= 31) || (a == 169 && b == 254)) && !(exists|i: int|
            0 <= i < allowlist.len() && ((#[trigger] allowlist[i]).first matches IpAddress::V4(first)
                && allowlist[i].last matches IpAddress::V4(last) && first <= v4 <= last)),
{
    assert forall|i: int| 0 <= i < allowlist.len() implies net::in_network(
        #[trigger] allowlist[i],
        IpAddress::V4(v4),
    ) == (allowlist[i].first matches IpAddress::V4(first) && allowlist[i].last matches IpAddress::V4(
        last,
    ) && first <= v4 <= last) by {}
}

} // verus!
