//! What requests, refusals, warnings and addresses hold, in terms of what they are made of.

use crate::json;
use crate::json::JsonView;
use crate::text;
use crate::tools::accounts;
use crate::tools::accounts::{ApiKeyProviderConfig, Environment};
use crate::tools::ranking;
use crate::tools::requests;
use crate::tools::web_read;
use crate::tools::web_read::{Backend, ReadActionView, ReadAnswer, ReadReply, WebReadTool};
use crate::web_url;
use vstd::prelude::*;

verus! {

proof fn lemma_has(s: Seq<char>, p: Seq<char>, at: int)
    requires
        0 <= at,
        text::occurs_at(s, p, at),
    ensures
        text::has(s, p),
{
    text::lemma_find(s, p, 0);
}

proof fn lemma_within(before: Seq<char>, s: Seq<char>, after: Seq<char>, p: Seq<char>)
    requires
        text::has(s, p),
    ensures
        text::has(before + s + after, p),
{
    text::lemma_find(s, p, 0);
    let at = text::find_in(s, p)->0;
    let all = before + s + after;
    let from = before.len() + at;
    assert(all.subrange(from, from + p.len()) =~= s.subrange(at, at + p.len()));
    lemma_has(all, p, from);
}

proof fn lemma_self(s: Seq<char>)
    ensures
        text::has(s, s),
{
    assert(s.subrange(0, s.len() as int) =~= s);
    lemma_has(s, s, 0);
}

proof fn lemma_joined(parts: Seq<Seq<char>>, sep: Seq<char>, i: int)
    requires
        0 <= i < parts.len(),
    ensures
        text::has(text::join_of(parts, sep), parts[i]),
    decreases parts.len(),
{
    let none = Seq::<char>::empty();
    if parts.len() == 1 {
        lemma_self(parts[0]);
    } else {
        let rest = parts.drop_last();
        let before = text::join_of(rest, sep);
        if i < rest.len() {
            lemma_joined(rest, sep, i);
            lemma_within(none, before, sep + parts.last(), parts[i]);
            assert(none + before + (sep + parts.last()) =~= text::join_of(parts, sep));
        } else {
            lemma_self(parts[i]);
            lemma_within(before + sep, parts[i], none, parts[i]);
            assert(before + sep + parts[i] + none =~= text::join_of(parts, sep));
        }
    }
}

// ---- texts ----

/// A shortened text is the start of the text, as long as is allowed, and the whole text where that is
/// not too long.
pub proof fn law_shortened(s: Seq<char>, max: nat)
    ensures
        text::begins(s, requests::shortened(s, max)),
        requests::shortened(s, max).len() <= max,
        requests::shortened(s, max).len() == max || requests::shortened(s, max) == s,
{
    let t = requests::shortened(s, max);
    assert(s.subrange(0, t.len() as int) =~= t);
}

/// A refusal tells who refused, with which status, and what was said.
pub proof fn law_refusal(label: Seq<char>, status: Seq<char>, body: Seq<char>)
    ensures
        text::begins(requests::refusal(label, status, body), label),
        text::has(requests::refusal(label, status, body), status),
        text::ends(requests::refusal(label, status, body), body),
{
    let t = requests::refusal(label, status, body);
    assert(t.subrange(0, label.len() as int) =~= label);
    assert(t.subrange(t.len() - body.len(), t.len() as int) =~= body);
    let n: int = label.len() + " "@.len() as int;
    assert(t.subrange(n, n + status.len()) =~= status);
    lemma_has(t, status, n);
}

proof fn lemma_pushed(
    members: Seq<(Seq<char>, JsonView)>,
    name: Seq<char>,
    value: JsonView,
    other: Seq<char>,
    i: int,
)
    requires
        0 <= i <= members.len(),
    ensures
        json::member_from(members.push((name, value)), other, i) == match json::member_from(
            members,
            other,
            i,
        ) {
            Some(v) => Some(v),
            None => if other == name {
                Some(value)
            } else {
                None
            },
        },
    decreases members.len() - i,
{
    reveal_with_fuel(json::member_from, 2);
    if i < members.len() {
        lemma_pushed(members, name, value, other, i + 1);
    }
}

/// Warnings stand beside a result, each as it was given; everything that the result holds stays as it
/// was, and without warnings nothing changes.
pub proof fn law_warnings(warnings: Seq<Seq<char>>, output: JsonView, other: Seq<char>)
    requires
        output is Object,
        output.member("warnings"@) is None,
        other != "warnings"@,
    ensures
        ({
            let r = requests::with_warnings(warnings, output);
            &&& r.member(other) == output.member(other)
            &&& warnings.len() == 0 ==> r == output
            &&& warnings.len() > 0 ==> {
                &&& r.items_at("warnings"@) matches Some(items)
                &&& items.len() == warnings.len()
                &&& forall|i: int|
                    0 <= i < items.len() ==> (#[trigger] items[i]).text() == Some(warnings[i])
            }
        }),
{
    let w = JsonView::Array(json::text_values(warnings));
    lemma_pushed(output->Object_0, "warnings"@, w, other, 0);
    lemma_pushed(output->Object_0, "warnings"@, w, "warnings"@, 0);
}

// ---- addresses ----

/// An address below a base address is the base without the slashes at its end, and the path after it.
pub proof fn law_endpoint(base: Seq<char>, path: Seq<char>)
    ensures
        text::ends(web_url::endpoint_of(base, path), path),
        base.len() > 0 && base.last() != '/' ==> web_url::endpoint_of(base, path) == base + path,
        web_url::endpoint_of(base.push('/'), path) == web_url::endpoint_of(base, path),
{
    let slash = text::exactly('/');
    let e = web_url::endpoint_of(base, path);
    assert(e.subrange(e.len() - path.len(), e.len() as int) =~= path);
    text::lemma_trail_bounds(base, slash);
    if base.len() > 0 && base.last() != '/' {
        text::lemma_trail(base, slash, 0);
        assert(base.take(base.len() as int) =~= base);
    }
    let longer = base.push('/');
    assert(longer.drop_last() =~= base);
    assert(text::trail(longer, slash) == 1 + text::trail(base, slash));
    let n = base.len() - text::trail(base, slash);
    assert(longer.take(n) =~= base.take(n));
}

/// The domain of an address stands between its first two slashes and the next one.
pub proof fn law_domain(scheme: Seq<char>, domain: Seq<char>, path: Seq<char>)
    requires
        forall|i: int| 0 <= i < scheme.len() ==> #[trigger] scheme[i] != '/',
        forall|i: int| 0 <= i < domain.len() ==> #[trigger] domain[i] != '/',
    ensures
        ranking::domain_of(scheme + "//"@ + domain + "/"@ + path) == domain,
{
    reveal_strlit("//");
    reveal_strlit("/");
    let url = scheme + "//"@ + domain + "/"@ + path;
    let n: int = scheme.len() as int;
    assert(url.subrange(n, n + 2) =~= "//"@);
    text::lemma_find(url, "//"@, 0);
    let at = text::find_in(url, "//"@)->0;
    assert(text::occurs_at(url, "//"@, n));
    if at < n {
        assert(url.subrange(at, at + 2)[0] == url[at]);
        assert(url[at] == scheme[at]);
    }
    assert(at == n);
    let rest = url.skip(n + 2);
    assert(rest =~= domain + "/"@ + path);
    assert forall|i: int| 0 <= i < domain.len() implies text::all_but('/')(#[trigger] rest[i]) by {
        assert(rest[i] == domain[i]);
    }
    assert(rest[domain.len() as int] == '/');
    text::lemma_lead(rest, text::all_but('/'), domain.len() as int);
    assert(rest.take(domain.len() as int) =~= domain);
}

// ---- keys ----

/// The key of a provider that is used alone is the key of the first entry that is enabled and not
/// blank; one that is switched off has none.
pub proof fn law_first_key(p: ApiKeyProviderConfig, i: int)
    requires
        0 <= i < p.accounts@.len(),
        p.accounts@[i].enabled,
        text::trim_of(p.accounts@[i].api_key@).len() > 0,
        forall|j: int|
            0 <= j < i ==> !(#[trigger] p.accounts@[j]).enabled || text::trim_of(
                p.accounts@[j].api_key@,
            ).len() == 0,
    ensures
        p.enabled ==> accounts::first_key_of(p) == Some(p.accounts@[i].api_key@),
        !p.enabled ==> accounts::first_key_of(p) is None,
{
    lemma_usable(p.accounts@, i);
}

proof fn lemma_usable(entries: Seq<accounts::ApiKeyEntry>, i: int)
    requires
        0 <= i < entries.len(),
        accounts::is_usable(entries[i]),
        forall|j: int| 0 <= j < i ==> !accounts::is_usable(#[trigger] entries[j]),
    ensures
        accounts::usable_keys(entries).len() > 0,
        accounts::usable_keys(entries)[0] == (entries[i].name@, entries[i].api_key@),
    decreases entries.len(),
{
    let rest = entries.drop_last();
    if i < rest.len() {
        lemma_usable(rest, i);
    } else {
        lemma_unusable(rest);
    }
}

proof fn lemma_unusable(entries: Seq<accounts::ApiKeyEntry>)
    requires
        forall|j: int| 0 <= j < entries.len() ==> !accounts::is_usable(#[trigger] entries[j]),
    ensures
        accounts::usable_keys(entries).len() == 0,
    decreases entries.len(),
{
    if entries.len() > 0 {
        lemma_unusable(entries.drop_last());
    }
}

/// Whether a variable is the first one of its name.
pub open spec fn is_first(pairs: Seq<(String, String)>, name: Seq<char>, i: int) -> bool {
    &&& 0 <= i < pairs.len()
    &&& pairs[i].0@ == name
    &&& forall|j: int| 0 <= j < i ==> (#[trigger] pairs[j]).0@ != name
}

proof fn lemma_value(pairs: Seq<(String, String)>, name: Seq<char>, i: int, j: int)
    requires
        0 <= j <= i <= pairs.len(),
        forall|m: int| 0 <= m < i ==> (#[trigger] pairs[m]).0@ != name,
        i < pairs.len() ==> pairs[i].0@ == name,
    ensures
        accounts::value_from(web_url::pairs_view(pairs), name, j) == if i < pairs.len() {
            Some(pairs[i].1@)
        } else {
            None
        },
    decreases i - j,
{
    if j < i {
        assert(pairs[j].0@ != name);
        lemma_value(pairs, name, i, j + 1);
    }
}

/// A variable has the value that the process has for it; only where that has none, the one that is
/// added counts.
pub proof fn law_environment(env: Environment, name: Seq<char>, i: int)
    ensures
        is_first(env.process@, name, i) ==> env.value(name) == Some(env.process@[i].1@),
        (forall|m: int| 0 <= m < env.process@.len() ==> (#[trigger] env.process@[m]).0@ != name)
            && is_first(env.overrides@, name, i) ==> env.value(name) == Some(env.overrides@[i].1@),
{
    if is_first(env.process@, name, i) {
        lemma_value(env.process@, name, i, 0);
    }
    if (forall|m: int| 0 <= m < env.process@.len() ==> (#[trigger] env.process@[m]).0@ != name)
        && is_first(env.overrides@, name, i) {
        lemma_value(env.process@, name, env.process@.len() as int, 0);
        lemma_value(env.overrides@, name, i, 0);
    }
}

// ---- failures ----

proof fn lemma_kept_errors(
    t: WebReadTool,
    url: Seq<char>,
    with_links: bool,
    h: Seq<ReadAnswer>,
    k: nat,
    b: Option<Backend>,
    errors: Seq<Seq<char>>,
    i: int,
)
    requires
        0 <= i < errors.len(),
    ensures
        web_read::chain(t, url, with_links, h, k, b, errors) matches ReadActionView::Fail(m)
            ==> text::has(m, errors[i]),
    decreases
            match b {
                Some(x) => x.rank(),
                None => 0,
            },
{
    match b {
        None => {
            let head = "all backends failed: "@;
            let joined = text::join_of(errors, "; "@);
            lemma_joined(errors, "; "@, i);
            lemma_within(head, joined, Seq::empty(), errors[i]);
            assert(head + joined + Seq::empty() =~= head + joined);
        },
        Some(x) => match web_read::request_of(t, x, url, with_links) {
            Err(e) => lemma_kept_errors(
                t,
                url,
                with_links,
                h,
                k,
                x.following(),
                errors.push(web_read::blamed(x, e)),
                i,
            ),
            Ok(call) => if k < h.len() {
                if let ReadAnswer::Reply(reply) = h[k as int] {
                    match web_read::content_of(x, url, reply) {
                        None => {},
                        Some(Ok(content)) => lemma_kept_errors(
                            t,
                            url,
                            with_links,
                            h,
                            k + 1,
                            x.following(),
                            errors,
                            i,
                        ),
                        Some(Err(e)) => lemma_kept_errors(
                            t,
                            url,
                            with_links,
                            h,
                            k + 1,
                            x.following(),
                            errors.push(web_read::blamed(x, e)),
                            i,
                        ),
                    }
                }
            },
        },
    }
}

/// Where all backends fail, the failure tells of each one that failed: which one it was, and the error
/// or the status that it gave.
pub proof fn law_failures_told(
    t: WebReadTool,
    url: Seq<char>,
    with_links: bool,
    h: Seq<ReadAnswer>,
    k: nat,
    x: Backend,
    errors: Seq<Seq<char>>,
    m: Seq<char>,
)
    requires
        web_read::request_of(t, x, url, with_links) is Ok,
        k < h.len(),
        web_read::chain(t, url, with_links, h, k, Some(x), errors) == ReadActionView::Fail(m),
    ensures
        h[k as int] matches ReadAnswer::Reply(ReadReply::Failed(e)) ==> text::has(
            m,
            x.label() + ": "@ + e@,
        ),
        h[k as int] matches ReadAnswer::Reply(ReadReply::Refused { status, body }) ==> text::has(
            m,
            status@,
        ) && text::has(m, x.label() + ": "@),
{
    if let ReadAnswer::Reply(reply) = h[k as int] {
        if let Some(Err(e)) = web_read::content_of(x, url, reply) {
            let mine = web_read::blamed(x, e);
            let all = errors.push(mine);
            lemma_kept_errors(t, url, with_links, h, k + 1, x.following(), all, errors.len() as int);
            assert(text::has(m, mine));
            if let ReadReply::Refused { status, body } = reply {
                let head = x.label() + ": "@;
                let none = Seq::<char>::empty();
                let (label, said) = match x {
                    Backend::Jina => ("Jina"@, requests::shortened(body@, 200)),
                    Backend::Metaso => ("Metaso"@, requests::shortened(body@, 200)),
                    Backend::Crawl4ai => ("Crawl4AI"@, url),
                    Backend::Pinchtab => ("Pinchtab"@, requests::shortened(body@, 200)),
                };
                law_refusal(label, status@, said);
                lemma_within(head, e, none, status@);
                assert(head + e + none =~= mine);
                lemma_inside(m, mine, status@);
                lemma_self(head);
                lemma_within(none, head, e, head);
                assert(none + head + e =~= mine);
                lemma_inside(m, mine, head);
            }
        }
    }
}

/// What occurs in a part of a text occurs in the text.
proof fn lemma_inside(s: Seq<char>, part: Seq<char>, p: Seq<char>)
    requires
        text::has(s, part),
        text::has(part, p),
    ensures
        text::has(s, p),
{
    text::lemma_find(s, part, 0);
    text::lemma_find(part, p, 0);
    let a = text::find_in(s, part)->0;
    let b = text::find_in(part, p)->0;
    assert(s.subrange(a + b, a + b + p.len()) =~= s.subrange(a, a + part.len()).subrange(
        b,
        b + p.len(),
    ));
    lemma_has(s, p, a + b);
}

} // verus!
