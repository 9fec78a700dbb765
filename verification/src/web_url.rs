//! URLs, taken apart by the `url` crate.

use crate::channel;
use crate::text;
use vstd::prelude::*;

verus! {

/// What `url::Url::parse` makes of a text: the URL as `as_str` writes it, or the message of the
/// error where the text is no URL.
pub uninterp spec fn url_form(s: Seq<char>) -> Result<Seq<char>, Seq<char>>;

/// The path segments of the URL that a text spells; nothing where it spells none, or one without
/// segments.
pub uninterp spec fn url_segments(s: Seq<char>) -> Option<Seq<Seq<char>>>;

/// The decoded name-value pairs of the query of the URL that a text spells; nothing where it
/// spells none.
pub uninterp spec fn url_query(s: Seq<char>) -> Option<Seq<(Seq<char>, Seq<char>)>>;

/// The scheme of the URL that a text spells; nothing where it spells none.
pub uninterp spec fn url_scheme(s: Seq<char>) -> Option<Seq<char>>;

/// The host of the URL that a text spells, as `host_str` writes it; nothing where it spells none
/// or one without a host.
pub uninterp spec fn url_host(s: Seq<char>) -> Option<Seq<char>>;

/// What a list of strings in an option holds.
pub open spec fn list_view(v: Option<Vec<String>>) -> Option<Seq<Seq<char>>> {
    match v {
        Some(l) => Some(text::views(l@)),
        None => None,
    }
}

/// What a list of pairs holds.
pub open spec fn pairs_view(v: Seq<(String, String)>) -> Seq<(Seq<char>, Seq<char>)> {
    v.map_values(|p: (String, String)| (p.0@, p.1@))
}

/// What a list of pairs in an option holds.
pub open spec fn query_view(v: Option<Vec<(String, String)>>) -> Option<
    Seq<(Seq<char>, Seq<char>)>,
> {
    match v {
        Some(l) => Some(pairs_view(l@)),
        None => None,
    }
}

/// A text or an error message.
pub open spec fn said(r: Result<String, String>) -> Result<Seq<char>, Seq<char>> {
    match r {
        Ok(s) => Ok(s@),
        Err(e) => Err(e@),
    }
}

/// `url::Url::parse` reads a URL and `as_str` writes it; the URL and the message of an error
/// depend on the text alone.
#[verifier::external_body]
pub(crate) fn parse_url(s: &str) -> (r: Result<String, String>)
    ensures
        said(r) == url_form(s@),
{
    match url::Url::parse(s) {
        Ok(u) => Ok(u.as_str().to_string()),
        Err(e) => Err(e.to_string()),
    }
}

/// `url::Url::path_segments` of the URL that `url::Url::parse` reads, in order.
#[verifier::external_body]
pub(crate) fn path_segments(s: &str) -> (r: Option<Vec<String>>)
    ensures
        list_view(r) == url_segments(s@),
{
    let u = url::Url::parse(s).ok()?;
    u.path_segments().map(|p| p.map(|x| x.to_string()).collect())
}

/// `url::Url::query_pairs` of the URL that `url::Url::parse` reads, in order.
#[verifier::external_body]
pub(crate) fn query_pairs(s: &str) -> (r: Option<Vec<(String, String)>>)
    ensures
        query_view(r) == url_query(s@),
{
    let u = url::Url::parse(s).ok()?;
    Some(u.query_pairs().map(|(k, v)| (k.into_owned(), v.into_owned())).collect())
}

/// `url::Url::scheme` of the URL that `url::Url::parse` reads.
#[verifier::external_body]
pub(crate) fn scheme(s: &str) -> (r: Option<String>)
    ensures
        channel::opt_view(r) == url_scheme(s@),
{
    url::Url::parse(s).ok().map(|u| u.scheme().to_string())
}

/// `url::Url::host_str` of the URL that `url::Url::parse` reads.
#[verifier::external_body]
pub(crate) fn host(s: &str) -> (r: Option<String>)
    ensures
        channel::opt_view(r) == url_host(s@),
{
    let u = url::Url::parse(s).ok()?;
    u.host_str().map(|h| h.to_string())
}

/// An address below the base address, which may end in slashes.
pub open spec fn endpoint_of(base: Seq<char>, path: Seq<char>) -> Seq<char> {
    text::trim_end_char_of(base, '/') + path
}

/// An address below the base address, which may end in slashes.
pub fn endpoint(base: &str, path: &str) -> (r: String)
    ensures
        r@ == endpoint_of(base@, path@),
{
    let mut out = text::trim_end_char(base, '/').to_string();
    out.append(path);
    out
}

} // verus!
