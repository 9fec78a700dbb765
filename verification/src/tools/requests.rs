//! Requests that a tool asks its host to send, and the replies.

use crate::json;
use crate::json::{Json, JsonView};
use crate::text;
use crate::web_url;
use vstd::prelude::*;

verus! {

/// A request: whether it is a POST or a GET, its address, headers, query and JSON body.
#[derive(Debug)]
pub struct HttpCall {
    pub post: bool,
    pub url: String,
    pub headers: Vec<(String, String)>,
    pub query: Vec<(String, String)>,
    pub body: Option<Json>,
}

/// What a request holds.
pub struct CallView {
    pub post: bool,
    pub url: Seq<char>,
    pub headers: Seq<(Seq<char>, Seq<char>)>,
    pub query: Seq<(Seq<char>, Seq<char>)>,
    pub body: Option<JsonView>,
}

impl View for HttpCall {
    type V = CallView;

    open spec fn view(&self) -> CallView {
        CallView {
            post: self.post,
            url: self.url@,
            headers: web_url::pairs_view(self.headers@),
            query: web_url::pairs_view(self.query@),
            body: match self.body {
                Some(j) => Some(j@),
                None => None,
            },
        }
    }
}

/// A POST request with a JSON body and nothing else.
pub open spec fn post_of(url: Seq<char>, body: JsonView) -> CallView {
    CallView { post: true, url, headers: Seq::empty(), query: Seq::empty(), body: Some(body) }
}

/// A POST request with a JSON body and nothing else.
pub fn post(url: &str, body: Json) -> (r: HttpCall)
    ensures
        r@ == post_of(url@, body@),
{
    let r = HttpCall {
        post: true,
        url: url.to_string(),
        headers: Vec::new(),
        query: Vec::new(),
        body: Some(body),
    };
    assert(r@.headers =~= Seq::empty());
    assert(r@.query =~= Seq::empty());
    r
}

/// Puts a pair at the end of a list.
pub fn push_pair(pairs: &mut Vec<(String, String)>, name: &str, value: &str)
    ensures
        web_url::pairs_view(final(pairs)@) == web_url::pairs_view(old(pairs)@).push((name@, value@)),
{
    let p = (name.to_string(), value.to_string());
    pairs.push(p);
    assert(web_url::pairs_view(pairs@) =~= web_url::pairs_view(old(pairs)@).push((p.0@, p.1@)));
}

/// Puts a member at the end of an object.
pub fn push_member(members: &mut Vec<(String, Json)>, name: &str, value: Json)
    ensures
        json::member_views(final(members)@) == json::member_views(old(members)@).push(
            (name@, value@),
        ),
{
    let m = (name.to_string(), value);
    members.push(m);
    assert(json::member_views(members@) =~= json::member_views(old(members)@).push(
        (m.0@, m.1@),
    ));
}

/// What came back for a request.
#[derive(Debug)]
pub enum Reply {
    /// Nothing: the message of the error.
    Failed(String),
    /// A status that is no success: its code, how it is written, and the body.
    Refused { code: u16, status: String, body: String },
    /// A success whose body broke off: the message of the error.
    Lost(String),
    /// A success and its body.
    Body(Vec<u8>),
}

/// The message of a status that is no success.
pub open spec fn refusal(label: Seq<char>, status: Seq<char>, body: Seq<char>) -> Seq<char> {
    label + " "@ + status + " — "@ + body
}

/// The message of a status that is no success.
pub fn refused(label: &str, status: &str, body: &str) -> (r: String)
    ensures
        r@ == refusal(label@, status@, body@),
{
    let mut out = label.to_string();
    out.append(" ");
    out.append(status);
    out.append(" — ");
    out.append(body);
    out
}

/// The first `max` characters of a text.
pub open spec fn shortened(s: Seq<char>, max: nat) -> Seq<char> {
    if s.len() <= max {
        s
    } else {
        s.take(max as int)
    }
}

/// The first `max` characters of a text.
pub fn truncate(s: &str, max: usize) -> (r: &str)
    ensures
        r@ == shortened(s@, max as nat),
{
    let n: usize = s.unicode_len();
    if n <= max {
        s
    } else {
        assert(s@.take(max as int) =~= s@.subrange(0, max as int));
        s.substring_char(0, max)
    }
}

// ---- warnings beside a result ----

/// A result with warnings beside it: a member `warnings` of an object that has none yet; a value
/// that is no object becomes the member `data` of one.
pub open spec fn with_warnings(warnings: Seq<Seq<char>>, output: JsonView) -> JsonView {
    let w = JsonView::Array(json::text_values(warnings));
    if warnings.len() == 0 {
        output
    } else {
        match output {
            JsonView::Object(members) => if output.member("warnings"@) is Some {
                output
            } else {
                JsonView::Object(members.push(("warnings"@, w)))
            },
            _ => JsonView::Object(seq![("data"@, output), ("warnings"@, w)]),
        }
    }
}

/// A result with warnings beside it.
pub fn add_warnings(warnings: &Vec<String>, output: Json) -> (r: Json)
    ensures
        r@ == with_warnings(text::views(warnings@), output@),
{
    if warnings.len() == 0 {
        return output;
    }
    let present = output.get("warnings").is_some();
    let w = Json::of_texts(warnings);
    let ghost before = output@;
    match output {
        Json::Object(members) => {
            let mut members = members;
            assert(before->Object_0 =~= json::member_views(members@));
            if !present {
                push_member(&mut members, "warnings", w);
            }
            Json::of_members(members)
        },
        other => {
            let mut members: Vec<(String, Json)> = Vec::new();
            push_member(&mut members, "data", other);
            push_member(&mut members, "warnings", w);
            assert(json::member_views(members@) =~= seq![
                ("data"@, before),
                ("warnings"@, JsonView::Array(json::text_values(text::views(warnings@)))),
            ]);
            Json::of_members(members)
        },
    }
}

} // verus!
