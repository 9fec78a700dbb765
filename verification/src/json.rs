//! JSON documents as plain values.

use crate::text;
use vstd::prelude::*;

verus! {

/// A JSON value. An object is a list of members whose names differ.
#[derive(Debug)]
pub enum Json {
    Null,
    Bool(bool),
    /// A number: its value if that is an unsigned 64-bit integer, and its text.
    Number(Option<u64>, String),
    Text(String),
    Array(Vec<Json>),
    Object(Vec<(String, Json)>),
}

/// What a JSON value holds.
pub enum JsonView {
    Null,
    Bool(bool),
    Number(Option<u64>, Seq<char>),
    Text(Seq<char>),
    Array(Seq<JsonView>),
    Object(Seq<(Seq<char>, JsonView)>),
}

/// What a JSON value holds.
pub open spec fn model(j: Json) -> JsonView
    decreases j,
{
    match j {
        Json::Null => JsonView::Null,
        Json::Bool(b) => JsonView::Bool(b),
        Json::Number(n, t) => JsonView::Number(n, t@),
        Json::Text(t) => JsonView::Text(t@),
        Json::Array(items) => JsonView::Array(
            Seq::new(
                items@.len(),
                |i: int|
                    if 0 <= i < items@.len() {
                        model(items@[i])
                    } else {
                        JsonView::Null
                    },
            ),
        ),
        Json::Object(members) => JsonView::Object(
            Seq::new(
                members@.len(),
                |i: int|
                    if 0 <= i < members@.len() {
                        (members@[i].0@, model(members@[i].1))
                    } else {
                        (Seq::empty(), JsonView::Null)
                    },
            ),
        ),
    }
}

impl View for Json {
    type V = JsonView;

    open spec fn view(&self) -> JsonView {
        model(*self)
    }
}

/// What a list of JSON values holds.
pub open spec fn views(items: Seq<Json>) -> Seq<JsonView> {
    items.map_values(|j: Json| j@)
}

/// The first member called `name` at or after the position `i`.
pub open spec fn member_from(
    members: Seq<(Seq<char>, JsonView)>,
    name: Seq<char>,
    i: int,
) -> Option<JsonView>
    decreases members.len() - i,
{
    if i < 0 || i >= members.len() {
        None
    } else if members[i].0 == name {
        Some(members[i].1)
    } else {
        member_from(members, name, i + 1)
    }
}

impl JsonView {
    /// The member `name` of an object.
    pub open spec fn member(self, name: Seq<char>) -> Option<JsonView> {
        match self {
            JsonView::Object(members) => member_from(members, name, 0),
            _ => None,
        }
    }

    /// The characters of a text.
    pub open spec fn text(self) -> Option<Seq<char>> {
        match self {
            JsonView::Text(t) => Some(t),
            _ => None,
        }
    }

    /// The value of an unsigned integer.
    pub open spec fn unsigned(self) -> Option<u64> {
        match self {
            JsonView::Number(n, _) => n,
            _ => None,
        }
    }

    /// A truth value.
    pub open spec fn truth(self) -> Option<bool> {
        match self {
            JsonView::Bool(b) => Some(b),
            _ => None,
        }
    }

    /// The items of an array.
    pub open spec fn items(self) -> Option<Seq<JsonView>> {
        match self {
            JsonView::Array(items) => Some(items),
            _ => None,
        }
    }

    /// The text that the member `name` holds.
    pub open spec fn text_at(self, name: Seq<char>) -> Option<Seq<char>> {
        match self.member(name) {
            Some(v) => v.text(),
            None => None,
        }
    }

    /// The unsigned integer that the member `name` holds.
    pub open spec fn unsigned_at(self, name: Seq<char>) -> Option<u64> {
        match self.member(name) {
            Some(v) => v.unsigned(),
            None => None,
        }
    }

    /// The truth value that the member `name` holds.
    pub open spec fn truth_at(self, name: Seq<char>) -> Option<bool> {
        match self.member(name) {
            Some(v) => v.truth(),
            None => None,
        }
    }

    /// The array that the member `name` holds.
    pub open spec fn items_at(self, name: Seq<char>) -> Option<Seq<JsonView>> {
        match self.member(name) {
            Some(v) => v.items(),
            None => None,
        }
    }
}

/// The text in an option.
pub open spec fn text_view(t: Option<&str>) -> Option<Seq<char>> {
    match t {
        Some(s) => Some(s@),
        None => None,
    }
}

/// The JSON value in an option.
pub open spec fn json_view(j: Option<&Json>) -> Option<JsonView> {
    match j {
        Some(v) => Some(v@),
        None => None,
    }
}

impl Json {
    /// The member `name` of an object.
    pub fn get(&self, name: &str) -> (r: Option<&Json>)
        ensures
            json_view(r) == self@.member(name@),
    {
        match self {
            Json::Object(members) => {
                let ghost all = self@->Object_0;
                let mut i: usize = 0;
                while i < members.len()
                    invariant
                        i <= members@.len(),
                        self@ == JsonView::Object(all),
                        all.len() == members@.len(),
                        forall|k: int|
                            0 <= k < all.len() ==> #[trigger] all[k] == (
                                members@[k].0@,
                                members@[k].1@,
                            ),
                        member_from(all, name@, 0) == member_from(all, name@, i as int),
                    decreases members@.len() - i,
                {
                    if text::str_eq(members[i].0.as_str(), name) {
                        return Some(&members[i].1);
                    }
                    i += 1;
                }
                None
            },
            _ => None,
        }
    }

    /// The characters of a text.
    pub fn as_str(&self) -> (r: Option<&str>)
        ensures
            text_view(r) == self@.text(),
    {
        match self {
            Json::Text(t) => Some(t.as_str()),
            _ => None,
        }
    }

    /// The value of an unsigned integer.
    pub fn as_u64(&self) -> (r: Option<u64>)
        ensures
            r == self@.unsigned(),
    {
        match self {
            Json::Number(n, _) => *n,
            _ => None,
        }
    }

    /// A truth value.
    pub fn as_bool(&self) -> (r: Option<bool>)
        ensures
            r == self@.truth(),
    {
        match self {
            Json::Bool(b) => Some(*b),
            _ => None,
        }
    }

    /// The items of an array.
    pub fn as_array(&self) -> (r: Option<&Vec<Json>>)
        ensures
            r matches Some(items) ==> self@.items() == Some(views(items@)),
            r is None <==> self@.items() is None,
    {
        match self {
            Json::Array(items) => {
                assert(views(items@) =~= self@->Array_0);
                Some(items)
            },
            _ => None,
        }
    }

    /// The text that the member `name` holds.
    pub fn text_at(&self, name: &str) -> (r: Option<&str>)
        ensures
            text_view(r) == self@.text_at(name@),
    {
        match self.get(name) {
            Some(v) => v.as_str(),
            None => None,
        }
    }

    /// The unsigned integer that the member `name` holds.
    pub fn unsigned_at(&self, name: &str) -> (r: Option<u64>)
        ensures
            r == self@.unsigned_at(name@),
    {
        match self.get(name) {
            Some(v) => v.as_u64(),
            None => None,
        }
    }

    /// The truth value that the member `name` holds.
    pub fn truth_at(&self, name: &str) -> (r: Option<bool>)
        ensures
            r == self@.truth_at(name@),
    {
        match self.get(name) {
            Some(v) => v.as_bool(),
            None => None,
        }
    }

    /// The array that the member `name` holds.
    pub fn items_at(&self, name: &str) -> (r: Option<&Vec<Json>>)
        ensures
            r matches Some(items) ==> self@.items_at(name@) == Some(views(items@)),
            r is None <==> self@.items_at(name@) is None,
    {
        match self.get(name) {
            Some(v) => v.as_array(),
            None => None,
        }
    }
}

// ---- building values ----

/// What a list of members holds.
pub open spec fn member_views(members: Seq<(String, Json)>) -> Seq<(Seq<char>, JsonView)> {
    members.map_values(|m: (String, Json)| (m.0@, m.1@))
}

/// The texts of a list, as JSON values.
pub open spec fn text_values(texts: Seq<Seq<char>>) -> Seq<JsonView> {
    texts.map_values(|t: Seq<char>| JsonView::Text(t))
}

/// The JSON number of an unsigned integer.
pub open spec fn number_value(n: u64) -> JsonView {
    JsonView::Number(Some(n), text::decimal(n as nat))
}

impl Json {
    /// A text.
    pub fn of_text(s: &str) -> (r: Json)
        ensures
            r@ == JsonView::Text(s@),
    {
        Json::Text(s.to_string())
    }

    /// An unsigned integer.
    pub fn of_number(n: u64) -> (r: Json)
        ensures
            r@ == number_value(n),
    {
        Json::Number(Some(n), text::decimal_text(n))
    }

    /// An array.
    pub fn of_items(items: Vec<Json>) -> (r: Json)
        ensures
            r@ == JsonView::Array(views(items@)),
    {
        let r = Json::Array(items);
        assert(r@->Array_0 =~= views(items@));
        r
    }

    /// An object.
    pub fn of_members(members: Vec<(String, Json)>) -> (r: Json)
        ensures
            r@ == JsonView::Object(member_views(members@)),
    {
        let r = Json::Object(members);
        assert(r@->Object_0 =~= member_views(members@));
        r
    }

    /// An array of texts.
    pub fn of_texts(texts: &Vec<String>) -> (r: Json)
        ensures
            r@ == JsonView::Array(text_values(text::views(texts@))),
    {
        let mut items: Vec<Json> = Vec::new();
        let mut i: usize = 0;
        while i < texts.len()
            invariant
                i <= texts@.len(),
                items@.len() == i,
                forall|k: int|
                    0 <= k < i ==> (#[trigger] items@[k])@ == JsonView::Text(texts@[k]@),
            decreases texts@.len() - i,
        {
            items.push(Json::of_text(texts[i].as_str()));
            i += 1;
        }
        assert(views(items@) =~= text_values(text::views(texts@)));
        Json::of_items(items)
    }

    /// A copy of the value.
    pub fn copy(&self) -> (r: Json)
        ensures
            r@ == self@,
        decreases self,
    {
        match self {
            Json::Null => Json::Null,
            Json::Bool(b) => Json::Bool(*b),
            Json::Number(n, t) => Json::Number(*n, t.clone()),
            Json::Text(t) => Json::Text(t.clone()),
            Json::Array(items) => {
                let mut out: Vec<Json> = Vec::new();
                let mut i: usize = 0;
                while i < items.len()
                    invariant
                        i <= items@.len(),
                        out@.len() == i,
                        *self == Json::Array(*items),
                        forall|k: int| 0 <= k < i ==> (#[trigger] out@[k])@ == items@[k]@,
                    decreases items@.len() - i,
                {
                    assert(decreases_to!(self => self->Array_0));
                    assert(decreases_to!(self->Array_0 => self->Array_0@));
                    assert(decreases_to!(items@ => items@[i as int]));
                    let item = items[i].copy();
                    out.push(item);
                    i += 1;
                }
                let r = Json::Array(out);
                assert(r@->Array_0 =~= self@->Array_0);
                r
            },
            Json::Object(members) => {
                let mut out: Vec<(String, Json)> = Vec::new();
                let mut i: usize = 0;
                while i < members.len()
                    invariant
                        i <= members@.len(),
                        out@.len() == i,
                        *self == Json::Object(*members),
                        forall|k: int|
                            0 <= k < i ==> (#[trigger] out@[k]).0@ == members@[k].0@
                                && out@[k].1@ == members@[k].1@,
                    decreases members@.len() - i,
                {
                    assert(decreases_to!(self => self->Object_0));
                    assert(decreases_to!(self->Object_0 => self->Object_0@));
                    assert(decreases_to!(members@ => members@[i as int]));
                    assert(decreases_to!(members@[i as int] => members@[i as int].1));
                    let item = members[i].1.copy();
                    out.push((members[i].0.clone(), item));
                    i += 1;
                }
                let r = Json::Object(out);
                assert(r@->Object_0 =~= self@->Object_0);
                r
            },
        }
    }
}

// ---- reading and writing text ----

/// A JSON value of `serde_json`.
#[verifier::external_type_specification]
#[verifier::external_body]
pub struct ExValue(serde_json::Value);

/// What `serde_json::from_slice` makes of a byte sequence: the document, or the message of its
/// error.
pub uninterp spec fn json_document(bytes: Seq<u8>) -> Result<JsonView, Seq<char>>;

/// What reading a document gave.
pub open spec fn outcome_view(r: Result<Json, String>) -> Result<JsonView, Seq<char>> {
    match r {
        Ok(j) => Ok(j@),
        Err(e) => Err(e@),
    }
}

/// Moves a `serde_json::Value` into the plain type, variant by variant. Of a number it keeps what
/// `as_u64` gives and its text.
#[verifier::external_body]
fn json_of(v: serde_json::Value) -> Json {
    match v {
        serde_json::Value::Null => Json::Null,
        serde_json::Value::Bool(b) => Json::Bool(b),
        serde_json::Value::Number(n) => Json::Number(n.as_u64(), n.to_string()),
        serde_json::Value::String(s) => Json::Text(s),
        serde_json::Value::Array(items) => Json::Array(items.into_iter().map(json_of).collect()),
        serde_json::Value::Object(members) => {
            Json::Object(members.into_iter().map(|(k, v)| (k, json_of(v))).collect())
        },
    }
}

/// `serde_json::from_slice` reads a document from its bytes; what it gives, a document or the
/// message of an error, depends on the bytes alone and is called `json_document`.
#[verifier::external_body]
pub(crate) fn read_document(bytes: &[u8]) -> (r: Result<Json, String>)
    ensures
        outcome_view(r) == json_document(bytes@),
{
    match serde_json::from_slice::<serde_json::Value>(bytes) {
        Ok(v) => Ok(json_of(v)),
        Err(e) => Err(e.to_string()),
    }
}

/// The document that a text spells, if it spells one.
pub open spec fn document_of(s: Seq<char>) -> Option<JsonView> {
    match json_document(vstd::utf8::encode_utf8(s)) {
        Ok(j) => Some(j),
        Err(_) => None,
    }
}

/// Reads the document that a text spells.
pub fn parse_text(s: &str) -> (r: Option<Json>)
    ensures
        r matches Some(j) ==> document_of(s@) == Some(j@),
        r is None <==> document_of(s@) is None,
{
    match read_document(s.as_bytes()) {
        Ok(j) => Some(j),
        Err(_) => None,
    }
}

/// The digit of a number under sixteen.
pub open spec fn hex_char(d: nat) -> char {
    if d < 10 {
        (48 + d) as char
    } else {
        (87 + d) as char
    }
}

/// How a character stands inside a JSON string.
pub open spec fn escaped_char(c: char) -> Seq<char> {
    if c == '"' {
        seq!['\\', '"']
    } else if c == '\\' {
        seq!['\\', '\\']
    } else if c as u32 == 0x08 {
        seq!['\\', 'b']
    } else if c as u32 == 0x09 {
        seq!['\\', 't']
    } else if c as u32 == 0x0a {
        seq!['\\', 'n']
    } else if c as u32 == 0x0c {
        seq!['\\', 'f']
    } else if c as u32 == 0x0d {
        seq!['\\', 'r']
    } else if (c as u32) < 0x20 {
        seq!['\\', 'u', '0', '0', hex_char(c as nat / 16), hex_char(c as nat % 16)]
    } else {
        seq![c]
    }
}

/// The characters of `s` as they stand inside a JSON string.
pub open spec fn escaped(s: Seq<char>) -> Seq<char>
    decreases s.len(),
{
    if s.len() == 0 {
        Seq::empty()
    } else {
        escaped(s.drop_last()) + escaped_char(s.last())
    }
}

/// The JSON string of `s`.
pub open spec fn quoted_of(s: Seq<char>) -> Seq<char> {
    seq!['"'] + escaped(s) + seq!['"']
}

/// `serde_json::to_string` of a string slice writes it between quotation marks. It escapes the
/// quotation mark, the backslash and the characters below U+0020, and leaves every other
/// character as it is.
#[verifier::external_body]
pub(crate) fn quoted(s: &str) -> (r: String)
    ensures
        r@ == quoted_of(s@),
{
    serde_json::to_string(s).unwrap_or_default()
}

} // verus!
