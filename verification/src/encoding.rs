//! Base64, percent-encoding and the data URIs made of them.

use crate::text;
use vstd::prelude::*;
use vstd::utf8::*;

verus! {

// ---- base64 ----

/// The character of six bits in the standard alphabet.
pub open spec fn base64_char(n: int) -> char {
    if n < 26 {
        (65 + n) as char
    } else if n < 52 {
        (71 + n) as char
    } else if n < 62 {
        (n - 4) as char
    } else if n == 62 {
        '+'
    } else {
        '/'
    }
}

/// The standard base64 encoding, with padding.
pub open spec fn base64_of(b: Seq<u8>) -> Seq<char>
    decreases b.len(),
{
    if b.len() == 0 {
        Seq::empty()
    } else if b.len() == 1 {
        seq![base64_char(b[0] as int / 4), base64_char(b[0] as int % 4 * 16), '=', '=']
    } else if b.len() == 2 {
        seq![
            base64_char(b[0] as int / 4),
            base64_char(b[0] as int % 4 * 16 + b[1] as int / 16),
            base64_char(b[1] as int % 16 * 4),
            '=',
        ]
    } else {
        seq![
            base64_char(b[0] as int / 4),
            base64_char(b[0] as int % 4 * 16 + b[1] as int / 16),
            base64_char(b[1] as int % 16 * 4 + b[2] as int / 64),
            base64_char(b[2] as int % 64),
        ] + base64_of(b.skip(3))
    }
}

/// The bytes that a base64 text encodes, if it is the encoding of some bytes.
pub open spec fn base64_value(s: Seq<char>) -> Option<Seq<u8>> {
    if exists|b: Seq<u8>| #[trigger] base64_of(b) == s {
        Some(choose|b: Seq<u8>| #[trigger] base64_of(b) == s)
    } else {
        None
    }
}

/// The `base64` crate's `STANDARD` engine encodes bytes in the standard alphabet with padding.
#[verifier::external_body]
fn encode_base64(data: &[u8]) -> (r: String)
    ensures
        r@ == base64_of(data@),
{
    base64::Engine::encode(&base64::engine::general_purpose::STANDARD, data)
}

/// The `base64` crate's `STANDARD` engine decodes a text if it is the encoding of some bytes, with
/// exactly the padding that the encoder writes and no stray bits, and gives those bytes.
#[verifier::external_body]
fn decode_base64(s: &str) -> (r: Option<Vec<u8>>)
    ensures
        r matches Some(b) ==> base64_of(b@) == s@,
        r is None ==> (forall|b: Seq<u8>| #[trigger] base64_of(b) != s@),
{
    base64::Engine::decode(&base64::engine::general_purpose::STANDARD, s).ok()
}

/// Different digits have different characters, and none is the padding.
proof fn lemma_base64_char(m: int, n: int)
    requires
        0 <= m < 64,
        0 <= n < 64,
    ensures
        base64_char(m) == base64_char(n) ==> m == n,
        base64_char(m) != '=',
{
}

/// Two byte sequences with the same encoding are the same.
pub proof fn law_base64_injective(a: Seq<u8>, b: Seq<u8>)
    requires
        base64_of(a) == base64_of(b),
    ensures
        a == b,
    decreases a.len(),
{
    let s = base64_of(a);
    let t = base64_of(b);
    if a.len() == 0 {
        assert(s.len() == 0);
        assert(b.len() == 0);
        assert(a =~= b);
    } else if b.len() == 0 {
        assert(t.len() == 0);
    } else {
        lemma_base64_char(a[0] as int / 4, b[0] as int / 4);
        assert(s[0] == base64_char(a[0] as int / 4));
        assert(t[0] == base64_char(b[0] as int / 4));
        lemma_second(a, b);
        if a.len() >= 2 && b.len() >= 2 {
            lemma_third(a, b);
        }
        if a.len() >= 3 && b.len() >= 3 {
            assert(s.skip(4) =~= base64_of(a.skip(3)));
            assert(t.skip(4) =~= base64_of(b.skip(3)));
            law_base64_injective(a.skip(3), b.skip(3));
            lemma_base64_char(a[2] as int % 64, b[2] as int % 64);
            assert(s[3] == base64_char(a[2] as int % 64));
            assert(t[3] == base64_char(b[2] as int % 64));
            assert(a[2] == b[2]);
            assert(a.len() == b.len());
            assert forall|i: int| 0 <= i < a.len() implies a[i] == b[i] by {
                if i >= 3 {
                    assert(a.skip(3)[i - 3] == a[i]);
                    assert(b.skip(3)[i - 3] == b[i]);
                }
            }
            assert(a =~= b);
        } else {
            lemma_ends(a);
            lemma_ends(b);
            assert(a =~= b);
        }
    }
}

/// How the first group of an encoding ends.
proof fn lemma_ends(a: Seq<u8>)
    requires
        a.len() > 0,
    ensures
        base64_of(a).len() >= 4,
        (base64_of(a)[2] == '=') == (a.len() == 1),
        (base64_of(a)[3] == '=') == (a.len() <= 2),
{
    if a.len() == 2 {
        lemma_base64_char(a[1] as int % 16 * 4, 0);
    } else if a.len() >= 3 {
        lemma_base64_char(a[1] as int % 16 * 4 + a[2] as int / 64, 0);
        lemma_base64_char(a[2] as int % 64, 0);
    }
}

proof fn lemma_second(a: Seq<u8>, b: Seq<u8>)
    requires
        a.len() > 0,
        b.len() > 0,
        base64_of(a) == base64_of(b),
    ensures
        a[0] == b[0],
        a.len() >= 2 && b.len() >= 2 ==> a[1] as int / 16 == b[1] as int / 16,
{
    let s = base64_of(a);
    let t = base64_of(b);
    lemma_base64_char(a[0] as int / 4, b[0] as int / 4);
    assert(s[0] == base64_char(a[0] as int / 4));
    assert(t[0] == base64_char(b[0] as int / 4));
    let x = if a.len() == 1 {
        a[0] as int % 4 * 16
    } else {
        a[0] as int % 4 * 16 + a[1] as int / 16
    };
    let y = if b.len() == 1 {
        b[0] as int % 4 * 16
    } else {
        b[0] as int % 4 * 16 + b[1] as int / 16
    };
    assert(s[1] == base64_char(x));
    assert(t[1] == base64_char(y));
    lemma_base64_char(x, y);
    assert(x == y);
}

proof fn lemma_third(a: Seq<u8>, b: Seq<u8>)
    requires
        a.len() >= 2,
        b.len() >= 2,
        base64_of(a) == base64_of(b),
    ensures
        a[1] == b[1],
        a.len() >= 3 && b.len() >= 3 ==> a[2] as int / 64 == b[2] as int / 64,
{
    lemma_second(a, b);
    let s = base64_of(a);
    let t = base64_of(b);
    let x = if a.len() == 2 {
        a[1] as int % 16 * 4
    } else {
        a[1] as int % 16 * 4 + a[2] as int / 64
    };
    let y = if b.len() == 2 {
        b[1] as int % 16 * 4
    } else {
        b[1] as int % 16 * 4 + b[2] as int / 64
    };
    assert(s[2] == base64_char(x));
    assert(t[2] == base64_char(y));
    lemma_base64_char(x, y);
    assert(x == y);
}

/// Decoding the encoding of bytes gives them back.
pub proof fn law_base64_inverse(b: Seq<u8>)
    ensures
        base64_value(base64_of(b)) == Some(b),
{
    let c = choose|c: Seq<u8>| #[trigger] base64_of(c) == base64_of(b);
    law_base64_injective(c, b);
}

/// The bytes that a base64 text encodes, if it is the encoding of some bytes.
pub fn base64_bytes(s: &str) -> (r: Option<Vec<u8>>)
    ensures
        r matches Some(b) ==> base64_value(s@) == Some(b@),
        r is None <==> base64_value(s@) is None,
{
    match decode_base64(s) {
        Some(b) => {
            proof {
                law_base64_inverse(b@);
            }
            Some(b)
        },
        None => None,
    }
}

// ---- percent-encoding ----

/// The value of a hexadecimal digit.
pub open spec fn hex_value(b: u8) -> Option<int> {
    if 48 <= b <= 57 {
        Some(b - 48)
    } else if 65 <= b <= 70 {
        Some(b - 55)
    } else if 97 <= b <= 102 {
        Some(b - 87)
    } else {
        None
    }
}

/// The bytes with every percent sign and two hexadecimal digits replaced by the byte that they
/// stand for.
pub open spec fn percent_decoded(b: Seq<u8>) -> Seq<u8>
    decreases b.len(),
{
    if b.len() == 0 {
        Seq::empty()
    } else if b[0] == 37 && b.len() >= 3 && hex_value(b[1]) is Some && hex_value(b[2]) is Some {
        seq![(hex_value(b[1])->0 * 16 + hex_value(b[2])->0) as u8] + percent_decoded(b.skip(3))
    } else {
        seq![b[0]] + percent_decoded(b.skip(1))
    }
}

/// `urlencoding::decode_binary` replaces every percent sign that two hexadecimal digits follow,
/// with those digits, by the byte that they stand for; all other bytes stay.
#[verifier::external_body]
pub(crate) fn percent_decode(b: &[u8]) -> (r: Vec<u8>)
    ensures
        r@ == percent_decoded(b@),
{
    urlencoding::decode_binary(b).to_vec()
}

/// The text that a percent-encoded text stands for, if its bytes are UTF-8.
pub open spec fn percent_text(s: Seq<char>) -> Option<Seq<char>> {
    let b = percent_decoded(encode_utf8(s));
    if valid_utf8(b) {
        Some(decode_utf8(b))
    } else {
        None
    }
}

/// `urlencoding::decode` does the same on a string slice, and fails where the bytes that come out
/// are not UTF-8.
#[verifier::external_body]
pub(crate) fn percent_decode_text(s: &str) -> (r: Option<String>)
    ensures
        r matches Some(t) ==> percent_text(s@) == Some(t@),
        r is None <==> percent_text(s@) is None,
{
    match urlencoding::decode(s) {
        Ok(t) => Some(t.into_owned()),
        Err(_) => None,
    }
}

// ---- data URIs ----

/// The data URI of bytes with a media type.
pub open spec fn data_uri_of(media_type: Seq<char>, data: Seq<u8>) -> Seq<char> {
    "data:"@ + media_type + ";base64,"@ + base64_of(data)
}

/// The data URI of bytes with a media type.
pub fn data_uri(media_type: &str, data: &[u8]) -> (r: String)
    ensures
        r@ == data_uri_of(media_type@, data@),
{
    let mut out = "data:".to_string();
    out.append(media_type);
    out.append(";base64,");
    out.append(encode_base64(data).as_str());
    out
}

/// `s` without any `p` at its start.
pub open spec fn strip_all(s: Seq<char>, p: Seq<char>) -> Seq<char>
    decreases s.len(),
{
    if p.len() > 0 && text::begins(s, p) {
        strip_all(s.skip(p.len() as int), p)
    } else {
        s
    }
}

/// The media type and the bytes of a data URI. The media type is what stands between the scheme
/// and the first semicolon before the first comma; the bytes are what follows that comma, in
/// base64 where the part before it says so, else percent-encoded.
pub open spec fn data_url_of(s: Seq<char>) -> Option<(Seq<char>, Seq<u8>)> {
    let n = text::lead(s, text::all_but(','));
    if !text::begins(s, "data:"@) || n >= s.len() {
        None
    } else {
        let meta = s.take(n as int);
        let data = s.skip((n + 1) as int);
        let media_type = text::pieces_of(strip_all(meta, "data:"@), ';')[0];
        if text::ends(meta, ";base64"@) {
            match base64_value(data) {
                Some(b) => Some((media_type, b)),
                None => None,
            }
        } else {
            Some((media_type, percent_decoded(encode_utf8(data))))
        }
    }
}

fn strip_every<'a>(s: &'a str, p: &str) -> (r: &'a str)
    requires
        p@.len() > 0,
    ensures
        r@ == strip_all(s@, p@),
{
    let mut rest: &'a str = s;
    loop
        invariant
            p@.len() > 0,
            strip_all(s@, p@) == strip_all(rest@, p@),
        decreases rest@.len(),
    {
        match text::strip_prefix(rest, p) {
            Some(t) => {
                rest = t;
            },
            None => {
                return rest;
            },
        }
    }
}

/// What taking a data URI apart gave.
pub open spec fn data_url_view(r: Option<(String, Vec<u8>)>) -> Option<(Seq<char>, Seq<u8>)> {
    match r {
        Some((m, b)) => Some((m@, b@)),
        None => None,
    }
}

/// Takes a data URI apart into its media type and its bytes.
pub fn parse_data_url(url: &str) -> (r: Option<(String, Vec<u8>)>)
    ensures
        data_url_view(r) == data_url_of(url@),
{
    if !text::starts_with(url, "data:") {
        return None;
    }
    let cs = text::chars_of(url);
    let mut n: usize = 0;
    while n < cs.len() && cs[n] != ','
        invariant
            cs@ == url@,
            n <= cs@.len(),
            forall|j: int| 0 <= j < n ==> text::all_but(',')(#[trigger] url@[j]),
        decreases cs@.len() - n,
    {
        n += 1;
    }
    proof {
        text::lemma_lead(url@, text::all_but(','), n as int);
    }
    if n == cs.len() {
        return None;
    }
    let meta = url.substring_char(0, n);
    let data = url.substring_char(n + 1, cs.len());
    assert(meta@ =~= url@.take(n as int));
    assert(data@ =~= url@.skip(n + 1));
    proof {
        reveal_strlit("data:");
    }
    let pieces = text::split_char(strip_every(meta, "data:"), ';');
    proof {
        text::lemma_pieces(strip_all(meta@, "data:"@), ';');
        assert(text::views(pieces@)[0] == pieces@[0]@);
    }
    let media_type = pieces[0].clone();
    if text::ends_with(meta, ";base64") {
        match base64_bytes(data) {
            Some(b) => Some((media_type, b)),
            None => None,
        }
    } else {
        Some((media_type, percent_decode(data.as_bytes())))
    }
}

/// Taking the data URI of bytes apart gives back the bytes, and the media type where it holds no
/// comma and no semicolon and does not start with the scheme itself.
pub proof fn law_data_uri_inverse(media_type: Seq<char>, data: Seq<u8>)
    requires
        forall|i: int| 0 <= i < media_type.len() ==> #[trigger] media_type[i] != ',' && media_type[i] != ';',
        !text::begins(media_type + ";base64"@, "data:"@),
    ensures
        data_url_of(data_uri_of(media_type, data)) == Some((media_type, data)),
{
    reveal_strlit("data:");
    reveal_strlit(";base64,");
    reveal_strlit(";base64");
    let s = data_uri_of(media_type, data);
    let n = 5 + media_type.len() + 7;
    let meta = "data:"@ + media_type + ";base64"@;
    assert(s.take(n as int) =~= meta);
    assert forall|j: int| 0 <= j < n implies text::all_but(',')(#[trigger] s[j]) by {
        if 5 <= j < 5 + media_type.len() {
            assert(s[j] == media_type[j - 5]);
        } else {
            assert(s[j] == meta[j]);
        }
    }
    assert(s[n as int] == ',');
    text::lemma_lead(s, text::all_but(','), n as int);
    assert(s.subrange(0, 5) =~= "data:"@);
    assert(s.skip((n + 1) as int) =~= base64_of(data));
    law_base64_inverse(data);
    let tail = media_type + ";base64"@;
    assert(meta.subrange(0, 5) =~= "data:"@);
    assert(meta.skip(5) =~= tail);
    assert(strip_all(tail, "data:"@) == tail);
    assert(strip_all(meta, "data:"@) == tail);
    assert forall|j: int| 0 <= j < media_type.len() implies text::all_but(';')(#[trigger] tail[j]) by {
        assert(tail[j] == media_type[j]);
    }
    assert(tail[media_type.len() as int] == ';');
    text::lemma_lead(tail, text::all_but(';'), media_type.len() as int);
    assert(tail.take(media_type.len() as int) =~= media_type);
    assert(text::pieces_of(tail, ';')[0] == media_type);
    assert(meta.subrange(meta.len() - 7, meta.len() as int) =~= ";base64"@);
}

} // verus!
