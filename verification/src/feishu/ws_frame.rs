//! The frames of the event connection: a protobuf message with headers and a payload.

use crate::text;
use crate::wire;
use vstd::prelude::*;
use vstd::slice::slice_subrange;
use vstd::utf8::*;

verus! {

/// A name and its value, attached to a frame.
#[derive(Debug)]
pub struct FeishuHeader {
    pub key: String,
    pub value: String,
}

/// One frame of the event connection.
#[derive(Debug)]
pub struct FeishuFrame {
    pub seq_id: u64,
    pub log_id: u64,
    pub service: i32,
    pub method: i32,
    pub headers: Vec<FeishuHeader>,
    pub payload_encoding: String,
    pub payload_type: String,
    pub payload: Vec<u8>,
    pub log_id_new: String,
}

/// The bytes are no encoding of a frame.
#[derive(Debug, Clone, Copy, PartialEq, Eq)]
pub enum FrameError {
    Malformed,
}

/// What a header holds.
#[verifier::ext_equal]
pub struct HeaderView {
    pub key: Seq<char>,
    pub value: Seq<char>,
}

/// What a frame holds.
#[verifier::ext_equal]
pub struct FrameView {
    pub seq_id: u64,
    pub log_id: u64,
    pub service: i32,
    pub method: i32,
    pub headers: Seq<HeaderView>,
    pub payload_encoding: Seq<char>,
    pub payload_type: Seq<char>,
    pub payload: Seq<u8>,
    pub log_id_new: Seq<char>,
}

impl View for FeishuHeader {
    type V = HeaderView;

    open spec fn view(&self) -> HeaderView {
        HeaderView { key: self.key@, value: self.value@ }
    }
}

/// What a list of headers holds.
pub open spec fn headers_view(headers: Seq<FeishuHeader>) -> Seq<HeaderView> {
    headers.map_values(|h: FeishuHeader| h@)
}

impl View for FeishuFrame {
    type V = FrameView;

    open spec fn view(&self) -> FrameView {
        FrameView {
            seq_id: self.seq_id,
            log_id: self.log_id,
            service: self.service,
            method: self.method,
            headers: headers_view(self.headers@),
            payload_encoding: self.payload_encoding@,
            payload_type: self.payload_type@,
            payload: self.payload@,
            log_id_new: self.log_id_new@,
        }
    }
}

// ---- encoding ----

/// An integer field; the value zero is left out.
pub open spec fn integer_field(tag: nat, n: nat) -> Seq<u8> {
    if n == 0 {
        Seq::empty()
    } else {
        wire::key(tag, wire::WIRE_VARINT as nat) + wire::varint(n)
    }
}

/// A field of a length and that many bytes.
pub open spec fn length_field(tag: nat, body: Seq<u8>) -> Seq<u8> {
    wire::key(tag, wire::WIRE_LENGTH as nat) + (wire::varint(body.len()) + body)
}

/// A bytes field; the empty value is left out.
pub open spec fn bytes_field(tag: nat, body: Seq<u8>) -> Seq<u8> {
    if body.len() == 0 {
        Seq::empty()
    } else {
        length_field(tag, body)
    }
}

/// A text field holds the UTF-8 bytes of its characters.
pub open spec fn text_field(tag: nat, body: Seq<char>) -> Seq<u8> {
    bytes_field(tag, encode_utf8(body))
}

/// A signed integer is written as the 64-bit two's complement.
pub open spec fn sign_extended(n: i32) -> nat {
    if n >= 0 {
        n as nat
    } else {
        (n + 0x1_0000_0000_0000_0000) as nat
    }
}

/// The encoding of a header.
pub open spec fn header_bytes(h: HeaderView) -> Seq<u8> {
    text_field(1, h.key) + text_field(2, h.value)
}

/// The encoding of all headers, each a field of its own.
pub open spec fn headers_bytes(hs: Seq<HeaderView>) -> Seq<u8>
    decreases hs.len(),
{
    if hs.len() == 0 {
        Seq::empty()
    } else {
        length_field(5, header_bytes(hs[0])) + headers_bytes(hs.skip(1))
    }
}

/// The encoding of a frame: its fields in the order of their tags.
pub open spec fn frame_bytes(f: FrameView) -> Seq<u8> {
    integer_field(1, f.seq_id as nat) + (integer_field(2, f.log_id as nat) + (integer_field(
        3,
        sign_extended(f.service),
    ) + (integer_field(4, sign_extended(f.method)) + (headers_bytes(f.headers) + (text_field(
        6,
        f.payload_encoding,
    ) + (text_field(7, f.payload_type) + (bytes_field(8, f.payload) + text_field(
        9,
        f.log_id_new,
    ))))))))
}

// ---- decoding ----

/// A 32-bit value is the low half of what was read, as a signed number.
pub open spec fn low_half(v: nat) -> i32 {
    let w = v % 0x1_0000_0000;
    if w < 0x8000_0000 {
        w as i32
    } else {
        (w - 0x1_0000_0000) as i32
    }
}

/// The value of an integer field and its extent.
pub open spec fn integer_value(wire: nat, s: Seq<u8>) -> Option<(nat, nat)> {
    if wire == wire::WIRE_VARINT {
        wire::varint_at(s)
    } else {
        None
    }
}

/// The value of a bytes field and its extent.
pub open spec fn bytes_value(wire: nat, s: Seq<u8>) -> Option<(Seq<u8>, nat)> {
    if wire == wire::WIRE_LENGTH {
        match wire::varint_at(s) {
            Some((len, n)) => if n + len <= s.len() {
                Some((s.subrange(n as int, (n + len) as int), n + len))
            } else {
                None
            },
            None => None,
        }
    } else {
        None
    }
}

/// The value of a text field and its extent.
pub open spec fn text_value(wire: nat, s: Seq<u8>) -> Option<(Seq<char>, nat)> {
    match bytes_value(wire, s) {
        Some((body, n)) => if valid_utf8(body) {
            Some((decode_utf8(body), n))
        } else {
            None
        },
        None => None,
    }
}

/// The header without content.
pub open spec fn empty_header() -> HeaderView {
    HeaderView { key: Seq::empty(), value: Seq::empty() }
}

/// The frame in which every field has its default.
pub open spec fn empty_frame() -> FrameView {
    FrameView {
        seq_id: 0,
        log_id: 0,
        service: 0,
        method: 0,
        headers: Seq::empty(),
        payload_encoding: Seq::empty(),
        payload_type: Seq::empty(),
        payload: Seq::empty(),
        log_id_new: Seq::empty(),
    }
}

/// The header after one more field, and the extent of the field's value.
pub open spec fn header_field(h: HeaderView, tag: nat, wire: nat, s: Seq<u8>) -> Option<
    (HeaderView, nat),
> {
    if tag == 1 {
        match text_value(wire, s) {
            Some((t, n)) => Some((HeaderView { key: t, ..h }, n)),
            None => None,
        }
    } else if tag == 2 {
        match text_value(wire, s) {
            Some((t, n)) => Some((HeaderView { value: t, ..h }, n)),
            None => None,
        }
    } else {
        match wire::field_extent(wire, tag, s, (wire::RECURSION_LIMIT - 1) as nat) {
            Some(n) => Some((h, n)),
            None => None,
        }
    }
}

/// The header after the fields of `s`; a field that comes again replaces the earlier value.
pub open spec fn header_from(h: HeaderView, s: Seq<u8>) -> Option<HeaderView>
    decreases s.len(),
{
    proof {
        wire::lemma_key_extent(s);
    }
    if s.len() == 0 {
        Some(h)
    } else {
        match wire::key_at(s) {
            None => None,
            Some((tag, wire, n)) => match header_field(h, tag, wire, s.skip(n as int)) {
                Some((next, m)) => if n + m <= s.len() {
                    header_from(next, s.skip((n + m) as int))
                } else {
                    None
                },
                None => None,
            },
        }
    }
}

/// The header that a field of `s` holds, and the field's extent.
pub open spec fn header_value_at(wire: nat, s: Seq<u8>) -> Option<(HeaderView, nat)> {
    match bytes_value(wire, s) {
        Some((body, n)) => match header_from(empty_header(), body) {
            Some(h) => Some((h, n)),
            None => None,
        },
        None => None,
    }
}

/// The frame after one more field, and the extent of the field's value.
pub open spec fn frame_field(f: FrameView, tag: nat, wire: nat, s: Seq<u8>) -> Option<
    (FrameView, nat),
> {
    if tag == 1 || tag == 2 || tag == 3 || tag == 4 {
        match integer_value(wire, s) {
            Some((v, n)) => Some(
                (
                    if tag == 1 {
                        FrameView { seq_id: v as u64, ..f }
                    } else if tag == 2 {
                        FrameView { log_id: v as u64, ..f }
                    } else if tag == 3 {
                        FrameView { service: low_half(v), ..f }
                    } else {
                        FrameView { method: low_half(v), ..f }
                    },
                    n,
                ),
            ),
            None => None,
        }
    } else if tag == 5 {
        match header_value_at(wire, s) {
            Some((h, n)) => Some((FrameView { headers: f.headers.push(h), ..f }, n)),
            None => None,
        }
    } else if tag == 6 || tag == 7 || tag == 9 {
        match text_value(wire, s) {
            Some((t, n)) => Some(
                (
                    if tag == 6 {
                        FrameView { payload_encoding: t, ..f }
                    } else if tag == 7 {
                        FrameView { payload_type: t, ..f }
                    } else {
                        FrameView { log_id_new: t, ..f }
                    },
                    n,
                ),
            ),
            None => None,
        }
    } else if tag == 8 {
        match bytes_value(wire, s) {
            Some((b, n)) => Some((FrameView { payload: b, ..f }, n)),
            None => None,
        }
    } else {
        match wire::field_extent(wire, tag, s, wire::RECURSION_LIMIT as nat) {
            Some(n) => Some((f, n)),
            None => None,
        }
    }
}

/// The frame after the fields of `s`.
pub open spec fn frame_from(f: FrameView, s: Seq<u8>) -> Option<FrameView>
    decreases s.len(),
{
    proof {
        wire::lemma_key_extent(s);
    }
    if s.len() == 0 {
        Some(f)
    } else {
        match wire::key_at(s) {
            None => None,
            Some((tag, wire, n)) => match frame_field(f, tag, wire, s.skip(n as int)) {
                Some((next, m)) => if n + m <= s.len() {
                    frame_from(next, s.skip((n + m) as int))
                } else {
                    None
                },
                None => None,
            },
        }
    }
}

/// The frame that the bytes encode, if they encode one.
pub open spec fn frame_of(s: Seq<u8>) -> Option<FrameView> {
    frame_from(empty_frame(), s)
}

// ---- writing and reading ----

fn put_all(out: &mut Vec<u8>, body: &[u8])
    ensures
        final(out)@ == old(out)@ + body@,
{
    let ghost before = out@;
    out.extend_from_slice(body);
    assert(out@ =~= before + body@);
}

fn put_integer(out: &mut Vec<u8>, tag: u32, n: u64)
    requires
        tag <= 9,
    ensures
        final(out)@ == old(out)@ + integer_field(tag as nat, n as nat),
{
    let ghost before = out@;
    if n != 0 {
        wire::write_key(out, tag, wire::WIRE_VARINT);
        wire::write_varint(out, n);
    }
    assert(out@ =~= before + integer_field(tag as nat, n as nat));
}

fn put_length(out: &mut Vec<u8>, tag: u32, body: &[u8])
    requires
        tag <= 9,
    ensures
        final(out)@ == old(out)@ + length_field(tag as nat, body@),
{
    let ghost before = out@;
    wire::write_key(out, tag, wire::WIRE_LENGTH);
    wire::write_varint(out, body.len() as u64);
    put_all(out, body);
    assert(out@ =~= before + length_field(tag as nat, body@));
}

fn put_bytes(out: &mut Vec<u8>, tag: u32, body: &[u8])
    requires
        tag <= 9,
    ensures
        final(out)@ == old(out)@ + bytes_field(tag as nat, body@),
{
    let ghost before = out@;
    if body.len() != 0 {
        put_length(out, tag, body);
    }
    assert(out@ =~= before + bytes_field(tag as nat, body@));
}

fn put_text(out: &mut Vec<u8>, tag: u32, body: &String)
    requires
        tag <= 9,
    ensures
        final(out)@ == old(out)@ + text_field(tag as nat, body@),
{
    put_bytes(out, tag, body.as_str().as_bytes());
}

fn extend_sign(n: i32) -> (r: u64)
    ensures
        r == sign_extended(n),
{
    if n >= 0 {
        n as u64
    } else {
        (n as i128 + 0x1_0000_0000_0000_0000) as u64
    }
}

fn put_header(out: &mut Vec<u8>, h: &FeishuHeader)
    ensures
        final(out)@ == old(out)@ + length_field(5, header_bytes(h@)),
{
    let mut body: Vec<u8> = Vec::new();
    put_text(&mut body, 1, &h.key);
    put_text(&mut body, 2, &h.value);
    assert(body@ =~= header_bytes(h@));
    put_length(out, 5, body.as_slice());
}

fn put_headers(out: &mut Vec<u8>, hs: &Vec<FeishuHeader>)
    ensures
        final(out)@ == old(out)@ + headers_bytes(headers_view(hs@)),
{
    let ghost all = headers_view(hs@);
    let mut i: usize = 0;
    assert(all.skip(0) =~= all);
    while i < hs.len()
        invariant
            i <= hs@.len(),
            all == headers_view(hs@),
            out@ + headers_bytes(all.skip(i as int)) == old(out)@ + headers_bytes(all),
        decreases hs@.len() - i,
    {
        let ghost before = out@;
        put_header(out, &hs[i]);
        assert(all.skip(i as int).skip(1) =~= all.skip(i + 1));
        assert(out@ + headers_bytes(all.skip(i + 1)) =~= before + headers_bytes(all.skip(i as int)));
        i += 1;
    }
    assert(out@ + headers_bytes(all.skip(i as int)) =~= out@);
}

/// The encoding of a frame.
pub fn encode_frame(frame: &FeishuFrame) -> (r: Vec<u8>)
    ensures
        r@ == frame_bytes(frame@),
{
    let ghost f = frame@;
    let ghost s9 = text_field(9, f.log_id_new);
    let ghost s8 = bytes_field(8, f.payload) + s9;
    let ghost s7 = text_field(7, f.payload_type) + s8;
    let ghost s6 = text_field(6, f.payload_encoding) + s7;
    let ghost s5 = headers_bytes(f.headers) + s6;
    let ghost s4 = integer_field(4, sign_extended(f.method)) + s5;
    let ghost s3 = integer_field(3, sign_extended(f.service)) + s4;
    let ghost s2 = integer_field(2, f.log_id as nat) + s3;
    let mut out: Vec<u8> = Vec::new();
    put_integer(&mut out, 1, frame.seq_id);
    assert(out@ + s2 =~= frame_bytes(f));
    let ghost before = out@;
    put_integer(&mut out, 2, frame.log_id);
    proof {
        lemma_regroup(before, integer_field(2, f.log_id as nat), s3);
    }
    let ghost before = out@;
    put_integer(&mut out, 3, extend_sign(frame.service));
    proof {
        lemma_regroup(before, integer_field(3, sign_extended(f.service)), s4);
    }
    let ghost before = out@;
    put_integer(&mut out, 4, extend_sign(frame.method));
    proof {
        lemma_regroup(before, integer_field(4, sign_extended(f.method)), s5);
    }
    let ghost before = out@;
    put_headers(&mut out, &frame.headers);
    proof {
        lemma_regroup(before, headers_bytes(f.headers), s6);
    }
    let ghost before = out@;
    put_text(&mut out, 6, &frame.payload_encoding);
    proof {
        lemma_regroup(before, text_field(6, f.payload_encoding), s7);
    }
    let ghost before = out@;
    put_text(&mut out, 7, &frame.payload_type);
    proof {
        lemma_regroup(before, text_field(7, f.payload_type), s8);
    }
    let ghost before = out@;
    put_bytes(&mut out, 8, frame.payload.as_slice());
    proof {
        lemma_regroup(before, bytes_field(8, f.payload), s9);
    }
    put_text(&mut out, 9, &frame.log_id_new);
    out
}

proof fn lemma_regroup(a: Seq<u8>, b: Seq<u8>, c: Seq<u8>)
    ensures
        (a + b) + c == a + (b + c),
{
    assert((a + b) + c =~= a + (b + c));
}

fn take_low_half(v: u64) -> (r: i32)
    ensures
        r == low_half(v as nat),
{
    let w: u64 = v % 0x1_0000_0000;
    if w < 0x8000_0000 {
        w as i32
    } else {
        (w as i64 - 0x1_0000_0000) as i32
    }
}

fn get_integer(wire: u32, s: &[u8]) -> (r: Option<(u64, usize)>)
    ensures
        r matches Some((v, n)) ==> integer_value(wire as nat, s@) == Some((v as nat, n as nat)) && n
            <= s@.len(),
        r is None ==> integer_value(wire as nat, s@) is None,
{
    if wire == wire::WIRE_VARINT {
        wire::read_varint(s)
    } else {
        None
    }
}

fn get_bytes<'a>(wire: u32, s: &'a [u8]) -> (r: Option<(&'a [u8], usize)>)
    ensures
        r matches Some((b, n)) ==> bytes_value(wire as nat, s@) == Some((b@, n as nat)) && n
            <= s@.len(),
        r is None ==> bytes_value(wire as nat, s@) is None,
{
    if wire != wire::WIRE_LENGTH {
        return None;
    }
    match wire::read_varint(s) {
        Some((len, n)) => {
            if len <= (s.len() - n) as u64 {
                Some((slice_subrange(s, n, n + len as usize), n + len as usize))
            } else {
                None
            }
        },
        None => None,
    }
}

fn get_text(wire: u32, s: &[u8]) -> (r: Option<(String, usize)>)
    ensures
        r matches Some((t, n)) ==> text_value(wire as nat, s@) == Some((t@, n as nat)) && n
            <= s@.len(),
        r is None ==> text_value(wire as nat, s@) is None,
{
    match get_bytes(wire, s) {
        Some((b, n)) => match text::utf8_text(b) {
            Some(t) => Some((t, n)),
            None => None,
        },
        None => None,
    }
}

fn get_header(s: &[u8]) -> (r: Option<FeishuHeader>)
    ensures
        r matches Some(h) ==> header_from(empty_header(), s@) == Some(h@),
        r is None ==> header_from(empty_header(), s@) is None,
{
    let mut h = FeishuHeader { key: String::new(), value: String::new() };
    let mut pos: usize = 0;
    assert(s@.skip(0) =~= s@);
    assert(h@ =~= empty_header());
    while pos < s.len()
        invariant
            pos <= s@.len(),
            header_from(h@, s@.skip(pos as int)) == header_from(empty_header(), s@),
        decreases s@.len() - pos,
    {
        let rest = slice_subrange(s, pos, s.len());
        let (tag, wire, n) = match wire::read_key(rest) {
            Some(k) => k,
            None => {
                return None;
            },
        };
        let body = slice_subrange(rest, n, rest.len());
        let ghost before = h@;
        let m: usize = if tag == 1 || tag == 2 {
            match get_text(wire, body) {
                Some((t, m)) => {
                    if tag == 1 {
                        h.key = t;
                    } else {
                        h.value = t;
                    }
                    m
                },
                None => {
                    return None;
                },
            }
        } else {
            match wire::skip_field(wire, tag, body, wire::RECURSION_LIMIT - 1) {
                Some(m) => m,
                None => {
                    return None;
                },
            }
        };
        assert(header_field(before, tag as nat, wire as nat, body@) == Some((h@, m as nat)));
        assert(rest@.skip((n + m) as int) =~= s@.skip((pos + n + m) as int));
        pos = pos + n + m;
    }
    assert(s@.skip(pos as int).len() == 0);
    Some(h)
}

/// Merges one field into the frame; hands back the extent of the field's value.
fn merge_field(f: &mut FeishuFrame, tag: u32, wire: u32, s: &[u8]) -> (r: Option<usize>)
    ensures
        r matches Some(n) ==> frame_field(old(f)@, tag as nat, wire as nat, s@) == Some(
            (final(f)@, n as nat),
        ) && n <= s@.len(),
        r is None ==> frame_field(old(f)@, tag as nat, wire as nat, s@) is None,
{
    if tag == 1 || tag == 2 || tag == 3 || tag == 4 {
        match get_integer(wire, s) {
            Some((v, n)) => {
                if tag == 1 {
                    f.seq_id = v;
                } else if tag == 2 {
                    f.log_id = v;
                } else if tag == 3 {
                    f.service = take_low_half(v);
                } else {
                    f.method = take_low_half(v);
                }
                Some(n)
            },
            None => None,
        }
    } else if tag == 5 {
        match get_bytes(wire, s) {
            Some((body, n)) => match get_header(body) {
                Some(h) => {
                    let ghost before = f.headers@;
                    f.headers.push(h);
                    assert(headers_view(f.headers@) =~= headers_view(before).push(h@));
                    Some(n)
                },
                None => None,
            },
            None => None,
        }
    } else if tag == 6 || tag == 7 || tag == 9 {
        match get_text(wire, s) {
            Some((t, n)) => {
                if tag == 6 {
                    f.payload_encoding = t;
                } else if tag == 7 {
                    f.payload_type = t;
                } else {
                    f.log_id_new = t;
                }
                Some(n)
            },
            None => None,
        }
    } else if tag == 8 {
        match get_bytes(wire, s) {
            Some((b, n)) => {
                let mut payload: Vec<u8> = Vec::new();
                put_all(&mut payload, b);
                assert(payload@ =~= b@);
                f.payload = payload;
                Some(n)
            },
            None => None,
        }
    } else {
        wire::skip_field(wire, tag, s, wire::RECURSION_LIMIT)
    }
}

/// The frame that the bytes encode. Fields with other tags are passed over, and a field that
/// comes again replaces the earlier value, except that headers add up.
pub fn decode_frame(bytes: &[u8]) -> (r: Result<FeishuFrame, FrameError>)
    ensures
        r matches Ok(f) ==> frame_of(bytes@) == Some(f@),
        r is Err <==> frame_of(bytes@) is None,
{
    let mut f = FeishuFrame {
        seq_id: 0,
        log_id: 0,
        service: 0,
        method: 0,
        headers: Vec::new(),
        payload_encoding: String::new(),
        payload_type: String::new(),
        payload: Vec::new(),
        log_id_new: String::new(),
    };
    let mut pos: usize = 0;
    assert(bytes@.skip(0) =~= bytes@);
    assert(f@ =~= empty_frame());
    while pos < bytes.len()
        invariant
            pos <= bytes@.len(),
            frame_from(f@, bytes@.skip(pos as int)) == frame_of(bytes@),
        decreases bytes@.len() - pos,
    {
        let rest = slice_subrange(bytes, pos, bytes.len());
        let (tag, wire, n) = match wire::read_key(rest) {
            Some(k) => k,
            None => {
                return Err(FrameError::Malformed);
            },
        };
        match merge_field(&mut f, tag, wire, slice_subrange(rest, n, rest.len())) {
            Some(m) => {
                assert(rest@.skip((n + m) as int) =~= bytes@.skip((pos + n + m) as int));
                pos = pos + n + m;
            },
            None => {
                return Err(FrameError::Malformed);
            },
        }
    }
    assert(bytes@.skip(pos as int).len() == 0);
    Ok(f)
}

// ---- laws ----

proof fn lemma_integer_value(n: nat, rest: Seq<u8>)
    requires
        n <= u64::MAX,
    ensures
        integer_value(0, wire::varint(n) + rest) == Some((n, wire::varint(n).len())),
{
    wire::lemma_cap_ten();
    wire::lemma_varint_inverse(n, rest, 10);
}

proof fn lemma_bytes_value(body: Seq<u8>, rest: Seq<u8>)
    requires
        body.len() <= u64::MAX,
    ensures
        bytes_value(2, (wire::varint(body.len()) + body) + rest) == Some(
            (body, (wire::varint(body.len()) + body).len()),
        ),
{
    wire::lemma_cap_ten();
    wire::lemma_varint_inverse(body.len(), body + rest, 10);
    let s = (wire::varint(body.len()) + body) + rest;
    let n = wire::varint(body.len()).len();
    assert(s =~= wire::varint(body.len()) + (body + rest));
    assert(s.subrange(n as int, (n + body.len()) as int) =~= body);
}

/// The key and value of a field, then the rest.
proof fn lemma_frame_step(f: FrameView, tag: nat, wire: nat, body: Seq<u8>, rest: Seq<u8>, next: FrameView)
    requires
        1 <= tag <= 9,
        wire <= 5,
        frame_field(f, tag, wire, body + rest) == Some((next, body.len())),
    ensures
        frame_from(f, (wire::key(tag, wire) + body) + rest) == frame_from(next, rest),
{
    let k = wire::key(tag, wire);
    let s = (k + body) + rest;
    assert(s =~= k + (body + rest));
    wire::lemma_key_inverse(tag, wire, body + rest);
    assert(s.skip(k.len() as int) =~= body + rest);
    assert(s.skip((k.len() + body.len()) as int) =~= rest);
}

proof fn lemma_header_step(h: HeaderView, tag: nat, wire: nat, body: Seq<u8>, rest: Seq<u8>, next: HeaderView)
    requires
        1 <= tag <= 9,
        wire <= 5,
        header_field(h, tag, wire, body + rest) == Some((next, body.len())),
    ensures
        header_from(h, (wire::key(tag, wire) + body) + rest) == header_from(next, rest),
{
    let k = wire::key(tag, wire);
    let s = (k + body) + rest;
    assert(s =~= k + (body + rest));
    wire::lemma_key_inverse(tag, wire, body + rest);
    assert(s.skip(k.len() as int) =~= body + rest);
    assert(s.skip((k.len() + body.len()) as int) =~= rest);
}

proof fn lemma_integer_step(f: FrameView, tag: nat, n: nat, rest: Seq<u8>, next: FrameView)
    requires
        1 <= tag <= 4,
        n <= u64::MAX,
        next == (if tag == 1 {
            FrameView { seq_id: n as u64, ..f }
        } else if tag == 2 {
            FrameView { log_id: n as u64, ..f }
        } else if tag == 3 {
            FrameView { service: low_half(n), ..f }
        } else {
            FrameView { method: low_half(n), ..f }
        }),
        n == 0 ==> next == f,
    ensures
        frame_from(f, integer_field(tag, n) + rest) == frame_from(next, rest),
{
    if n == 0 {
        assert(integer_field(tag, n) + rest =~= rest);
    } else {
        lemma_integer_value(n, rest);
        lemma_frame_step(f, tag, 0, wire::varint(n), rest, next);
    }
}

proof fn lemma_text_value(t: Seq<char>, rest: Seq<u8>)
    requires
        encode_utf8(t).len() <= u64::MAX,
    ensures
        ({
            let b = encode_utf8(t);
            text_value(2, (wire::varint(b.len()) + b) + rest) == Some(
                (t, (wire::varint(b.len()) + b).len()),
            )
        }),
{
    lemma_bytes_value(encode_utf8(t), rest);
    vstd::utf8::encode_utf8_valid_utf8(t);
    vstd::utf8::encode_utf8_decode_utf8(t);
}

proof fn lemma_empty_text(t: Seq<char>)
    requires
        encode_utf8(t).len() == 0,
    ensures
        t.len() == 0,
{
    vstd::utf8::encode_utf8_valid_utf8(t);
    vstd::utf8::encode_utf8_decode_utf8(t);
    assert(decode_utf8(encode_utf8(t)).len() == 0);
}

proof fn lemma_text_step(f: FrameView, tag: nat, t: Seq<char>, rest: Seq<u8>, next: FrameView)
    requires
        tag == 6 || tag == 7 || tag == 9,
        encode_utf8(t).len() <= u64::MAX,
        next == (if tag == 6 {
            FrameView { payload_encoding: t, ..f }
        } else if tag == 7 {
            FrameView { payload_type: t, ..f }
        } else {
            FrameView { log_id_new: t, ..f }
        }),
        t.len() == 0 ==> next == f,
    ensures
        frame_from(f, text_field(tag, t) + rest) == frame_from(next, rest),
{
    let b = encode_utf8(t);
    if b.len() == 0 {
        lemma_empty_text(t);
        assert(text_field(tag, t) + rest =~= rest);
    } else {
        lemma_text_value(t, rest);
        lemma_frame_step(f, tag, 2, wire::varint(b.len()) + b, rest, next);
    }
}

proof fn lemma_header_text_step(h: HeaderView, tag: nat, t: Seq<char>, rest: Seq<u8>, next: HeaderView)
    requires
        tag == 1 || tag == 2,
        encode_utf8(t).len() <= u64::MAX,
        next == (if tag == 1 {
            HeaderView { key: t, ..h }
        } else {
            HeaderView { value: t, ..h }
        }),
        t.len() == 0 ==> next == h,
    ensures
        header_from(h, text_field(tag, t) + rest) == header_from(next, rest),
{
    let b = encode_utf8(t);
    if b.len() == 0 {
        lemma_empty_text(t);
        assert(text_field(tag, t) + rest =~= rest);
    } else {
        lemma_text_value(t, rest);
        lemma_header_step(h, tag, 2, wire::varint(b.len()) + b, rest, next);
    }
}

/// Every length in the header fits its field.
pub open spec fn header_fits(h: HeaderView) -> bool {
    &&& encode_utf8(h.key).len() <= u64::MAX
    &&& encode_utf8(h.value).len() <= u64::MAX
    &&& header_bytes(h).len() <= u64::MAX
}

/// Every length in the frame fits its field.
pub open spec fn frame_fits(f: FrameView) -> bool {
    &&& forall|i: int| 0 <= i < f.headers.len() ==> header_fits(#[trigger] f.headers[i])
    &&& encode_utf8(f.payload_encoding).len() <= u64::MAX
    &&& encode_utf8(f.payload_type).len() <= u64::MAX
    &&& f.payload.len() <= u64::MAX
    &&& encode_utf8(f.log_id_new).len() <= u64::MAX
}

/// Reading the encoding of a header gives back the header.
pub proof fn law_header_inverse(h: HeaderView)
    requires
        header_fits(h),
    ensures
        header_from(empty_header(), header_bytes(h)) == Some(h),
{
    let h0 = empty_header();
    let h1 = HeaderView { key: h.key, ..h0 };
    assert(h.key.len() == 0 ==> h.key =~= Seq::empty());
    assert(h.value.len() == 0 ==> h.value =~= Seq::empty());
    lemma_header_text_step(h0, 1, h.key, text_field(2, h.value), h1);
    let none = Seq::<u8>::empty();
    assert(text_field(2, h.value) + none =~= text_field(2, h.value));
    lemma_header_text_step(h1, 2, h.value, none, h);
}

proof fn lemma_headers_step(f: FrameView, hs: Seq<HeaderView>, rest: Seq<u8>, next: FrameView)
    requires
        forall|i: int| 0 <= i < hs.len() ==> header_fits(#[trigger] hs[i]),
        next == (FrameView { headers: f.headers + hs, ..f }),
    ensures
        frame_from(f, headers_bytes(hs) + rest) == frame_from(next, rest),
    decreases hs.len(),
{
    if hs.len() == 0 {
        assert(headers_bytes(hs) + rest =~= rest);
        assert(f.headers + hs =~= f.headers);
    } else {
        let b = header_bytes(hs[0]);
        let tail = headers_bytes(hs.skip(1)) + rest;
        let mid = FrameView { headers: f.headers.push(hs[0]), ..f };
        assert(header_fits(hs[0]));
        law_header_inverse(hs[0]);
        lemma_bytes_value(b, tail);
        lemma_frame_step(f, 5, 2, wire::varint(b.len()) + b, tail, mid);
        assert(headers_bytes(hs) + rest =~= length_field(5, b) + tail);
        assert(mid.headers + hs.skip(1) =~= f.headers + hs);
        assert forall|i: int| 0 <= i < hs.skip(1).len() implies header_fits(#[trigger] hs.skip(1)[i]) by {
            assert(hs.skip(1)[i] == hs[i + 1]);
        }
        lemma_headers_step(mid, hs.skip(1), rest, next);
    }
}

proof fn lemma_sign(n: i32)
    ensures
        low_half(sign_extended(n)) == n,
        sign_extended(n) <= u64::MAX,
        sign_extended(n) == 0 <==> n == 0,
{
}

/// Decoding the encoding of a frame gives back the frame.
pub proof fn law_frame_inverse(f: FrameView)
    requires
        frame_fits(f),
    ensures
        frame_of(frame_bytes(f)) == Some(f),
{
    let f0 = empty_frame();
    let f1 = FrameView { seq_id: f.seq_id, ..f0 };
    let f2 = FrameView { log_id: f.log_id, ..f1 };
    let f3 = FrameView { service: f.service, ..f2 };
    let f4 = FrameView { method: f.method, ..f3 };
    let f5 = FrameView { headers: f.headers, ..f4 };
    let f6 = FrameView { payload_encoding: f.payload_encoding, ..f5 };
    let f7 = FrameView { payload_type: f.payload_type, ..f6 };
    let f8 = FrameView { payload: f.payload, ..f7 };
    let none = Seq::<u8>::empty();
    let s9 = text_field(9, f.log_id_new);
    let s8 = bytes_field(8, f.payload) + s9;
    let s7 = text_field(7, f.payload_type) + s8;
    let s6 = text_field(6, f.payload_encoding) + s7;
    let s5 = headers_bytes(f.headers) + s6;
    let s4 = integer_field(4, sign_extended(f.method)) + s5;
    let s3 = integer_field(3, sign_extended(f.service)) + s4;
    let s2 = integer_field(2, f.log_id as nat) + s3;
    lemma_sign(f.service);
    lemma_sign(f.method);
    lemma_integer_step(f0, 1, f.seq_id as nat, s2, f1);
    lemma_integer_step(f1, 2, f.log_id as nat, s3, f2);
    lemma_integer_step(f2, 3, sign_extended(f.service), s4, f3);
    lemma_integer_step(f3, 4, sign_extended(f.method), s5, f4);
    assert(f4.headers + f.headers =~= f.headers);
    lemma_headers_step(f4, f.headers, s6, f5);
    assert(f.payload_encoding.len() == 0 ==> f.payload_encoding =~= Seq::empty());
    lemma_text_step(f5, 6, f.payload_encoding, s7, f6);
    assert(f.payload_type.len() == 0 ==> f.payload_type =~= Seq::empty());
    lemma_text_step(f6, 7, f.payload_type, s8, f7);
    if f.payload.len() == 0 {
        assert(s8 =~= s9);
        assert(f.payload =~= Seq::empty());
    } else {
        lemma_bytes_value(f.payload, s9);
        lemma_frame_step(f7, 8, 2, wire::varint(f.payload.len()) + f.payload, s9, f8);
    }
    assert(f.log_id_new.len() == 0 ==> f.log_id_new =~= Seq::empty());
    assert(s9 + none =~= s9);
    lemma_text_step(f8, 9, f.log_id_new, none, f);
}

} // verus!
