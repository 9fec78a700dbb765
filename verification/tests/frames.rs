//! The binary frames: against themselves and against `prost`.

use moltis_feishu::feishu::ws_frame::{decode_frame, encode_frame, FeishuFrame, FeishuHeader};
use prost::bytes::{Buf, BufMut};
use prost::encoding::{self, DecodeContext, WireType};
use prost::{DecodeError, Message};

#[derive(Debug, Default, Clone, PartialEq)]
struct WireHeader {
    key: String,
    value: String,
}

impl Message for WireHeader {
    fn encode_raw(&self, buf: &mut impl BufMut) {
        if !self.key.is_empty() {
            encoding::string::encode(1, &self.key, buf);
        }
        if !self.value.is_empty() {
            encoding::string::encode(2, &self.value, buf);
        }
    }

    fn merge_field(
        &mut self,
        tag: u32,
        wire_type: WireType,
        buf: &mut impl Buf,
        ctx: DecodeContext,
    ) -> Result<(), DecodeError> {
        match tag {
            1 => encoding::string::merge(wire_type, &mut self.key, buf, ctx),
            2 => encoding::string::merge(wire_type, &mut self.value, buf, ctx),
            _ => encoding::skip_field(wire_type, tag, buf, ctx),
        }
    }

    fn encoded_len(&self) -> usize {
        let mut n = 0;
        if !self.key.is_empty() {
            n += encoding::string::encoded_len(1, &self.key);
        }
        if !self.value.is_empty() {
            n += encoding::string::encoded_len(2, &self.value);
        }
        n
    }

    fn clear(&mut self) {
        *self = WireHeader::default();
    }
}

#[derive(Debug, Default, Clone, PartialEq)]
struct WireFrame {
    seq_id: u64,
    log_id: u64,
    service: i32,
    method: i32,
    headers: Vec<WireHeader>,
    payload_encoding: String,
    payload_type: String,
    payload: Vec<u8>,
    log_id_new: String,
}

impl Message for WireFrame {
    fn encode_raw(&self, buf: &mut impl BufMut) {
        if self.seq_id != 0 {
            encoding::uint64::encode(1, &self.seq_id, buf);
        }
        if self.log_id != 0 {
            encoding::uint64::encode(2, &self.log_id, buf);
        }
        if self.service != 0 {
            encoding::int32::encode(3, &self.service, buf);
        }
        if self.method != 0 {
            encoding::int32::encode(4, &self.method, buf);
        }
        for h in &self.headers {
            encoding::message::encode(5, h, buf);
        }
        if !self.payload_encoding.is_empty() {
            encoding::string::encode(6, &self.payload_encoding, buf);
        }
        if !self.payload_type.is_empty() {
            encoding::string::encode(7, &self.payload_type, buf);
        }
        if !self.payload.is_empty() {
            encoding::bytes::encode(8, &self.payload, buf);
        }
        if !self.log_id_new.is_empty() {
            encoding::string::encode(9, &self.log_id_new, buf);
        }
    }

    fn merge_field(
        &mut self,
        tag: u32,
        wire_type: WireType,
        buf: &mut impl Buf,
        ctx: DecodeContext,
    ) -> Result<(), DecodeError> {
        match tag {
            1 => encoding::uint64::merge(wire_type, &mut self.seq_id, buf, ctx),
            2 => encoding::uint64::merge(wire_type, &mut self.log_id, buf, ctx),
            3 => encoding::int32::merge(wire_type, &mut self.service, buf, ctx),
            4 => encoding::int32::merge(wire_type, &mut self.method, buf, ctx),
            5 => encoding::message::merge_repeated(wire_type, &mut self.headers, buf, ctx),
            6 => encoding::string::merge(wire_type, &mut self.payload_encoding, buf, ctx),
            7 => encoding::string::merge(wire_type, &mut self.payload_type, buf, ctx),
            8 => encoding::bytes::merge(wire_type, &mut self.payload, buf, ctx),
            9 => encoding::string::merge(wire_type, &mut self.log_id_new, buf, ctx),
            _ => encoding::skip_field(wire_type, tag, buf, ctx),
        }
    }

    fn encoded_len(&self) -> usize {
        let mut out: Vec<u8> = Vec::new();
        self.encode_raw(&mut out);
        out.len()
    }

    fn clear(&mut self) {
        *self = WireFrame::default();
    }
}

fn as_wire(f: &FeishuFrame) -> WireFrame {
    WireFrame {
        seq_id: f.seq_id,
        log_id: f.log_id,
        service: f.service,
        method: f.method,
        headers: f
            .headers
            .iter()
            .map(|h| WireHeader { key: h.key.clone(), value: h.value.clone() })
            .collect(),
        payload_encoding: f.payload_encoding.clone(),
        payload_type: f.payload_type.clone(),
        payload: f.payload.clone(),
        log_id_new: f.log_id_new.clone(),
    }
}

fn samples() -> Vec<FeishuFrame> {
    let plain = FeishuFrame {
        seq_id: 0,
        log_id: 0,
        service: 0,
        method: 0,
        headers: vec![],
        payload_encoding: String::new(),
        payload_type: String::new(),
        payload: vec![],
        log_id_new: String::new(),
    };
    let full = FeishuFrame {
        seq_id: u64::MAX,
        log_id: 300,
        service: -7,
        method: i32::MIN,
        headers: vec![
            FeishuHeader { key: "type".into(), value: "event".into() },
            FeishuHeader { key: String::new(), value: "值".into() },
            FeishuHeader { key: String::new(), value: String::new() },
        ],
        payload_encoding: "gzip".into(),
        payload_type: "json".into(),
        payload: (0..=255).collect(),
        log_id_new: "log-新".into(),
    };
    let long = FeishuFrame {
        seq_id: 127,
        log_id: 128,
        service: i32::MAX,
        method: 1,
        headers: vec![FeishuHeader { key: "k".repeat(200), value: "v".repeat(20_000) }],
        payload_encoding: String::new(),
        payload_type: String::new(),
        payload: vec![7; 300],
        log_id_new: String::new(),
    };
    vec![plain, full, long]
}

#[test]
fn frame_roundtrip() {
    let frame = FeishuFrame {
        seq_id: 1,
        log_id: 2,
        service: 3,
        method: 1,
        headers: vec![FeishuHeader { key: "type".into(), value: "event".into() }],
        payload_encoding: String::new(),
        payload_type: String::new(),
        payload: br#"{"ok":true}"#.to_vec(),
        log_id_new: String::new(),
    };
    let bin = encode_frame(&frame);
    let decoded = decode_frame(&bin).unwrap();
    assert_eq!(decoded.seq_id, 1);
    assert_eq!(decoded.log_id, 2);
    assert_eq!(decoded.service, 3);
    assert_eq!(decoded.method, 1);
    assert_eq!(decoded.headers[0].key, "type");
    assert_eq!(decoded.headers[0].value, "event");
    assert_eq!(decoded.payload, br#"{"ok":true}"#);
}

#[test]
fn encoding_agrees_with_prost() {
    for f in samples() {
        assert_eq!(encode_frame(&f), as_wire(&f).encode_to_vec());
    }
}

#[test]
fn decoding_gives_back_what_was_encoded() {
    for f in samples() {
        let back = decode_frame(&encode_frame(&f)).unwrap();
        assert_eq!(as_wire(&back), as_wire(&f));
    }
}

#[test]
fn exact_bytes_of_a_small_frame() {
    let f = FeishuFrame {
        seq_id: 1,
        log_id: 0,
        service: 300,
        method: 0,
        headers: vec![FeishuHeader { key: "a".into(), value: "b".into() }],
        payload_encoding: String::new(),
        payload_type: String::new(),
        payload: vec![9],
        log_id_new: String::new(),
    };
    assert_eq!(
        encode_frame(&f),
        vec![0x08, 1, 0x18, 0xac, 0x02, 0x2a, 6, 0x0a, 1, b'a', 0x12, 1, b'b', 0x42, 1, 9]
    );
}

/// Every byte string is taken or refused as `prost` does, with the same frame.
fn compare(bytes: &[u8]) {
    let ours = decode_frame(bytes);
    let theirs = WireFrame::decode(bytes);
    match (ours, theirs) {
        (Ok(a), Ok(b)) => assert_eq!(as_wire(&a), b, "{bytes:?}"),
        (Err(_), Err(_)) => {},
        (a, b) => panic!("{bytes:?}: {:?} against {:?}", a.is_ok(), b.is_ok()),
    }
}

#[test]
fn decoding_agrees_with_prost_on_damaged_frames() {
    for f in samples() {
        let bytes = encode_frame(&f);
        let step = 1 + bytes.len() / 120;
        for cut in (0..bytes.len()).step_by(step) {
            compare(&bytes[..cut]);
        }
        for at in (0..bytes.len()).step_by(step) {
            for bit in 0..8 {
                let mut b = bytes.clone();
                b[at] ^= 1 << bit;
                compare(&b);
            }
        }
    }
}

#[test]
fn decoding_agrees_with_prost_on_arbitrary_bytes() {
    let mut x: u64 = 0x9e37_79b9_7f4a_7c15;
    for len in 0..40usize {
        for _ in 0..300 {
            let mut b = Vec::new();
            for _ in 0..len {
                x ^= x << 13;
                x ^= x >> 7;
                x ^= x << 17;
                let r = (x >> 32) as u8;
                b.push(if r & 0x80 != 0 { r & 0x0f } else { r });
            }
            compare(&b);
        }
    }
}

#[test]
fn fields_in_another_order_and_unknown_fields_are_taken() {
    // The method before the sequence id, an unknown varint, fixed64, text, group and fixed32.
    let bytes = [
        0x20, 5, 0x50, 1, 0x59, 1, 2, 3, 4, 5, 6, 7, 8, 0x62, 2, 1, 2, 0x6b, 0x08, 1, 0x6c, 0x75, 1,
        2, 3, 4, 0x08, 9, 0x08, 10,
    ];
    compare(&bytes);
    let f = decode_frame(&bytes).unwrap();
    assert_eq!(f.method, 5);
    assert_eq!(f.seq_id, 10);
}

#[test]
fn damaged_frames_are_refused() {
    assert!(decode_frame(&[0x08]).is_err());
    assert!(decode_frame(&[0x00, 0x00]).is_err());
    assert!(decode_frame(&[0x42, 5, 1]).is_err());
    assert!(decode_frame(&[0x32, 1, 0xff]).is_err());
    assert!(decode_frame(&[]).is_ok());
}
