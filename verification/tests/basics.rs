//! Texts, JSON, encodings, URLs and clocks.

use moltis_feishu::clock::{now_ms, seconds_of, unix_now};
use moltis_feishu::encoding::{base64_bytes, data_uri, parse_data_url};
use moltis_feishu::json::{parse_text, Json};
use moltis_feishu::text::{
    contains, decimal_text, ends_with, find, first_word, is_whitespace, join, parse_i32, parse_u64,
    parse_usize, signed_decimal_text, split_char, split_words, starts_with, strip_prefix,
    to_ascii_lowercase, trim, trim_char, trim_end, trim_start,
};

fn samples() -> Vec<&'static str> {
    vec![
        "",
        " ",
        "a",
        "  a b  ",
        "\u{3000}中文\u{a0} x\u{2028}",
        "a/b//c/",
        "ÀÉ a\tb\nc",
        "\u{85}x",
        "aXbX",
    ]
}

#[test]
fn trimming_and_splitting_agree_with_std() {
    for s in samples() {
        assert_eq!(trim(s), s.trim());
        assert_eq!(trim_start(s), s.trim_start());
        assert_eq!(trim_end(s), s.trim_end());
        assert_eq!(trim_char(s, '/'), s.trim_matches('/'));
        assert_eq!(split_words(s), s.split_whitespace().collect::<Vec<_>>());
        assert_eq!(first_word(s), s.split_whitespace().next().unwrap_or(""));
        assert_eq!(split_char(s, '/'), s.split('/').collect::<Vec<_>>());
        assert_eq!(to_ascii_lowercase(s), s.to_ascii_lowercase());
    }
    for c in (0..0x3100u32).filter_map(char::from_u32) {
        assert_eq!(is_whitespace(c), c.is_whitespace(), "{c:?}");
    }
}

#[test]
fn searching_agrees_with_std() {
    for s in samples() {
        for p in ["", "a", "b", "//", "中文", "X", "a b"] {
            assert_eq!(contains(s, p), s.contains(p));
            assert_eq!(starts_with(s, p), s.starts_with(p));
            assert_eq!(ends_with(s, p), s.ends_with(p));
            assert_eq!(strip_prefix(s, p), s.strip_prefix(p));
            assert_eq!(find(s, p), s.find(p).map(|b| s[..b].chars().count()));
        }
    }
}

#[test]
fn numbers_agree_with_std() {
    for s in ["0", "7", "+7", "-7", "007", "", "+", "-", "4294967296", "18446744073709551615", "18446744073709551616", "2147483647", "2147483648", "-2147483648", "-2147483649", "1a", " 1"] {
        assert_eq!(parse_u64(s), s.parse::<u64>().ok(), "{s}");
        assert_eq!(parse_usize(s), s.parse::<usize>().ok(), "{s}");
        assert_eq!(parse_i32(s), s.parse::<i32>().ok(), "{s}");
    }
    for n in [0u64, 9, 10, 12345, u64::MAX] {
        assert_eq!(decimal_text(n), n.to_string());
        assert_eq!(parse_u64(&decimal_text(n)), Some(n));
    }
    for n in [0i64, -1, i64::MIN, i64::MAX] {
        assert_eq!(signed_decimal_text(n), n.to_string());
    }
    assert_eq!(join(&vec!["a".into(), "b".into()], "; "), "a; b");
}

#[test]
fn json_documents() {
    let j = parse_text(r#"{"a":[1,-2,1.5,true,null,"x"],"b":{"c":"d"}}"#).unwrap();
    let items = j.items_at("a").unwrap();
    assert_eq!(items.len(), 6);
    assert_eq!(items[0].as_u64(), Some(1));
    assert_eq!(items[1].as_u64(), None);
    assert_eq!(items[3].as_bool(), Some(true));
    assert!(matches!(items[4], Json::Null));
    assert_eq!(j.get("b").unwrap().text_at("c"), Some("d"));
    assert!(j.get("z").is_none());
    assert!(parse_text("{").is_none());
    let k = j.copy();
    assert_eq!(format!("{k:?}"), format!("{j:?}"));
}

#[test]
fn base64_and_data_urls() {
    for bytes in [vec![], vec![0u8], vec![1, 2], vec![1, 2, 3], (0..=255).collect::<Vec<u8>>()] {
        let uri = data_uri("image/png", &bytes);
        let (mime, back) = parse_data_url(&uri).unwrap();
        assert_eq!(mime, "image/png");
        assert_eq!(back, bytes);
    }
    assert_eq!(data_uri("a/b", b"OggS"), "data:a/b;base64,T2dnUw==");
    assert_eq!(base64_bytes("T2dnUw==").unwrap(), b"OggS");
    assert!(base64_bytes("T2dnUw").is_none());
    assert!(base64_bytes("!!!!").is_none());
    assert!(parse_data_url("https://x").is_none());
}

#[test]
fn clocks_show_the_same_time() {
    let s = unix_now();
    let ms = now_ms();
    assert!(s > 1_600_000_000);
    assert!(ms / 1000 - s <= 2);
    assert_eq!(seconds_of(1_600_000_000_999), 1_600_000_000);
    assert_eq!(seconds_of(999), 0);
}
