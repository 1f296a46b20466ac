use dynamic_diagram::kitty::{base64_encode, kitty_png};
use dynamic_diagram::text::{byte_len, chars_of, decimal, push_hex_byte, same_text};
use dynamic_diagram::typography::{escape, valid_text};

#[test]
fn base64_of_fakepng() {
    assert_eq!(base64_encode(b"fakepng"), "ZmFrZXBuZw==");
}

#[test]
fn base64_pads_partial_groups() {
    assert_eq!(base64_encode(b""), "");
    assert_eq!(base64_encode(b"M"), "TQ==");
    assert_eq!(base64_encode(b"Ma"), "TWE=");
    assert_eq!(base64_encode(b"Man"), "TWFu");
    assert_eq!(base64_encode(&[0xff, 0xfe, 0xfd]), "//79");
}

#[test]
fn base64_length_is_four_per_started_triple() {
    for n in 0..20usize {
        let data = vec![7u8; n];
        assert_eq!(base64_encode(&data).len(), (n + 2) / 3 * 4);
    }
}

#[test]
fn kitty_single_chunk_carries_the_header() {
    let out = kitty_png(b"fakepng", 40, 12);
    assert_eq!(out, "\x1b_Ga=T,f=100,i=1,c=40,r=12,q=2,m=0;ZmFrZXBuZw==\x1b\\");
}

#[test]
fn kitty_splits_payload_into_4096_byte_chunks() {
    let png = vec![1u8; 3100];
    let b64 = base64_encode(&png);
    assert!(b64.len() > 4096);
    let out = kitty_png(&png, 2, 3);
    let first = format!("\x1b_Ga=T,f=100,i=1,c=2,r=3,q=2,m=1;{}\x1b\\", &b64[..4096]);
    let second = format!("\x1b_Gm=0;{}\x1b\\", &b64[4096..]);
    assert_eq!(out, format!("{first}{second}"));
}

#[test]
fn kitty_empty_png_writes_nothing() {
    assert_eq!(kitty_png(b"", 1, 1), "");
}

#[test]
fn valid_text_rejects_controls_and_noncharacters() {
    assert!(valid_text("plain text · ok"));
    assert!(valid_text("tab\tnew\nline\r"));
    assert!(!valid_text("\u{0}"));
    assert!(!valid_text("bell\u{7}"));
    assert!(!valid_text("\u{85}"));
    assert!(!valid_text("\u{FFFF}"));
    assert!(!valid_text("\u{FFFE}"));
}

#[test]
fn escape_replaces_markup_characters() {
    assert_eq!(escape("<a & \"b\">"), "&lt;a &amp; &quot;b&quot;&gt;");
    assert_eq!(escape("it's fine"), "it's fine");
}

#[test]
fn escaped_text_holds_no_markup() {
    let e = escape("<<&&>>\"\"");
    assert!(!e.contains('<') && !e.contains('>') && !e.contains('"'));
}

#[test]
fn text_helpers() {
    assert_eq!(decimal(0), "0");
    assert_eq!(decimal(1234567), "1234567");
    assert_eq!(byte_len("é→"), 5);
    assert!(same_text("abc", "abc"));
    assert!(!same_text("abc", "abd"));
    assert!(!same_text("abc", "ab"));
    let mut s = String::from("x");
    push_hex_byte(&mut s, 0x0f);
    assert_eq!(s, "x0x0f");
    assert_eq!(chars_of("aé"), vec!['a', 'é']);
}

fn b64_value(c: u8) -> u32 {
    match c {
        b'A'..=b'Z' => (c - b'A') as u32,
        b'a'..=b'z' => (c - b'a') as u32 + 26,
        b'0'..=b'9' => (c - b'0') as u32 + 52,
        b'+' => 62,
        b'/' => 63,
        _ => panic!("not in the base64 alphabet: {c}"),
    }
}

fn b64_decode(s: &str) -> Vec<u8> {
    let mut out = Vec::new();
    for group in s.as_bytes().chunks(4) {
        let pad = group.iter().filter(|&&c| c == b'=').count();
        let mut n: u32 = 0;
        for &c in group {
            n = n * 64 + if c == b'=' { 0 } else { b64_value(c) };
        }
        let bytes = [(n >> 16) as u8, (n >> 8) as u8, n as u8];
        out.extend_from_slice(&bytes[..3 - pad]);
    }
    out
}

#[test]
fn base64_uses_the_alphabet_then_exact_padding_and_decodes_back() {
    for n in 0..12usize {
        let data: Vec<u8> = (0..n).map(|i| (i as u8).wrapping_mul(97).wrapping_add(3)).collect();
        let r = base64_encode(&data);
        let pad = (3 - n % 3) % 3;
        assert!(r.ends_with(&"=".repeat(pad)));
        let body = &r[..r.len() - pad];
        assert!(body.bytes().all(|c| c.is_ascii_alphanumeric() || c == b'+' || c == b'/'));
        assert_eq!(b64_decode(&r), data);
    }
}

fn unescape(s: &str) -> String {
    s.replace("&quot;", "\"").replace("&gt;", ">").replace("&lt;", "<").replace("&amp;", "&")
}

#[test]
fn escape_round_trips_and_every_ampersand_starts_an_entity() {
    for s in ["", "plain", "<a & \"b\">", "&amp;", "&&lt;<", "x&quot;y"] {
        let e = escape(s);
        assert_eq!(unescape(&e), s);
        for (i, _) in e.match_indices('&') {
            let rest = &e[i..];
            assert!(["&amp;", "&lt;", "&gt;", "&quot;"].iter().any(|ent| rest.starts_with(ent)));
        }
    }
}
