use p2psocial::escape::debug_bytes;

fn std_rendering(bs: &[u8]) -> String {
    let mut visible = String::new();
    for &b in bs {
        let part: Vec<u8> = std::ascii::escape_default(b).collect();
        visible.push_str(std::str::from_utf8(&part).unwrap());
    }
    visible
}

#[test]
fn debug_bytes_escapes_specials() {
    assert_eq!(debug_bytes(b"a\tb\r\n"), "a\\tb\\r\\n");
    assert_eq!(debug_bytes(b"'\"\\"), "\\'\\\"\\\\");
    assert_eq!(debug_bytes(b"\x00\x1f\x7f\x9d\xff"), "\\x00\\x1f\\x7f\\x9d\\xff");
    assert_eq!(debug_bytes(b"{\"type\":\"Ping\"}"), "{\\\"type\\\":\\\"Ping\\\"}");
    assert_eq!(debug_bytes(b""), "");
}

#[test]
fn debug_bytes_matches_escape_default_for_every_byte() {
    let all: Vec<u8> = (0u8..=255).collect();
    assert_eq!(debug_bytes(&all), std_rendering(&all));
    for b in 0u8..=255 {
        assert_eq!(debug_bytes(&[b]), std_rendering(&[b]));
    }
}

#[test]
fn debug_bytes_is_printable_and_distinguishes_inputs() {
    let rendered = debug_bytes(&(0u8..=255).collect::<Vec<u8>>());
    assert!(rendered.bytes().all(|c| (0x20..=0x7e).contains(&c)));
    // "\t" (one tab byte) and "\\t" (backslash, t) render differently
    assert_ne!(debug_bytes(b"\t"), debug_bytes(b"\\t"));
    assert_eq!(debug_bytes(b"ab"), format!("{}{}", debug_bytes(b"a"), debug_bytes(b"b")));
}
