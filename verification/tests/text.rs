use stemify::text::{chars_of, contains, push_decimal, same_text, trim, white_space};

#[test]
fn substring_search() {
    assert!(contains("cable input (vb)", "cable input"));
    assert!(contains("abc", ""));
    assert!(contains("", ""));
    assert!(!contains("", "a"));
    assert!(!contains("ab", "abc"));
    assert!(contains("aab", "ab"));
    assert!(contains("ünïcödé", "cöd"));
}

#[test]
fn texts_compare_exactly() {
    assert!(same_text("vocals", "vocals"));
    assert!(!same_text("vocals", "Vocals"));
    assert!(!same_text("vocal", "vocals"));
    assert_eq!(chars_of("añb"), vec!['a', 'ñ', 'b']);
}

#[test]
fn decimals() {
    let mut s = String::from("n=");
    push_decimal(&mut s, 0);
    assert_eq!(s, "n=0");
    let mut s = String::new();
    push_decimal(&mut s, 1090);
    assert_eq!(s, "1090");
}

#[test]
fn white_space_is_unicode_white_space() {
    for u in 0u32..=0x10FFFF {
        if let Some(c) = char::from_u32(u) {
            assert_eq!(white_space(c), c.is_whitespace(), "U+{u:04X}");
        }
    }
}

#[test]
fn trimming_removes_white_space_at_both_ends() {
    assert_eq!(trim("  vocals\t\n"), "vocals");
    assert_eq!(trim("\u{3000}a b\u{85}"), "a b");
    assert_eq!(trim("   "), "");
    assert_eq!(trim(""), "");
    assert_eq!(trim("drums"), "drums");
    for s in [" x ", "\u{2028}y\u{2009}", "a\u{200B}", "\u{FEFF}z"] {
        assert_eq!(trim(s), s.trim());
    }
}
