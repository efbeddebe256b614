use blemesh::chat::{advertised_name, chat_text, guest_name, nickname};

#[test]
fn guests_have_four_digits() {
    assert_eq!(guest_name(0), "Guest-0000");
    assert_eq!(guest_name(42), "Guest-0042");
    assert_eq!(guest_name(9999), "Guest-9999");
}

#[test]
fn nickname_is_what_was_asked_for() {
    assert_eq!(nickname(Some("Alice".to_string())), "Alice");
    let guest = nickname(None);
    assert_eq!(guest.len(), 10);
    assert!(guest.starts_with("Guest-"));
    assert!(guest[6..].chars().all(|c| c.is_ascii_digit()));
}

#[test]
fn random_guests_differ() {
    let first = nickname(None);
    assert!((0..200).any(|_| nickname(None) != first));
}

#[test]
fn advertised_names() {
    assert_eq!(advertised_name("Alice"), "blemesh-Alice");
}

#[test]
fn lines_are_trimmed() {
    assert_eq!(chat_text("  hi there \t\r\n"), Some("hi there".to_string()));
    assert_eq!(chat_text("\u{3000}\u{a0}h\u{e9}\u{2003}"), Some("h\u{e9}".to_string()));
    assert_eq!(chat_text("x"), Some("x".to_string()));
    assert_eq!(chat_text(""), None);
    assert_eq!(chat_text(" \t "), None);
    for line in ["a b", " a", "a ", "\u{200b}a", "\u{85}a\u{2028}"] {
        assert_eq!(chat_text(line), Some(line.trim().to_string()));
    }
}

#[test]
fn white_space_is_the_unicode_property() {
    for c in '\0'..=char::MAX {
        let white = matches!(
            c as u32,
            0x9..=0xd
                | 0x20
                | 0x85
                | 0xa0
                | 0x1680
                | 0x2000..=0x200a
                | 0x2028
                | 0x2029
                | 0x202f
                | 0x205f
                | 0x3000
        );
        let mut buf = [0u8; 4];
        assert_eq!(chat_text(c.encode_utf8(&mut buf)).is_none(), white);
    }
}
