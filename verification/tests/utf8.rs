use publichat::client::{rposition_byte, validate_utf8};

#[test]
fn ascii_and_empty_are_valid() {
    assert!(validate_utf8(&Vec::new()));
    assert!(validate_utf8(&b"plain ascii 123".to_vec()));
}

#[test]
fn multibyte_sequences_are_valid() {
    for s in ["héllo", "日本語", "emoji 🎉 works", "mixed é日🎉"] {
        assert!(validate_utf8(&s.as_bytes().to_vec()), "{s}");
    }
}

#[test]
fn stray_continuation_is_invalid() {
    assert!(!validate_utf8(&vec![0x80]));
    assert!(!validate_utf8(&vec![b'a', 0xBF, b'b']));
}

#[test]
fn truncated_sequences_are_invalid() {
    assert!(!validate_utf8(&vec![0xC3])); // é cut short
    assert!(!validate_utf8(&vec![0xE3, 0x81])); // 3-byte cut short
    assert!(!validate_utf8(&vec![0xF0, 0x9F, 0x8E])); // 4-byte cut short
}

#[test]
fn overlong_forms_are_invalid() {
    assert!(!validate_utf8(&vec![0xC0, 0x80])); // overlong NUL
    assert!(!validate_utf8(&vec![0xC1, 0xBF]));
    assert!(!validate_utf8(&vec![0xE0, 0x80, 0x80])); // overlong 3-byte
    assert!(!validate_utf8(&vec![0xF0, 0x80, 0x80, 0x80])); // overlong 4-byte
}

#[test]
fn surrogates_and_too_large_are_invalid() {
    assert!(!validate_utf8(&vec![0xED, 0xA0, 0x80])); // U+D800
    assert!(!validate_utf8(&vec![0xF4, 0x90, 0x80, 0x80])); // above U+10FFFF
    assert!(!validate_utf8(&vec![0xF5, 0x80, 0x80, 0x80]));
    assert!(!validate_utf8(&vec![0xFF]));
}

#[test]
fn boundary_code_points_are_valid() {
    for s in ["\u{7F}", "\u{80}", "\u{7FF}", "\u{800}", "\u{D7FF}", "\u{E000}", "\u{FFFF}",
        "\u{10000}", "\u{10FFFF}"] {
        assert!(validate_utf8(&s.as_bytes().to_vec()), "U+{:X}", s.chars().next().unwrap() as u32);
    }
}

#[test]
fn agreement_with_std_on_random_bytes() {
    // a simple deterministic byte soup: the validator must agree with std
    let mut state = 0x12345678u32;
    for round in 0..200 {
        let mut bytes = Vec::new();
        for _ in 0..(round % 17) + 1 {
            state = state.wrapping_mul(1664525).wrapping_add(1013904223);
            bytes.push((state >> 24) as u8);
        }
        assert_eq!(
            validate_utf8(&bytes),
            std::str::from_utf8(&bytes).is_ok(),
            "{bytes:?}"
        );
    }
}

#[test]
fn rposition_finds_the_last_occurrence() {
    assert_eq!(rposition_byte(&vec![1, 2, 3, 2, 1], 2), Some(3));
    assert_eq!(rposition_byte(&vec![1, 2, 3], 9), None);
    assert_eq!(rposition_byte(&Vec::new(), 0), None);
    assert_eq!(rposition_byte(&vec![5], 5), Some(0));
}
