use encryption_cli::text::{is_white_space_char, password_from_input, str_eq};

#[test]
fn password_is_trimmed() {
    assert_eq!(password_from_input("  secret\n"), "secret");
    assert_eq!(password_from_input("\tpass word\r\n"), "pass word");
    assert_eq!(password_from_input("\u{3000}x\u{a0}"), "x");
    assert_eq!(password_from_input(" \n "), "");
    assert_eq!(password_from_input(""), "");
    for s in ["  a b ", "\u{2028}é\u{85}", "plain"] {
        assert_eq!(password_from_input(s), s.trim());
    }
}

#[test]
fn white_space_matches_std() {
    for c in ['\u{0}', ' ', '\t', '\u{b}', '\u{1c}', 'a', '\u{85}', '\u{a0}', '\u{1680}', '\u{180e}',
        '\u{2000}', '\u{200a}', '\u{200b}', '\u{2028}', '\u{2029}', '\u{202f}', '\u{205f}', '\u{3000}', '\u{feff}'] {
        assert_eq!(is_white_space_char(c), c.is_whitespace(), "{c:?}");
    }
}

#[test]
fn string_equality() {
    assert!(str_eq("--name", "--name"));
    assert!(!str_eq("--name", "--nam"));
    assert!(!str_eq("é", "e"));
    assert!(str_eq("", ""));
}
