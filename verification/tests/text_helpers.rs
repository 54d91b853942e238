use pf_runtime::text::{join, parse_i64, push_hex, push_i64, starts_with, str_eq, trim};

#[test]
fn string_equality_compares_every_character() {
    assert!(str_eq("", ""));
    assert!(str_eq("monoAudio", "monoAudio"));
    assert!(!str_eq("monoAudio", "monoaudio"));
    assert!(!str_eq("mono", "monoAudio"));
    assert!(!str_eq("monoAudio", "mono"));
    assert!(str_eq("150%", "150%"));
}

#[test]
fn prefix_test_matches_std() {
    for (s, p) in [("pf-north", "pf-"), ("pf", "pf-"), ("", ""), ("abc", ""), ("abc", "abd")] {
        assert_eq!(starts_with(s, p), s.starts_with(p));
    }
}

#[test]
fn number_rendering_and_parsing() {
    let mut s = String::new();
    push_i64(&mut s, -42);
    s.push(' ');
    push_hex(&mut s, 0x1f2);
    assert_eq!(s, "-42 1f2");
    assert_eq!(parse_i64("-17"), Some(-17));
    assert_eq!(parse_i64("x1"), None);
    assert_eq!(trim("  a b \n"), "a b");
    assert_eq!(join(&vec!["a".to_string(), "b".to_string()], ", "), "a, b");
}
