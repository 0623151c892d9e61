use prek::strings;
use prek::text::Class;

#[test]
fn white_space_is_that_of_the_standard_library() {
    for n in 0..=0x10ffff_u32 {
        if let Some(c) = char::from_u32(n) {
            assert_eq!(Class::Space.contains(c), c.is_whitespace());
            assert_eq!(Class::AsciiSpace.contains(c), c.is_ascii_whitespace());
        }
    }
}

#[test]
fn strings_are_trimmed() {
    assert_eq!(strings::trim("\u{a0} a b\t", Class::Space), "a b");
    assert_eq!(strings::trim_end("a\r\n\n", Class::LineEnd), "a");
    assert_eq!(strings::trim("\"\"a\"", Class::Only('"')), "a");
    assert_eq!(strings::trim("   ", Class::Space), "");
}

#[test]
fn strings_are_split() {
    assert_eq!(strings::split("a.b..", '.'), vec!["a", "b", "", ""]);
    assert_eq!(strings::split("", '.'), vec![""]);
    assert_eq!(strings::words("  a\tb \n", Class::Space), vec!["a", "b"]);
    assert_eq!(strings::split_once("a=b=c", '='), Some(("a".to_string(), "b=c".to_string())));
    assert_eq!(strings::split_once("a", '='), None);
}

#[test]
fn lines_are_those_of_the_standard_library() {
    for text in ["", "\n", "a", "a\n", "a\r\nb", "a\n\nb\r", "\r\n\r\n", "a\rb"] {
        let want: Vec<String> = text.lines().map(|line| line.to_string()).collect();
        assert_eq!(strings::lines(text), want);
    }
}

#[test]
fn numbers_are_those_of_the_standard_library() {
    for text in [
        "0",
        "7",
        "+7",
        "007",
        "-1",
        "",
        "+",
        "1a",
        "18446744073709551615",
        "18446744073709551616",
        "\u{661}",
    ] {
        assert_eq!(strings::parse_u64(text), text.parse::<u64>().ok());
    }
}

#[test]
fn parts_are_found() {
    assert!(strings::contains("abc", "bc"));
    assert!(strings::contains("abc", ""));
    assert!(!strings::contains("abc", "ca"));
    assert!(strings::starts_with("abc", "ab"));
    assert!(!strings::starts_with("abc", "abcd"));
    assert!(strings::ends_with("abc", "bc"));
    assert_eq!(strings::strip_prefix("cli:x", "cli:"), Some("x".to_string()));
    assert_eq!(strings::strip_prefix("x", "cli:"), None);
    assert_eq!(strings::replace("a-b-c", '-', '_'), "a_b_c");
    assert!(strings::same_ignoring_case("LaTest", "latest"));
    assert!(!strings::same_ignoring_case("latesu", "latest"));
}
