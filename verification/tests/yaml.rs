use prek::yaml::{Quote, YamlError, read_scalar, scalar_document, serialize_yaml_scalar};

#[test]
fn serialize_yaml_scalar_plain() {
    let rendered = serialize_yaml_scalar("v1.2.3", "").unwrap();
    assert_eq!(rendered, "v1.2.3");
    let rendered = serialize_yaml_scalar("v1.2.3", "'").unwrap();
    assert_eq!(rendered, "'v1.2.3'");
    let rendered = serialize_yaml_scalar("v1.2.3", "\"").unwrap();
    assert_eq!(rendered, "\"v1.2.3\"");
    let rendered = serialize_yaml_scalar("123", "").unwrap();
    assert_eq!(rendered, "123");
    let rendered = serialize_yaml_scalar("123", "'").unwrap();
    assert_eq!(rendered, "'123'");
    let rendered = serialize_yaml_scalar("123", "\"").unwrap();
    assert_eq!(rendered, "\"123\"");
    let rendered = serialize_yaml_scalar("a:b", "'").unwrap();
    assert_eq!(rendered, "'a:b'");
    let rendered = serialize_yaml_scalar("a\"b", "\"").unwrap();
    assert_eq!(rendered, "\"a\\\"b\"");
    let rendered = serialize_yaml_scalar("a'b", "'").unwrap();
    assert_eq!(rendered, "'a''b'");
}

#[test]
fn a_scalar_with_a_nul_cannot_be_written() {
    assert_eq!(serialize_yaml_scalar("a\0b", ""), Err(YamlError::Emitter));
}

#[test]
fn the_quotes_of_the_caller_are_asked_for() {
    assert_eq!(scalar_document("a", "'").style, Some(Quote::Single));
    assert_eq!(scalar_document("a", "\"").style, Some(Quote::Double));
    assert_eq!(scalar_document("a", "`").style, None);
    let document = scalar_document("a", "");
    assert!(document.plain_implicit && document.quoted_implicit);
    assert!(document.start_implicit && document.end_implicit);
}

#[test]
fn the_text_of_a_scalar_ends_without_space() {
    assert_eq!(read_scalar(&b"'a b' \n...\n".to_vec()).unwrap(), "'a b' \n...");
    assert_eq!(read_scalar(&"a\u{2003}\n".as_bytes().to_vec()).unwrap(), "a");
    assert_eq!(read_scalar(&b"\n".to_vec()).unwrap(), "");
    assert_eq!(read_scalar(&vec![0x61, 0xff]), Err(YamlError::NotUtf8));
}

#[test]
fn the_quotes_of_the_caller_are_kept() {
    let in_quotes = |value: &str, quote: &str| {
        let text = serialize_yaml_scalar(value, quote).unwrap();
        text.len() >= 2 && text.starts_with(quote) && text.ends_with(quote)
    };
    for value in ["", " a b ", "x: y", "'", "\"", "\\", "\u{e9}\t\n", "#", "- a"] {
        assert!(in_quotes(value, "\""));
    }
    for value in ["", " a b ", "x: y", "'", "\"", "\\", "#", "- a"] {
        assert!(in_quotes(value, "'"));
    }
    let long = "many words ".repeat(20);
    assert!(in_quotes(&long, "\""));
    assert!(in_quotes(&long, "'"));
    // What single quotes cannot express gets double quotes.
    assert_eq!(serialize_yaml_scalar("\u{e9}", "'").unwrap(), "\"\\xE9\"");
    assert_eq!(serialize_yaml_scalar("\u{1f600}", "").unwrap(), "\"\\U0001F600\"");
}

#[test]
fn a_quoted_word_is_read_back() {
    for value in ["v1.2.3", "", "a'b", "''", "a\"b", "a\\b", "\\\"'"] {
        let single = serialize_yaml_scalar(value, "'").unwrap();
        let inner = &single[1..single.len() - 1];
        assert_eq!(inner.replace("''", "'"), value);
        let double = serialize_yaml_scalar(value, "\"").unwrap();
        let mut read = String::new();
        let mut chars = double[1..double.len() - 1].chars();
        while let Some(c) = chars.next() {
            read.push(if c == '\\' { chars.next().unwrap() } else { c });
        }
        assert_eq!(read, value);
    }
}

#[test]
fn words_are_written_exactly() {
    assert_eq!(serialize_yaml_scalar("a\\b\"'", "\"").unwrap(), "\"a\\\\b\\\"'\"");
    assert_eq!(serialize_yaml_scalar("a\\b\"'", "'").unwrap(), "'a\\b\"'''");
    assert_eq!(serialize_yaml_scalar("", "'").unwrap(), "''");
    assert_eq!(serialize_yaml_scalar("a_b/c-d.e", "").unwrap(), "a_b/c-d.e");
}
