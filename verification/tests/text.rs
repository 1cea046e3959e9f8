use serial_tool::text::{decimal_text, is_whitespace, split_words, trim_str};

#[test]
fn trimming_matches_std_on_unicode_whitespace() {
    for text in [
        "",
        "   ",
        " COM4 ",
        "\t\r\nCOM4\u{a0}",
        "\u{3000}port name\u{2029}",
        "\u{85}x\u{200a}",
        "a\u{200b}",
    ] {
        assert_eq!(trim_str(text), text.trim(), "{text:?}");
    }
    assert_eq!(trim_str("\u{3000} COM4 \u{a0}"), "COM4");
}

#[test]
fn words_match_split_whitespace() {
    for text in [
        "",
        "GET /status HTTP/1.1\r\n",
        "  POST\t/command  HTTP/1.0\r\n",
        "a\u{3000}b\u{1680}c",
        "one",
        "\u{2028}",
    ] {
        let expected: Vec<String> = text.split_whitespace().map(String::from).collect();
        assert_eq!(split_words(text), expected, "{text:?}");
    }
}

#[test]
fn whitespace_is_the_unicode_property() {
    for c in ['\t', '\n', '\u{b}', '\u{c}', '\r', ' ', '\u{85}', '\u{a0}', '\u{1680}', '\u{2000}',
        '\u{200a}', '\u{2028}', '\u{2029}', '\u{202f}', '\u{205f}', '\u{3000}']
    {
        assert!(is_whitespace(c), "{c:?}");
    }
    for c in ['a', '0', '\u{200b}', '\u{feff}', '\u{180e}', '\u{8}', '\u{e}'] {
        assert!(!is_whitespace(c), "{c:?}");
    }
    for code in 0..0x3100u32 {
        if let Some(c) = char::from_u32(code) {
            assert_eq!(is_whitespace(c), c.is_whitespace(), "{code:#x}");
        }
    }
}

#[test]
fn decimal_text_writes_like_display() {
    for n in [0u128, 7, 10, 99, 100, 1024, 1048576, u64::MAX as u128, u128::MAX] {
        assert_eq!(decimal_text(n), n.to_string());
    }
}
