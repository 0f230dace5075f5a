use hvnv::text::{
    digit_value, index_text, is_space, is_word, parse_index, pieces, same_text, to_lower, tokens,
};

#[test]
fn text_is_space() {
    for c in [' ', '\t', '\n', '\u{b}', '\u{c}', '\r', '\u{85}', '\u{a0}', '\u{1680}', '\u{2000}',
        '\u{200a}', '\u{2028}', '\u{2029}', '\u{202f}', '\u{205f}', '\u{3000}']
    {
        assert!(is_space(c));
    }
    for c in ['a', '0', '\u{8}', '\u{e}', '\u{1f}', '!', '\u{84}', '\u{86}', '\u{200b}',
        '\u{180e}', '\u{feff}']
    {
        assert!(!is_space(c));
    }
}

#[test]
fn text_is_space_agrees_with_std() {
    let mut code: u32 = 0;
    while code <= 0x3100 {
        if let Some(c) = char::from_u32(code) {
            assert_eq!(is_space(c), c.is_whitespace());
        }
        code += 1;
    }
}

#[test]
fn text_to_lower() {
    assert_eq!(to_lower('A'), 'a');
    assert_eq!(to_lower('M'), 'm');
    assert_eq!(to_lower('Z'), 'z');
    assert_eq!(to_lower('a'), 'a');
    assert_eq!(to_lower('z'), 'z');
    assert_eq!(to_lower('@'), '@');
    assert_eq!(to_lower('['), '[');
    assert_eq!(to_lower('0'), '0');
    assert_eq!(to_lower('É'), 'É');
    let mut c = 'A';
    while c <= 'Z' {
        assert_eq!(to_lower(c), c.to_ascii_lowercase());
        c = char::from_u32(c as u32 + 1).unwrap();
    }
}

#[test]
fn text_is_word() {
    assert!(is_word("create", "create"));
    assert!(is_word("CrEaTe", "create"));
    assert!(!is_word("create", "creat"));
    assert!(!is_word("creat", "create"));
    assert!(!is_word("create", "Create"));
    assert!(is_word("", ""));
    assert!(!is_word("", "a"));
}

#[test]
fn text_same_text() {
    assert!(same_text("", ""));
    assert!(same_text("node", "node"));
    assert!(!same_text("node", "Node"));
    assert!(!same_text("node", "nod"));
    assert!(!same_text("nod", "node"));
    assert!(same_text("é→", "é→"));
}

#[test]
fn text_tokens() {
    assert!(tokens("").is_empty());
    assert!(tokens("   ").is_empty());
    assert!(tokens("\t\r\n\u{3000}").is_empty());
    assert_eq!(tokens("a"), vec!["a"]);
    assert_eq!(tokens(" a"), vec!["a"]);
    assert_eq!(tokens("a "), vec!["a"]);
    assert_eq!(tokens(" a b "), vec!["a", "b"]);
    assert_eq!(tokens("a  b"), vec!["a", "b"]);
    assert_eq!(tokens("\ta\tb c\n"), vec!["a", "b", "c"]);
    assert_eq!(tokens("é ü→ x"), vec!["é", "ü→", "x"]);
    assert_eq!(tokens("a \t b"), vec!["a", "b"]);
    assert_eq!(tokens("a\u{a0}b\u{2028}c"), vec!["a", "b", "c"]);
    assert_eq!(tokens("a,b:c"), vec!["a,b:c"]);
}

#[test]
fn text_tokens_agree_with_std() {
    for line in [
        "", " ", "a", "a b", " a  b   c ", "create cb  x", "\t x y \r\n", "é  ü", "list\tx",
        "\u{85}a\u{1680}\u{2000}b\u{205f}", "ab", "  ab", "ab  ",
    ] {
        let expected: Vec<&str> = line.split_whitespace().collect();
        assert_eq!(tokens(line), expected);
    }
}

#[test]
fn text_digit_value() {
    assert_eq!(digit_value('0'), Some(0));
    assert_eq!(digit_value('5'), Some(5));
    assert_eq!(digit_value('9'), Some(9));
    assert_eq!(digit_value('a'), None);
    assert_eq!(digit_value('/'), None);
    assert_eq!(digit_value(':'), None);
    assert_eq!(digit_value('٣'), None);
}

#[test]
fn text_parse_index() {
    assert_eq!(parse_index("0"), Some(0));
    assert_eq!(parse_index("7"), Some(7));
    assert_eq!(parse_index("42"), Some(42));
    assert_eq!(parse_index("007"), Some(7));
    assert_eq!(parse_index("+3"), Some(3));
    assert_eq!(parse_index(""), None);
    assert_eq!(parse_index("+"), None);
    assert_eq!(parse_index("-1"), None);
    assert_eq!(parse_index("++1"), None);
    assert_eq!(parse_index("1+"), None);
    assert_eq!(parse_index(" 1"), None);
    assert_eq!(parse_index("1 "), None);
    assert_eq!(parse_index("z"), None);
    assert_eq!(parse_index("1z"), None);
    assert_eq!(parse_index("٣"), None);
    assert_eq!(parse_index(&usize::MAX.to_string()), Some(usize::MAX));
    assert_eq!(parse_index(&format!("{}0", usize::MAX)), None);
    assert_eq!(parse_index(&format!("{}", usize::MAX as u128 + 1)), None);
    assert_eq!(parse_index("99999999999999999999999999"), None);
}

#[test]
fn text_parse_index_agrees_with_std() {
    for text in ["0", "12", "+12", "-0", "", "+", "0x1", "1_000", "18446744073709551615",
        "18446744073709551616", "018446744073709551615", "+18446744073709551615"]
    {
        assert_eq!(parse_index(text), text.parse::<usize>().ok());
    }
}

#[test]
fn text_pieces() {
    assert_eq!(pieces("", ','), vec![""]);
    assert_eq!(pieces(",", ','), vec!["", ""]);
    assert_eq!(pieces("a,b", ','), vec!["a", "b"]);
    assert_eq!(pieces("a,b,", ','), vec!["a", "b", ""]);
    assert_eq!(pieces(",a,,b", ','), vec!["", "a", "", "b"]);
    assert_eq!(pieces("a:b", ','), vec!["a:b"]);
    assert_eq!(pieces("é→ü", '→'), vec!["é", "ü"]);
    for text in ["", ":", "a:b:c", "::", "a", ":a", "a:"] {
        let expected: Vec<&str> = text.split(':').collect();
        assert_eq!(pieces(text, ':'), expected);
    }
}

#[test]
fn text_index_text() {
    assert_eq!(index_text(0), "0");
    assert_eq!(index_text(7), "7");
    assert_eq!(index_text(9), "9");
    assert_eq!(index_text(10), "10");
    assert_eq!(index_text(42), "42");
    assert_eq!(index_text(100), "100");
    assert_eq!(index_text(1234567890), "1234567890");
    assert_eq!(index_text(usize::MAX), usize::MAX.to_string());
}

#[test]
fn text_index_text_reads_back() {
    for n in [0, 1, 9, 10, 11, 99, 100, 101, 65535, 4294967295, usize::MAX - 1, usize::MAX] {
        assert_eq!(parse_index(&index_text(n)), Some(n));
    }
}
