use unreact::text::{
    chars_of, contains_char, decimal_string, ends_with, index_of_char, is_whitespace,
    replace_text, same_text, signed_decimal_string, split_on_char, starts_with, trim_text,
};

#[test]
fn decimal_matches_the_standard_formatting() {
    for n in [0u64, 1, 9, 10, 11, 99, 100, 3000, 65535, 1_000_000_007, u64::MAX] {
        assert_eq!(decimal_string(n), n.to_string());
    }
    for n in [0i64, -1, 1, -10, 1234567890123, i64::MIN, i64::MAX] {
        assert_eq!(signed_decimal_string(n), n.to_string());
    }
}

#[test]
fn replace_follows_the_standard_replace() {
    let cases = [
        ("ws://localhost:{{PORT}}", "{{PORT}}", "3001"),
        ("{{PORT}}{{PORT}}", "{{PORT}}", "1"),
        ("aaaa", "aa", "b"),
        ("aaa", "aa", "b"),
        ("abcabc", "bc", ""),
        ("no match here", "xyz", "!"),
        ("", "a", "b"),
        ("short", "much longer pattern", "b"),
        ("{{{PORT}}}", "{{PORT}}", "x"),
        ("héllo wörld", "ö", "oe"),
    ];
    for (text, pattern, replacement) in cases {
        assert_eq!(replace_text(text, pattern, replacement), text.replace(pattern, replacement));
    }
    assert_eq!(replace_text("abc", "", "x"), "abc");
}

#[test]
fn split_follows_the_standard_split() {
    for text in ["", "/", "a", "a/b", "/a/b/", "a//b", "hello/there", "news/$article", "///"] {
        let expected: Vec<String> = text.split('/').map(|p| p.to_string()).collect();
        assert_eq!(split_on_char(text, '/'), expected);
    }
    assert_eq!(split_on_char("name = \"x\"", '='), vec!["name ", " \"x\""]);
}

#[test]
fn prefix_and_suffix_tests_follow_the_standard_ones() {
    let cases = [
        ("/styles/site.css", "/styles"),
        ("/style", "/styles"),
        ("", ""),
        ("a", ""),
        ("", "a"),
        ("about.html", ".html"),
        (".html", ".html"),
        ("html", ".html"),
        ("ünï", "ü"),
    ];
    for (text, part) in cases {
        assert_eq!(starts_with(text, part), text.starts_with(part));
        assert_eq!(ends_with(text, part), text.ends_with(part));
    }
}

#[test]
fn characters_are_found_by_position() {
    assert_eq!(chars_of("añb"), vec!['a', 'ñ', 'b']);
    let chars = chars_of("a.b.c");
    assert_eq!(index_of_char(&chars, 0, '.'), 1);
    assert_eq!(index_of_char(&chars, 2, '.'), 3);
    assert_eq!(index_of_char(&chars, 4, '.'), 5);
    assert_eq!(index_of_char(&chars, 5, '.'), 5);
    assert!(contains_char("a~b", '~'));
    assert!(!contains_char("ab", '~'));
    assert!(same_text("GET", "GET"));
    assert!(!same_text("GET", "get"));
    assert!(!same_text("GET", "GETS"));
}

#[test]
fn trim_follows_the_standard_trim() {
    for text in ["", " ", "a", "  a b  ", "\t\r\n x \u{a0}\u{3000}", "\u{2003}name\u{85}", "no space"] {
        assert_eq!(trim_text(text), text.trim());
    }
    for code in 0u32..0x3100 {
        if let Some(c) = char::from_u32(code) {
            assert_eq!(is_whitespace(c), c.is_whitespace());
        }
    }
}

#[test]
fn replacement_without_common_characters_leaves_no_pattern() {
    for text in ["{{PORT}}", "{{{PORT}}PORT}}", "a{{PORT}}b{{PORT}}", "{{POR{{PORT}}T}}", "{{PORT}"] {
        let replaced = replace_text(text, "{{PORT}}", "3001");
        assert!(!replaced.contains("{{PORT}}"));
        assert_eq!(replaced, text.replace("{{PORT}}", "3001"));
    }
}
