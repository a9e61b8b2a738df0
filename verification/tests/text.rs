use litfile::text::{
    chars_of, extend, find_first, find_last, is_space, join, replace, replace_chars,
    strip_prefixes, text_of, trim,
};

fn owned(parts: &[&str]) -> Vec<String> {
    parts.iter().map(|p| p.to_string()).collect()
}

#[test]
fn chars_and_text_are_inverse() {
    let v = chars_of("h\u{e9}llo \u{4e16}\u{754c}");
    assert_eq!(v, vec!['h', '\u{e9}', 'l', 'l', 'o', ' ', '\u{4e16}', '\u{754c}']);
    assert_eq!(text_of(&v), "h\u{e9}llo \u{4e16}\u{754c}");
    assert_eq!(text_of(&Vec::new()), "");
    assert_eq!(chars_of(""), Vec::<char>::new());
}

#[test]
fn is_space_agrees_with_the_standard_library_on_every_char() {
    let mut code: u32 = 0;
    while code <= 0x10FFFF {
        if let Some(c) = char::from_u32(code) {
            assert_eq!(is_space(c), c.is_whitespace(), "U+{:04X}", code);
        }
        code += 1;
    }
}

#[test]
fn trim_drops_white_space_at_both_ends() {
    assert_eq!(trim("  a b \t\n"), "a b");
    assert_eq!(trim("a b"), "a b");
    assert_eq!(trim(""), "");
    assert_eq!(trim(" \t\r\n"), "");
    assert_eq!(trim("\u{3000}x\u{a0}"), "x");
    assert_eq!(trim(" x"), "x");
    assert_eq!(trim("x "), "x");
}

#[test]
fn trim_keeps_what_is_no_white_space() {
    // A zero width space does not have the property White_Space.
    assert_eq!(trim("\u{200b}x\u{200b}"), "\u{200b}x\u{200b}");
    assert_eq!(trim("_ x _"), "_ x _");
}

#[test]
fn trim_agrees_with_the_standard_library() {
    for s in ["", " ", "a", " a", "a ", " a b ", "\n\ta\u{2003}", "\u{85}k\u{2028}", "\u{feff}a"] {
        assert_eq!(trim(s), s.trim(), "{:?}", s);
    }
}

#[test]
fn find_first_and_last_give_the_outermost_places() {
    let v = chars_of("a=b=c");
    assert_eq!(find_first(&v, '='), 1);
    assert_eq!(find_last(&v, '='), Some(3));
    assert_eq!(find_first(&v, 'a'), 0);
    assert_eq!(find_last(&v, 'c'), Some(4));
}

#[test]
fn find_reports_an_absent_char() {
    let v = chars_of("abc");
    assert_eq!(find_first(&v, '='), 3);
    assert_eq!(find_last(&v, '='), None);
    let empty = chars_of("");
    assert_eq!(find_first(&empty, '='), 0);
    assert_eq!(find_last(&empty, '='), None);
}

#[test]
fn extend_appends_in_order() {
    let mut out = chars_of("ab");
    extend(&mut out, &chars_of("cd"));
    assert_eq!(out, chars_of("abcd"));
    extend(&mut out, &Vec::new());
    assert_eq!(out, chars_of("abcd"));
}

#[test]
fn replace_puts_the_replacement_for_each_occurrence() {
    assert_eq!(replace("aXbXc", "X", "--"), "a--b--c");
    assert_eq!(replace("XX", "X", "yz"), "yzyz");
    assert_eq!(replace("one two", "two", ""), "one ");
    assert_eq!(replace("abc", "abc", "x"), "x");
}

#[test]
fn replace_takes_occurrences_from_the_left_without_overlap() {
    assert_eq!(replace("aaa", "aa", "b"), "ba");
    assert_eq!(replace("aaaa", "aa", "b"), "bb");
    assert_eq!(replace("ababa", "aba", "x"), "xba");
}

#[test]
fn replace_does_not_search_in_what_it_put() {
    assert_eq!(replace("ab", "a", "aa"), "aab");
    assert_eq!(replace("x", "x", "xx"), "xx");
}

#[test]
fn replace_leaves_text_without_the_pattern() {
    assert_eq!(replace("abc", "d", "x"), "abc");
    assert_eq!(replace("abc", "abcd", "x"), "abc");
    assert_eq!(replace("", "a", "x"), "");
}

#[test]
fn replace_finds_an_empty_pattern_nowhere() {
    assert_eq!(replace("abc", "", "x"), "abc");
    assert_eq!(replace("", "", "x"), "");
}

#[test]
fn replace_agrees_with_the_standard_library_on_patterns_that_are_not_empty() {
    let texts = ["", "a", "aaa", "abcabc", "### __M__\n### __M__", "xx### __M__"];
    let patterns = ["a", "aa", "abc", "### __M__", "c"];
    for text in texts {
        for pattern in patterns {
            assert_eq!(replace(text, pattern, "<>"), text.replace(pattern, "<>"));
        }
    }
}

#[test]
fn replace_chars_is_replace_on_characters() {
    let out = replace_chars(&chars_of("a-b-c"), &chars_of("-"), &chars_of("+"));
    assert_eq!(out, chars_of("a+b+c"));
}

#[test]
fn strip_prefixes_drops_every_leading_copy() {
    assert_eq!(strip_prefixes("lit 17.0.6", "lit"), " 17.0.6");
    assert_eq!(strip_prefixes("litlit 1", "lit"), " 1");
    assert_eq!(strip_prefixes("lit", "lit"), "");
}

#[test]
fn strip_prefixes_leaves_other_text() {
    assert_eq!(strip_prefixes("lilit", "lit"), "lilit");
    assert_eq!(strip_prefixes(" lit", "lit"), " lit");
    assert_eq!(strip_prefixes("", "lit"), "");
    assert_eq!(strip_prefixes("abc", ""), "abc");
}

#[test]
fn strip_prefixes_agrees_with_the_standard_library() {
    for s in ["lit 1.0", "litlitlit", "li", "xlit", "LIT 1"] {
        assert_eq!(strip_prefixes(s, "lit"), s.trim_start_matches("lit"));
    }
}

#[test]
fn join_puts_the_separator_between_neighbours() {
    assert_eq!(join(&owned(&["a", "b", "c"]), ", "), "a, b, c");
    assert_eq!(join(&owned(&["a", "b"]), "\n"), "a\nb");
    assert_eq!(join(&owned(&["", ""]), "-"), "-");
}

#[test]
fn join_of_one_part_or_none_has_no_separator() {
    assert_eq!(join(&owned(&["a"]), ", "), "a");
    assert_eq!(join(&owned(&[]), ", "), "");
}
