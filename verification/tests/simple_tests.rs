use wildcard_ex::simple::{extract_match, find_match, is_match, MatchedResult};

#[test]
fn simple_test_is_match_simple() {
    // simple pattern
    assert_eq!(is_match("a", "a"), true);
    assert_eq!(is_match("a", "b"), false);
    assert_eq!(is_match("a", "aa"), false);
    assert_eq!(is_match("a", "aaa"), false);
    assert_eq!(is_match("a", "ab"), false);
    assert_eq!(is_match("a", "ba"), false);
    // wildcard '*' tail
    assert_eq!(is_match("a*", "ba"), false);
    assert_eq!(is_match("a*", "ab"), true);
    // wildcard '*' head
    assert_eq!(is_match("*.txt", "ab.txt"), true);
    assert_eq!(is_match("*.txt", "ab.t"), false);
    // wildcard '*' middle
    assert_eq!(is_match("a*.txt", "abc.txt"), true);
    assert_eq!(is_match("a*.tts", "abc.txt"), false);
    assert_eq!(is_match("a*c.txt", "abc.txt"), true);
    assert_eq!(is_match("a*d.txt", "abc.txt"), false);
    // wildcard '?' middle
    assert_eq!(is_match("a??.txt", "abc.txt"), true);
    assert_eq!(is_match("a?c.txt", "abbc.txt"), false);
    // wildcard '*' and '?'
    assert_eq!(is_match("a*c.txt", "abbc.txt"), true);
    assert_eq!(is_match("abc.*", "abc.txt"), true);
    assert_eq!(is_match("abc.???", "abc.txt"), true);
    assert_eq!(is_match("*abc.txt", "abc.txt"), true);
    assert_eq!(is_match("abc.*", "abc.txt"), true);
    // wildcard '#'
    assert_eq!(is_match("###.zip", "123.zip"), true);
    assert_eq!(is_match("###.zip", "1234.zip"), false);
    assert_eq!(is_match("a###.zip", "a123.zip"), true);
    assert_eq!(is_match("a###.zip", "a1234.zip"), false);
    assert_eq!(is_match("###-####", "123-4567"), true);
    assert_eq!(is_match("###-####", "123-45678"), false);
    assert_eq!(is_match("###-####", "1234-567"), false);
    // multibytes characters
    assert_eq!(is_match("*.txt", "格言.txt"), true);
    assert_eq!(is_match("??.txt", "格言.txt"), true);
    assert_eq!(is_match("格言.*", "格言.txt"), true);
    assert_eq!(is_match("迷言.*", "格言.txt"), false);
    assert_eq!(is_match("頓珍漢.*", "格言.txt"), false);
    // multiple wildcards
    assert_eq!(is_match("a*t*.zip", "abc.txt.zip"), true);
    // others
    assert_eq!(is_match("abc.*.txt", "abc.txt.zip"), false);
    assert_eq!(is_match("a*.zip", "abc.zip.zip"), true);
    assert_eq!(is_match("a*.zip", "abc.zip.zip.txt"), false);
    assert_eq!(is_match("a*.zip", "aaaaa.zip.zip.txt"), false);
    assert_eq!(is_match("a*.zip", "aaaaa.zip.zip.txt.zip"), true);
}

#[test]
fn simple_test_extract_match() {
    assert_eq!(extract_match("a", "a"), Some("a".to_string()));
    assert_eq!(extract_match("abc", "abc"), Some("abc".to_string()));
    assert_eq!(extract_match("hello*", "hello_world"), Some("hello_world".to_string()));
    assert_eq!(extract_match("abc*g", "abcdefghijklmnopqrstuvwxyz"), Some("abcdefg".to_string()));
    assert_eq!(extract_match("hello*z", "hello_world"), None);
    assert_eq!(extract_match("abc*z", "abcdefg"), None);
    assert_eq!(extract_match("###-####", "111-2222"), Some("111-2222".to_string()));
    assert_eq!(extract_match("(###)###-####", "(111)222-3333"), Some("(111)222-3333".to_string()));
    assert_eq!(extract_match("abc", "a"), None);
}

#[test]
fn simple_star_in_text_is_taken_literally_first() {
    // a `*` before a `*` of the text takes that one character
    assert_eq!(is_match("*", "*abc"), false);
    assert_eq!(is_match("*", "abc"), true);
    assert_eq!(is_match("#", "#"), true);
    assert_eq!(is_match("#", "x"), false);
}

#[test]
fn simple_text_that_ran_out_matches_nothing() {
    assert_eq!(is_match("", ""), true);
    assert_eq!(is_match("*", ""), false);
    assert_eq!(is_match("a*", "a"), false);
    assert_eq!(extract_match("", "abc"), Some("".to_string()));
    assert_eq!(extract_match("a*", "a"), None);
}

#[test]
fn simple_find_match_spans_count_characters() {
    let hit = find_match("言*t", "格言.txt!").unwrap_or(MatchedResult::new(9, 9, "".to_string()));
    assert_eq!(hit.start, 1);
    assert_eq!(hit.end, 4);
    assert_eq!(hit.matched, "言.t".to_string());
    assert_eq!(hit.len(), 3);
    assert!(find_match("z", "格言.txt").is_none());
    assert!(find_match("", "").is_none());
    let empty = find_match("", "ab").unwrap_or(MatchedResult::new(9, 9, "x".to_string()));
    assert_eq!(empty.start, 0);
    assert_eq!(empty.end, 0);
    assert_eq!(empty.matched, "".to_string());
}

#[test]
fn simple_slices_agree_with_strings() {
    let pattern: Vec<char> = "a?c*".chars().collect();
    let text: Vec<char> = "abcdef".chars().collect();
    assert_eq!(wildcard_ex::simple::is_match_slice(&pattern, &text), true);
    assert_eq!(
        wildcard_ex::simple::extract_match_slice(&pattern, &text),
        Some("abcdef".to_string())
    );
    let hit = wildcard_ex::simple::find_match_slice(&pattern[..3], &text);
    assert_eq!(hit.map(|r| (r.start, r.end, r.matched)), Some((0, 3, "abc".to_string())));
}
