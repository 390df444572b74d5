use wildcard_ex::ex::{extract_match, find_match, is_match, MatchedResult, Pattern};

#[test]
fn ex_test_is_match_vblike() {
    // simple pattern
    assert_eq!(is_match("a", "a"), true);
    assert_eq!(is_match("a", "b"), false);
    assert_eq!(is_match("a", "aa"), false);
    assert_eq!(is_match("a", "aaa"), false);
    assert_eq!(is_match("a", "ab"), false);
    assert_eq!(is_match("a", "ba"), false);
    // wildcard '*' tail
    assert_eq!(is_match("a*", "ba"), false);
    assert_eq!(is_match("a*", "ab"), true);
    // wildcard '*' head
    assert_eq!(is_match("*.txt", "ab.txt"), true);
    assert_eq!(is_match("*.txt", "ab.t"), false);
    // wildcard '*' middle
    assert_eq!(is_match("a*.txt", "abc.txt"), true);
    assert_eq!(is_match("a*.tts", "abc.txt"), false);
    assert_eq!(is_match("a*c.txt", "abc.txt"), true);
    assert_eq!(is_match("a*d.txt", "abc.txt"), false);
    // wildcard '?' middle
    assert_eq!(is_match("a??.txt", "abc.txt"), true);
    assert_eq!(is_match("a?c.txt", "abbc.txt"), false);
    // wildcard '*' and '?'
    assert_eq!(is_match("a?*.txt", "a1.txt"), true);
    assert_eq!(is_match("a?*.txt", "a1t"), false);
    assert_eq!(is_match("a?*.txt", "a1t.txt"), true);
    assert_eq!(is_match("a?*.txt", "a1t.t"), false);
    assert_eq!(is_match("a?*.txt", "a1t.tt"), false);
    assert_eq!(is_match("a?*.txt", "a1t.txtt"), false);
    assert_eq!(is_match("a?*.txt", "a1t.txt"), true);
    assert_eq!(is_match("a?*.txt", "a1t.txtt"), false);
    assert_eq!(is_match("a?*.txt", "a1t.txt"), true);
    // recursive wildcard '*'
    assert_eq!(is_match("abc.*.txt", "abc.txt.zip"), false);
    assert_eq!(is_match("a*.zip", "abc.zip.zip"), true);
    assert_eq!(is_match("a*.zip", "abc.zip.zip.txt"), false);
    assert_eq!(is_match("a*.zip", "aaaaa.zip.zip.txt"), false);
    assert_eq!(is_match("a*.zip", "aaaaa.zip.zip.txt.zip"), true);
}

#[test]
fn test_is_match_vblike_charlist() {
    // wildcard [str]
    assert_eq!(is_match("abc[0-3].zip", "abc3.zip"), true);
    assert_eq!(is_match("abc[0-3].zip", "abc4.zip"), false);
    assert_eq!(is_match("abc[0-3].zip", "abc4.zip"), false);
    assert_eq!(is_match("abc[123].zip", "abc3.zip"), true);
    assert_eq!(is_match("abc[123].zip", "abc4.zip"), false);
    // wildcard [!str]
    assert_eq!(is_match("abc[!0-3].zip", "abc3.zip"), false);
    assert_eq!(is_match("abc[!0-3].zip", "abc4.zip"), true);
    assert_eq!(is_match("abc[!123].zip", "abc4.zip"), true);
    assert_eq!(is_match("abc[!123].zip", "abc2.zip"), false);
    // wildcard [+str]
    assert_eq!(is_match("abc[+0-9].zip", "abc123.zip"), true);
    assert_eq!(is_match("abc[+0-9\\-].zip", "abc123-456.zip"), true);
    // wildcard [-str]
    assert_eq!(is_match("abc[-\\.].zip", "abcABC.zip"), true);
    assert_eq!(is_match("a[-\\-]-[+0-9].zip", "abc123-456.zip"), true);
}

#[test]
fn test_is_match_vblike_selector() {
    // wildcard [str]
    assert_eq!(is_match("[=cat|dog|penguin].zip", "cat.zip"), true);
    assert_eq!(is_match("[=cat|dog|penguin].zip", "pen.zip"), false);
}

#[test]
fn test_is_match_vblike_esc() {
    // escape pattern
    assert_eq!(is_match("a[\\t]b", "a\tb"), true);
    assert_eq!(is_match("a[\\x09]b", "a\tb"), true);
    assert_eq!(is_match("a[+\\x09]b", "a\t\tb"), true);
}

#[test]
fn test_is_match_multibytes() {
    assert_eq!(is_match("魚[あ-ん]ち.zip", "魚いち.zip"), true);
    assert_eq!(is_match("日本[!あ-ん].zip", "日本酒.zip"), true);
    assert_eq!(is_match("[魚牛豚]肉.zip", "魚肉.zip"), true);
    // repated pattern
    assert_eq!(is_match("[+あ-ん].zip", "いろは.zip"), true);
    assert_eq!(is_match("[+あ-ん].zip", "魚エラー.zip"), false);
    assert_eq!(is_match("魚[+ア-ン].zip", "魚図鑑.zip"), false);
    assert_eq!(is_match("[+いろはにほへと]うた.zip", "いろはうた.zip"), true);
    // selector
    assert_eq!(is_match("[=図鑑|資料|市場].zip", "市場.zip"), true);
    assert_eq!(is_match("魚[=図鑑|資料|市場]売店.zip", "魚市場売店.zip"), true);
}

#[test]
fn test_is_match_strcut() {
    let pattern = Pattern::new("*.txt");
    assert_eq!(pattern.is_match("abc.txt"), true);
    assert_eq!(pattern.is_match("abc.zip"), false);
    assert_eq!(pattern.is_match("豚に真珠.txt"), true);
}

#[test]
fn test_is_match_strcut2() {
    let pattern = Pattern::new("*.txt");
    let str_list = vec![
        "abc.txt".to_string(),
        "abc.zip".to_string(),
        "豚に真珠.txt".to_string(),
    ];
    assert_eq!(pattern.is_match_all(str_list.as_slice()), [true, false, true]);
}

#[test]
fn test_is_match_strcut3() {
    let pattern = Pattern::new("*.txt");
    let str_list = vec![
        "abc.txt".to_string(),
        "abc.zip".to_string(),
        "豚に真珠.txt".to_string(),
    ];
    assert_eq!(pattern.filter(str_list.as_slice()), [
        "abc.txt".to_string(),
        "豚に真珠.txt".to_string(),
    ]);
}

#[test]
fn ex_test_extract_match() {
    assert_eq!(extract_match("a", "a"), Some("a".to_string()));
    assert_eq!(extract_match("a", "b"), None);
    assert_eq!(extract_match("a*", "abc"), Some("abc".to_string()));
    assert_eq!(extract_match("a*", "abc.zip"), Some("abc.zip".to_string()));
    assert_eq!(extract_match("*.zip", "abc.zip"), Some("abc.zip".to_string()));
    assert_eq!(extract_match("a*.zip", "abc.zip"), Some("abc.zip".to_string()));
    assert_eq!(extract_match("a*.zip", "abc.txt"), None);
    assert_eq!(extract_match("[+a-z].zip", "abc.zip"), Some("abc.zip".to_string()));
    assert_eq!(extract_match("a[+a-z].zip", "abc.zip"), Some("abc.zip".to_string()));
    assert_eq!(extract_match("abc", "a"), None);
}

#[test]
fn test_find_match() {
    // simple start
    let result = find_match("a", "a").unwrap_or(MatchedResult::new(0, 0, "".to_string()));
    assert_eq!(result.start, 0);
    // simple start and matched
    let result = find_match("a", "01234a").unwrap_or(MatchedResult::new(0, 0, "".to_string()));
    assert_eq!(result.start, 5);
    assert_eq!(result.matched, "a".to_string());
    // wildcard match
    let result = find_match("c*t", "01234cat_____").unwrap_or(MatchedResult::new(0, 0, "".to_string()));
    assert_eq!(result.start, 5);
    assert_eq!(result.matched, "cat".to_string());
    // failed match
    let result = find_match("abc", "a");
    assert_eq!(result, None);
}
