use wildcard_ex::{extract_match, find_match, is_match, is_match_simple};

#[test]
fn lib_test_is_match_simple() {
    // simple pattern
    assert_eq!(is_match("a", "b"), false);
    assert_eq!(is_match("a*.txt", "abc.txt"), true);
    assert_eq!(is_match_simple("a", "aa"), false);
    assert_eq!(is_match_simple("a*.txt", "abc.txt"), true);
}

#[test]
fn lib_dialects_differ_on_brackets() {
    assert_eq!(is_match("[a-z]1234.txt", "a1234.txt"), true);
    assert_eq!(is_match_simple("[a-z]1234.txt", "a1234.txt"), false);
    assert_eq!(is_match_simple("[a-z]1234.txt", "[a-z]1234.txt"), true);
    assert_eq!(is_match("[a-z][0-9].txt", "b5.txt"), true);
    assert_eq!(is_match("[!0-9][0-9].txt", "c3.txt"), true);
    assert_eq!(is_match("[+0-9].txt", "12345.txt"), true);
    assert_eq!(is_match("[+a-z0-9].txt", "abc12345.txt"), true);
    assert_eq!(is_match("[=cat|dog].txt", "cat.txt"), true);
    assert_eq!(is_match_simple("zip:###-####", "zip:111-2222"), true);
    assert_eq!(is_match_simple("zip:###-####", "zip:12345"), false);
}

#[test]
fn lib_extract_and_find() {
    assert_eq!(extract_match("*.txt", "abc.txt"), Some("abc.txt".to_string()));
    assert_eq!(extract_match("hello*", "hello, world!"), Some("hello, world!".to_string()));
    let result = find_match("*.txt", "abc.txt").unwrap();
    assert_eq!(result.start, 0);
    assert_eq!(result.end, 7);
    assert_eq!(result.matched, "abc.txt".to_string());
}
