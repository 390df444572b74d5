use wildcard_ex::vblike::{is_match, CharRange, Pattern, PatternChar, StrCursor};

#[test]
fn vblike_test_is_match_vblike() {
    // simple pattern
    assert_eq!(is_match("a", "a"), true);
    assert_eq!(is_match("a", "b"), false);
    assert_eq!(is_match("a", "aa"), false);
    assert_eq!(is_match("a", "aaa"), false);
    assert_eq!(is_match("a", "ab"), false);
    assert_eq!(is_match("a", "ba"), false);
    // wildcard '*' tail
    assert_eq!(is_match("a*", "ba"), false);
    assert_eq!(is_match("a*", "ab"), true);
    // wildcard '*' head
    assert_eq!(is_match("*.txt", "ab.txt"), true);
    assert_eq!(is_match("*.txt", "ab.t"), false);
    // wildcard '*' middle
    assert_eq!(is_match("a*.txt", "abc.txt"), true);
    assert_eq!(is_match("a*.tts", "abc.txt"), false);
    assert_eq!(is_match("a*c.txt", "abc.txt"), true);
    assert_eq!(is_match("a*d.txt", "abc.txt"), false);
    // wildcard '?' middle
    assert_eq!(is_match("a??.txt", "abc.txt"), true);
    assert_eq!(is_match("a?c.txt", "abbc.txt"), false);
    // wildcard '*' and '?'
    assert_eq!(is_match("a?*.txt", "a1.txt"), true);
    assert_eq!(is_match("a?*.txt", "a1t"), false);
    assert_eq!(is_match("a?*.txt", "a1t.txt"), true);
    assert_eq!(is_match("a?*.txt", "a1t.t"), false);
    assert_eq!(is_match("a?*.txt", "a1t.tt"), false);
    assert_eq!(is_match("a?*.txt", "a1t.txtt"), false);
    assert_eq!(is_match("a?*.txt", "a1t.txt"), true);
    assert_eq!(is_match("a?*.txt", "a1t.txtt"), false);
    assert_eq!(is_match("a?*.txt", "a1t.txt"), true);
}

#[test]
fn vblike_star_stops_at_the_first_occurrence() {
    // the `*` runs to the first '.', and nothing is tried again
    assert_eq!(is_match("a*.zip", "abc.zip"), true);
    assert_eq!(is_match("a*.zip", "abc.txt.zip"), false);
    assert_eq!(is_match("*", ""), true);
    assert_eq!(is_match("a*", "a"), true);
    assert_eq!(is_match("*x", "abc"), false);
}

#[test]
fn vblike_classes_and_selectors() {
    assert_eq!(is_match("abc[0-3].zip", "abc3.zip"), true);
    assert_eq!(is_match("abc[0-3].zip", "abc4.zip"), false);
    assert_eq!(is_match("abc[!0-3].zip", "abc4.zip"), true);
    assert_eq!(is_match("abc[*0-9].zip", "abc123.zip"), true);
    // a repeated class may take nothing
    assert_eq!(is_match("abc[*0-9].zip", "abc.zip"), true);
    assert_eq!(is_match("[-.].zip", "abc.zip"), true);
    assert_eq!(is_match("a[\\]]b", "a]b"), false);
    assert_eq!(is_match("[=cat|dog|penguin].zip", "dog.zip"), true);
    assert_eq!(is_match("[=cat|dog|penguin].zip", "pen.zip"), false);
    assert_eq!(is_match("[=図鑑|資料].zip", "資料.zip"), true);
    assert_eq!(is_match("[=図鑑|資料]", "資料xx"), false);
    assert_eq!(is_match("#\\#", "7#"), true);
    assert_eq!(is_match("[ab", "b"), true);
}

#[test]
fn vblike_cursor_steps() {
    let mut cur = StrCursor::new("a\\bcd");
    assert!(cur.eq_str("a\\b"));
    assert!(cur.eq_str(""));
    assert!(!cur.eq_str("ab"));
    assert!(!cur.eq_str("a\\bcde"));
    assert_eq!(cur.peek(), 'a');
    assert_eq!(cur.next_char_esc(), 'a');
    assert_eq!(cur.next_char_esc(), 'b');
    assert_eq!(cur.index, 3);
    assert!(cur.eq_str("cd"));
    cur.next_n(1);
    assert_eq!(cur.next(), 'd');
    assert!(!cur.has_next());
    assert_eq!(cur.next(), '\0');
    assert_eq!(cur.next_char_esc(), '\0');
    assert_eq!(cur.index, 5);
    cur.next_n(2);
    assert_eq!(cur.index, 7);
    assert!(cur.eq_str(""));
    assert!(!cur.eq_str("a"));
    assert_eq!(cur.peek(), '\0');
}

#[test]
fn vblike_pattern_elements() {
    let pattern = Pattern::new("a*b[*x-z][=p|q]*");
    assert_eq!(pattern.index, 0);
    assert!(pattern.has_next());
    assert_eq!(
        format!("{:?}", pattern.pattern),
        "[Char('a'), Wildcard('b'), Char('b'), CharListRepeat([CharRange { start: 'x', end: 'z' }]), Selector([\"p\", \"q\"]), Wildcard('\\0')]"
    );
    assert_eq!(format!("{:?}", pattern.next()), "Char('a')");
    let copy = pattern.clone();
    assert_eq!(format!("{:?}", copy), format!("{:?}", pattern));
    let empty = Pattern::new("");
    assert!(!empty.has_next());
}

#[test]
fn vblike_element_moves_the_cursor() {
    let mut cur = StrCursor::new("12ab");
    assert!(PatternChar::Number.is_match(&mut cur));
    assert_eq!(cur.index, 1);
    assert!(!PatternChar::Char('x').is_match(&mut cur));
    assert_eq!(cur.index, 1);
    assert!(PatternChar::Wildcard('b').is_match(&mut cur));
    assert_eq!(cur.index, 3);
    assert!(PatternChar::NotCharListRepeat(vec![CharRange::new('b', 'b')]).is_match(&mut cur));
    assert_eq!(cur.index, 3);
    assert!(PatternChar::Selector(vec!["x".to_string(), "b".to_string()]).is_match(&mut cur));
    assert_eq!(cur.index, 4);
    assert!(!PatternChar::Question.is_match(&mut cur));
    assert!(PatternChar::Wildcard('\0').is_match(&mut cur));
    assert_eq!(cur.index, 4);
}
