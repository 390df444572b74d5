//! The plain wildcard dialect: `*`, `?` and `#` over the pattern's own
//! characters.

use vstd::prelude::*;
use vstd::slice::slice_subrange;
use vstd::string::StringExecFns;
use crate::ex::matcher::{push_chars, to_chars};
use crate::ex::semantics::shifted;
use crate::ex::token::is_digit;

verus! {

/// Whether the pattern character `p` takes the text character `t` as one
/// character: it is the same character, or `?`, or `#` before a digit.
pub open spec fn takes_one(p: char, t: char) -> bool {
    p == t || p == '?' || (p == '#' && is_digit(t))
}

/// Whether the pattern consumes the whole text.
///
/// A text that has run out matches nothing. A pattern character that takes
/// the character before it does so, `*` included where the text holds a `*`.
/// Otherwise a `*` that ends the pattern takes all that is left; elsewhere it
/// takes any number of characters short of all of them, the rest matching
/// what is left.
pub open spec fn simple_match(pattern: Seq<char>, text: Seq<char>) -> bool
    decreases pattern.len(),
{
    if pattern.len() == 0 {
        text.len() == 0
    } else if text.len() == 0 {
        false
    } else if takes_one(pattern[0], text[0]) {
        simple_match(pattern.skip(1), text.skip(1))
    } else if pattern[0] == '*' {
        pattern.len() == 1 || exists|k: int|
            0 <= k < text.len() && simple_match(pattern.skip(1), #[trigger] text.skip(k))
    } else {
        false
    }
}

/// What a `*` and the pattern `rest` behind it consume from `text` when the
/// `*` takes `k` characters or more: the rest is tried at `k`, then at
/// `k + 1`, and so on, and the first offset at which it consumes a prefix
/// wins.
pub open spec fn simple_extract_split(rest: Seq<char>, text: Seq<char>, k: int) -> Option<nat>
    decreases rest.len(), text.len() - k + 1,
{
    if 0 <= k < text.len() {
        match simple_extract_len(rest, text.skip(k)) {
            Some(n) => Some((k + n) as nat),
            None => simple_extract_split(rest, text, k + 1),
        }
    } else {
        None
    }
}

/// The length of the prefix of `text` that the pattern consumes, `None`
/// where it consumes none.
pub open spec fn simple_extract_len(pattern: Seq<char>, text: Seq<char>) -> Option<nat>
    decreases pattern.len(), 0int,
{
    if pattern.len() == 0 {
        Some(0)
    } else if text.len() == 0 {
        None
    } else if takes_one(pattern[0], text[0]) {
        shifted(simple_extract_len(pattern.skip(1), text.skip(1)), 1)
    } else if pattern[0] == '*' {
        if pattern.len() == 1 {
            Some(text.len())
        } else {
            simple_extract_split(pattern.skip(1), text, 0)
        }
    } else {
        None
    }
}

/// Tests whether `pattern` matches the whole of `text`.
pub fn is_match(pattern: &str, text: &str) -> (matched: bool)
    ensures
        matched == simple_match(pattern@, text@),
{
    let pattern_chars = to_chars(pattern);
    let text_chars = to_chars(text);
    is_match_slice(pattern_chars.as_slice(), text_chars.as_slice())
}

/// Tests whether the pattern characters consume the whole of the text.
#[verifier::loop_isolation(false)]
pub fn is_match_slice(pattern_chars: &[char], text_chars: &[char]) -> (matched: bool)
    ensures
        matched == simple_match(pattern_chars@, text_chars@),
    decreases pattern_chars@.len(),
{
    let ghost pattern = pattern_chars@;
    let ghost text = text_chars@;
    let mut i: usize = 0;
    let mut j: usize = 0;
    assert(pattern.skip(0) =~= pattern && text.skip(0) =~= text);
    while i < pattern_chars.len() && j < text_chars.len()
        invariant
            i <= pattern.len(),
            j <= text.len(),
            simple_match(pattern, text) == simple_match(pattern.skip(i as int), text.skip(j as int)),
        decreases pattern.len() - i,
    {
        let ghost pat = pattern.skip(i as int);
        let ghost txt = text.skip(j as int);
        proof {
            assert(pat[0] == pattern[i as int]);
            assert(pat.skip(1) =~= pattern.skip(i + 1));
            assert(txt[0] == text[j as int]);
            assert(txt.skip(1) =~= text.skip(j + 1));
        }
        if pattern_chars[i] == text_chars[j] {
            i += 1;
            j += 1;
        } else if pattern_chars[i] == '?' {
            i += 1;
            j += 1;
        } else if pattern_chars[i] == '#' && text_chars[j].is_ascii_digit() {
            i += 1;
            j += 1;
        } else if pattern_chars[i] == '*' {
            i += 1;
            if pattern_chars.len() == i {
                // a trailing `*` takes all that is left
                return true;
            }
            // try the rest of the pattern at each offset in turn
            let sub_pattern = slice_subrange(pattern_chars, i, pattern_chars.len());
            for j2 in j..text_chars.len()
                invariant
                    forall|k: int|
                        0 <= k < j2 - j ==> !simple_match(pat.skip(1), #[trigger] txt.skip(k)),
            {
                let sub_text = slice_subrange(text_chars, j2, text_chars.len());
                assert(sub_text@ =~= txt.skip(j2 - j));
                if is_match_slice(sub_pattern, sub_text) {
                    return true;
                }
            }
            return false;
        } else {
            return false;
        }
    }
    (i == pattern_chars.len()) && (j == text_chars.len())
}

/// Extracts the prefix of `text` that `pattern` consumes.
pub fn extract_match(pattern: &str, text: &str) -> (found: Option<String>)
    ensures
        match found {
            Some(matched) => matched@.is_prefix_of(text@) && simple_extract_len(pattern@, text@)
                == Some(matched@.len()),
            None => simple_extract_len(pattern@, text@) is None,
        },
{
    let pattern_chars = to_chars(pattern);
    let text_chars = to_chars(text);
    extract_match_slice(pattern_chars.as_slice(), text_chars.as_slice())
}

/// Extracts what a `*` and the pattern `rest` behind it consume from `text`
/// at `from`. `matched` holds the text before `from`, and comes back with
/// what was consumed added to it.
pub fn extract_split_slice(rest: &[char], text: &[char], from: usize, matched: String) -> (found:
    Option<String>)
    requires
        from <= text@.len(),
        matched@ == text@.take(from as int),
    ensures
        match found {
            Some(whole) => whole@.is_prefix_of(text@) && shifted(
                simple_extract_split(rest@, text@.skip(from as int), 0),
                from as nat,
            ) == Some(whole@.len()),
            None => simple_extract_split(rest@, text@.skip(from as int), 0) is None,
        },
    decreases rest@.len(), 1int,
{
    let ghost txt = text@.skip(from as int);
    let mut matched = matched;
    for j2 in from..text.len()
        invariant
            txt == text@.skip(from as int),
            from <= text@.len(),
            matched@ == text@.take(j2 as int),
            simple_extract_split(rest@, txt, 0) == simple_extract_split(rest@, txt, j2 - from),
    {
        let sub_text = slice_subrange(text, j2, text.len());
        assert(sub_text@ =~= txt.skip(j2 - from));
        match extract_match_slice(rest, sub_text) {
            Some(sub_matched) => {
                matched.append(sub_matched.as_str());
                assert(matched@ =~= text@.take(j2 + sub_matched@.len()));
                return Some(matched);
            },
            None => {
                matched.push(text[j2]);
                assert(text@.take(j2 as int).push(text@[j2 as int]) =~= text@.take(j2 + 1));
            },
        }
    }
    None
}

/// Extracts the prefix of `text` that the pattern characters consume.
pub fn extract_match_slice(pattern: &[char], text: &[char]) -> (found: Option<String>)
    ensures
        match found {
            Some(matched) => matched@.is_prefix_of(text@) && simple_extract_len(pattern@, text@)
                == Some(matched@.len()),
            None => simple_extract_len(pattern@, text@) is None,
        },
    decreases pattern@.len(), 0int,
{
    let mut i: usize = 0;
    let mut j: usize = 0;
    let mut matched = String::new();
    assert(pattern@.skip(0) =~= pattern@ && text@.skip(0) =~= text@);
    assert(matched@ =~= text@.take(0));
    while i < pattern.len() && j < text.len()
        invariant
            i <= pattern.len(),
            j <= text.len(),
            matched@ == text@.take(j as int),
            simple_extract_len(pattern@, text@) == shifted(
                simple_extract_len(pattern@.skip(i as int), text@.skip(j as int)),
                j as nat,
            ),
        decreases pattern.len() - i,
    {
        let ghost pat = pattern@.skip(i as int);
        let ghost txt = text@.skip(j as int);
        proof {
            assert(pat[0] == pattern@[i as int]);
            assert(pat.skip(1) =~= pattern@.skip(i + 1));
            assert(txt[0] == text@[j as int]);
            assert(txt.skip(1) =~= text@.skip(j + 1));
            assert(text@.take(j as int).push(text@[j as int]) =~= text@.take(j + 1));
        }
        if pattern[i] == text[j] {
            matched.push(text[j]);
            i += 1;
            j += 1;
        } else if pattern[i] == '?' {
            matched.push(text[j]);
            i += 1;
            j += 1;
        } else if pattern[i] == '#' && text[j].is_ascii_digit() {
            matched.push(text[j]);
            i += 1;
            j += 1;
        } else if pattern[i] == '*' {
            i += 1;
            if pattern.len() == i {
                // a trailing `*` takes all that is left
                push_chars(&mut matched, text, j, text.len());
                assert(matched@ =~= text@);
                assert(text@ =~= text@.subrange(0, text@.len() as int));
                return Some(matched);
            }
            // try the rest of the pattern at each offset in turn
            let sub_pattern = slice_subrange(pattern, i, pattern.len());
            assert(sub_pattern@ =~= pat.skip(1));
            return extract_split_slice(sub_pattern, text, j, matched);
        } else {
            return None;
        }
    }
    if i == pattern.len() {
        return Some(matched);
    }
    None
}

/// What a search found: the span of the hit, in characters, and its text.
pub struct MatchedResult {
    pub start: usize,
    pub end: usize,
    pub matched: String,
}

impl MatchedResult {
    /// Whether the span has the length of the matched text.
    pub open spec fn wf(&self) -> bool {
        self.start <= self.end && self.end - self.start == self.matched@.len()
    }

    /// Builds a result from its three parts.
    pub fn new(start: usize, end: usize, matched: String) -> (result: Self)
        ensures
            result.start == start,
            result.end == end,
            result.matched == matched,
    {
        MatchedResult { start, end, matched }
    }

    /// The length of the span, in characters.
    pub fn len(&self) -> (n: usize)
        requires
            self.start <= self.end,
        ensures
            n == self.end - self.start,
    {
        self.end - self.start
    }
}

/// Whether `result` is the first place in `text` where the pattern consumes a
/// prefix of what follows, with the span and the text of that prefix.
pub open spec fn is_simple_hit(pattern: Seq<char>, text: Seq<char>, result: MatchedResult) -> bool {
    &&& result.wf()
    &&& result.start < text.len()
    &&& result.end <= text.len()
    &&& simple_extract_len(pattern, text.skip(result.start as int)) == Some(
        (result.end - result.start) as nat,
    )
    &&& forall|m: int|
        0 <= m < result.start ==> simple_extract_len(pattern, #[trigger] text.skip(m)) is None
    &&& result.matched@ == text.subrange(result.start as int, result.end as int)
}

/// Whether the pattern consumes a prefix of `text` from no offset.
pub open spec fn no_simple_hit(pattern: Seq<char>, text: Seq<char>) -> bool {
    forall|start: int|
        0 <= start < text.len() ==> simple_extract_len(pattern, #[trigger] text.skip(start)) is None
}

/// Searches `text` from the left for the first offset at which `pattern`
/// consumes a prefix of what follows.
pub fn find_match(pattern: &str, text: &str) -> (found: Option<MatchedResult>)
    ensures
        match found {
            Some(result) => is_simple_hit(pattern@, text@, result),
            None => no_simple_hit(pattern@, text@),
        },
{
    let pattern_chars = to_chars(pattern);
    let text_chars = to_chars(text);
    find_match_slice(pattern_chars.as_slice(), text_chars.as_slice())
}

/// Searches `text` from the left for the first offset at which the pattern
/// characters consume a prefix of what follows.
pub fn find_match_slice(pattern: &[char], text: &[char]) -> (found: Option<MatchedResult>)
    ensures
        match found {
            Some(result) => is_simple_hit(pattern@, text@, result),
            None => no_simple_hit(pattern@, text@),
        },
{
    for j in 0..text.len()
        invariant
            forall|m: int| 0 <= m < j ==> simple_extract_len(pattern@, #[trigger] text@.skip(m)) is None,
    {
        let sub_text = slice_subrange(text, j, text.len());
        if let Some(sub_matched) = extract_match_slice(pattern, sub_text) {
            let n = to_chars(sub_matched.as_str()).len();
            let result = MatchedResult { start: j, end: j + n, matched: sub_matched };
            assert(result.matched@ =~= text@.subrange(j as int, j + n));
            return Some(result);
        }
    }
    None
}

} // verus!
