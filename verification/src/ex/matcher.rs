//! The backtracking matcher: full match, prefix extraction and search.

use vstd::prelude::*;
use vstd::slice::slice_subrange;
use vstd::string::StringExecFns;
use super::semantics::{
    extract_len, extract_split, full_match, is_first_alt, is_first_hit, run_len, selected,
    shifted,
};
use super::pattern::{compile, Pattern};
use super::token::{alternatives, charlist_contains, tokens_of, CharRange, PatternChar, Token};

verus! {

/// The characters of `text`, in order.
pub fn to_chars(text: &str) -> (chars: Vec<char>)
    ensures
        chars@ == text@,
{
    let mut chars: Vec<char> = Vec::new();
    for ch in it: text.chars()
        invariant
            it.seq() == text@,
            chars@ == it.seq().take(it.index()),
    {
        chars.push(ch);
    }
    chars
}

/// Tests whether `text`, read from `from`, starts with `prefix`.
pub fn starts_with_at(text: &[char], from: usize, prefix: &[char]) -> (found: bool)
    requires
        from <= text@.len(),
    ensures
        found == prefix@.is_prefix_of(text@.skip(from as int)),
{
    if prefix.len() > text.len() - from {
        return false;
    }
    let mut k: usize = 0;
    while k < prefix.len()
        invariant
            k <= prefix.len(),
            from + prefix.len() <= text.len(),
            forall|m: int| 0 <= m < k ==> prefix@[m] == text@[from + m],
        decreases prefix.len() - k,
    {
        if prefix[k] != text[from + k] {
            assert(text@.skip(from as int).subrange(0, prefix@.len() as int)[k as int]
                != prefix@[k as int]);
            return false;
        }
        k += 1;
    }
    assert(prefix@ =~= text@.skip(from as int).subrange(0, prefix@.len() as int));
    true
}

/// The number of characters that a selector with the alternatives `list`
/// consumes from `text` at `from`: the length of the first alternative found
/// there.
pub fn select(list: &Vec<String>, text: &[char], from: usize) -> (hit: Option<usize>)
    requires
        from <= text@.len(),
    ensures
        match hit {
            Some(n) => selected(alternatives(list@), text@.skip(from as int)) == Some(n as nat)
                && from + n <= text@.len(),
            None => selected(alternatives(list@), text@.skip(from as int)) is None,
        },
{
    let ghost alts = alternatives(list@);
    let ghost rest = text@.skip(from as int);
    let mut k: usize = 0;
    while k < list.len()
        invariant
            k <= list.len(),
            from <= text@.len(),
            alts == alternatives(list@),
            rest == text@.skip(from as int),
            forall|m: int| 0 <= m < k ==> !(#[trigger] alts[m]).is_prefix_of(rest),
        decreases list.len() - k,
    {
        let alt = to_chars(list[k].as_str());
        assert(alt@ == alts[k as int]);
        if starts_with_at(text, from, alt.as_slice()) {
            assert(is_first_alt(alts, rest, k as int));
            return Some(alt.len());
        }
        k += 1;
    }
    None
}

/// The end of the longest run of characters of a repeated class in `text`
/// that starts at `from`.
pub fn skip_run(charlist: &[CharRange], inside: bool, text: &[char], from: usize) -> (end: usize)
    requires
        from <= text@.len(),
    ensures
        from <= end <= text@.len(),
        end - from == run_len(charlist@, inside, text@.skip(from as int)),
{
    let mut j: usize = from;
    while j < text.len()
        invariant
            from <= j <= text.len(),
            run_len(charlist@, inside, text@.skip(from as int)) == (j - from) + run_len(
                charlist@,
                inside,
                text@.skip(j as int),
            ),
        decreases text.len() - j,
    {
        assert(text@.skip(j as int)[0] == text@[j as int]);
        assert(text@.skip(j as int).skip(1) =~= text@.skip(j + 1));
        if charlist_contains(charlist, text[j]) != inside {
            return j;
        }
        j += 1;
    }
    j
}

/// Tests whether the pattern elements consume the whole of `text`.
#[verifier::loop_isolation(false)]
pub fn is_match_slice(pattern: &[PatternChar], text: &[char]) -> (matched: bool)
    ensures
        matched == full_match(tokens_of(pattern@), text@),
    decreases pattern@.len(),
{
    let ghost tokens = tokens_of(pattern@);
    let mut i: usize = 0;
    let mut j: usize = 0;
    assert(tokens.skip(0) =~= tokens && text@.skip(0) =~= text@);
    while i < pattern.len()
        invariant
            i <= pattern.len(),
            j <= text.len(),
            full_match(tokens, text@) == full_match(tokens.skip(i as int), text@.skip(j as int)),
        decreases pattern.len() - i,
    {
        let ghost toks = tokens.skip(i as int);
        let ghost txt = text@.skip(j as int);
        proof {
            assert(toks[0] == pattern@[i as int]@);
            assert(toks.skip(1) =~= tokens.skip(i + 1));
            if j < text.len() {
                assert(txt[0] == text@[j as int]);
                assert(txt.skip(1) =~= text@.skip(j + 1));
            }
        }
        match &pattern[i] {
            PatternChar::Char(ch) => {
                if j < text.len() && text[j] == *ch {
                    i += 1;
                    j += 1;
                } else {
                    return false;
                }
            },
            PatternChar::Number => {
                if j < text.len() && text[j].is_ascii_digit() {
                    i += 1;
                    j += 1;
                } else {
                    return false;
                }
            },
            PatternChar::Question => {
                if j < text.len() {
                    i += 1;
                    j += 1;
                } else {
                    return false;
                }
            },
            PatternChar::Wildcard => {
                i += 1;  // the `*` itself
                if pattern.len() == i {
                    // a trailing `*` takes all that is left
                    return true;
                }
                // try the rest of the pattern at each offset in turn, the
                // end of the text included
                let sub_pattern = slice_subrange(pattern, i, pattern.len());
                assert(tokens_of(sub_pattern@) =~= toks.skip(1));
                let mut j2: usize = j;
                while j2 <= text.len()
                    invariant
                        j <= j2 <= text.len(),
                        forall|k: int|
                            0 <= k < j2 - j ==> !full_match(toks.skip(1), #[trigger] txt.skip(k)),
                    decreases text.len() - j2,
                {
                    let sub_text = slice_subrange(text, j2, text.len());
                    assert(sub_text@ =~= txt.skip(j2 - j));
                    if is_match_slice(sub_pattern, sub_text) {
                        return true;
                    }
                    if j2 == text.len() {
                        return false;
                    }
                    j2 += 1;
                }
                return false;
            },
            PatternChar::CharList(charlist) => {
                if j < text.len() && charlist_contains(charlist.as_slice(), text[j]) {
                    i += 1;
                    j += 1;
                } else {
                    return false;
                }
            },
            PatternChar::NotCharList(charlist) => {
                if j < text.len() && !charlist_contains(charlist.as_slice(), text[j]) {
                    i += 1;
                    j += 1;
                } else {
                    return false;
                }
            },
            PatternChar::CharListRepeat(charlist) => {
                let end = skip_run(charlist.as_slice(), true, text, j);
                if end == j {
                    // an empty run is refused
                    return false;
                }
                assert(txt.skip(run_len(charlist@, true, txt) as int) =~= text@.skip(end as int));
                i += 1;
                j = end;
            },
            PatternChar::NotCharListRepeat(charlist) => {
                let end = skip_run(charlist.as_slice(), false, text, j);
                if end == j {
                    // an empty run is refused
                    return false;
                }
                assert(txt.skip(run_len(charlist@, false, txt) as int) =~= text@.skip(end as int));
                i += 1;
                j = end;
            },
            PatternChar::Selector(selector) => {
                i += 1;
                match select(selector, text, j) {
                    Some(n) => {
                        j += n;
                        assert(txt.skip(n as int) =~= text@.skip(j as int));
                    },
                    None => {
                        return false;
                    },
                }
            },
        }
    }
    j >= text.len()
}

/// `String::push` of std: appends `ch` to the end of the string.
pub assume_specification[ String::push ](s: &mut String, ch: char)
    ensures
        final(s)@ == old(s)@.push(ch),
;

/// Appends the characters of `text` from `from` up to `to` to `out`.
pub fn push_chars(out: &mut String, text: &[char], from: usize, to: usize)
    requires
        from <= to <= text@.len(),
    ensures
        final(out)@ == old(out)@ + text@.subrange(from as int, to as int),
{
    let mut k: usize = from;
    assert(out@ =~= old(out)@ + text@.subrange(from as int, k as int));
    while k < to
        invariant
            from <= k <= to <= text@.len(),
            out@ == old(out)@ + text@.subrange(from as int, k as int),
        decreases to - k,
    {
        out.push(text[k]);
        k += 1;
        assert(out@ =~= old(out)@ + text@.subrange(from as int, k as int));
    }
}

/// Extracts what a `*` and the pattern elements `rest` behind it consume from
/// `text` at `from`: `rest` is tried at `from`, then one character further,
/// and so on to the end of the text, and the first offset at which it
/// consumes a prefix wins.
/// `matched` holds the text before `from`, and comes back with what was
/// consumed added to it.
pub fn extract_split_slice(
    rest: &[PatternChar],
    text: &[char],
    from: usize,
    matched: String,
) -> (found: Option<String>)
    requires
        from <= text@.len(),
        matched@ == text@.take(from as int),
    ensures
        match found {
            Some(whole) => whole@.is_prefix_of(text@) && shifted(
                extract_split(tokens_of(rest@), text@.skip(from as int), 0),
                from as nat,
            ) == Some(whole@.len()),
            None => extract_split(tokens_of(rest@), text@.skip(from as int), 0) is None,
        },
    decreases rest@.len(), 1int,
{
    let ghost tokens = tokens_of(rest@);
    let ghost txt = text@.skip(from as int);
    let mut matched = matched;
    let mut j2: usize = from;
    while j2 <= text.len()
        invariant
            tokens == tokens_of(rest@),
            txt == text@.skip(from as int),
            from <= j2 <= text@.len(),
            matched@ == text@.take(j2 as int),
            extract_split(tokens, txt, 0) == extract_split(tokens, txt, j2 - from),
        decreases text.len() - j2,
    {
        let sub_text = slice_subrange(text, j2, text.len());
        assert(sub_text@ =~= txt.skip(j2 - from));
        match extract_match_slice(rest, sub_text) {
            Some(sub_matched) => {
                matched.append(sub_matched.as_str());
                assert(matched@ =~= text@.take(j2 + sub_matched@.len()));
                return Some(matched);
            },
            None => {
                if j2 == text.len() {
                    assert(extract_split(tokens, txt, j2 - from + 1) is None);
                    return None;
                }
                matched.push(text[j2]);
                assert(text@.take(j2 as int).push(text@[j2 as int]) =~= text@.take(j2 + 1));
                j2 += 1;
            },
        }
    }
    None
}

/// Extracts the prefix of `text` that the pattern elements consume.
#[verifier::spinoff_prover]
#[verifier::rlimit(50)]
pub fn extract_match_slice(pattern: &[PatternChar], text: &[char]) -> (found: Option<String>)
    ensures
        match found {
            Some(matched) => matched@.is_prefix_of(text@) && extract_len(
                tokens_of(pattern@),
                text@,
            ) == Some(matched@.len()),
            None => extract_len(tokens_of(pattern@), text@) is None,
        },
    decreases pattern@.len(), 0int,
{
    let ghost tokens = tokens_of(pattern@);
    let mut i: usize = 0;
    let mut j: usize = 0;
    let mut matched = String::new();
    assert(tokens.skip(0) =~= tokens && text@.skip(0) =~= text@);
    assert(matched@ =~= text@.take(0));
    while i < pattern.len()
        invariant
            i <= pattern.len(),
            j <= text.len(),
            tokens == tokens_of(pattern@),
            matched@ == text@.take(j as int),
            extract_len(tokens, text@) == shifted(
                extract_len(tokens.skip(i as int), text@.skip(j as int)),
                j as nat,
            ),
        decreases pattern.len() - i,
    {
        let ghost toks = tokens.skip(i as int);
        let ghost txt = text@.skip(j as int);
        proof {
            assert(toks[0] == pattern@[i as int]@);
            assert(toks.skip(1) =~= tokens.skip(i + 1));
            if j < text.len() {
                assert(txt[0] == text@[j as int]);
                assert(txt.skip(1) =~= text@.skip(j + 1));
                assert(text@.take(j as int).push(text@[j as int]) =~= text@.take(j + 1));
            }
        }
        match &pattern[i] {
            PatternChar::Char(ch) => {
                if j < text.len() && text[j] == *ch {
                    matched.push(*ch);
                    i += 1;
                    j += 1;
                } else {
                    return None;
                }
            },
            PatternChar::Number => {
                if j < text.len() && text[j].is_ascii_digit() {
                    matched.push(text[j]);
                    i += 1;
                    j += 1;
                } else {
                    return None;
                }
            },
            PatternChar::Question => {
                if j < text.len() {
                    matched.push(text[j]);
                    i += 1;
                    j += 1;
                } else {
                    return None;
                }
            },
            PatternChar::CharList(charlist) => {
                if j < text.len() && charlist_contains(charlist.as_slice(), text[j]) {
                    matched.push(text[j]);
                    i += 1;
                    j += 1;
                } else {
                    return None;
                }
            },
            PatternChar::NotCharList(charlist) => {
                if j < text.len() && !charlist_contains(charlist.as_slice(), text[j]) {
                    matched.push(text[j]);
                    i += 1;
                    j += 1;
                } else {
                    return None;
                }
            },
            PatternChar::CharListRepeat(charlist) => {
                let end = skip_run(charlist.as_slice(), true, text, j);
                if end == j {
                    // an empty run is refused
                    return None;
                }
                i += 1;
                push_chars(&mut matched, text, j, end);
                assert(matched@ =~= text@.take(end as int));
                assert(txt.skip(run_len(charlist@, true, txt) as int) =~= text@.skip(end as int));
                j = end;
            },
            PatternChar::NotCharListRepeat(charlist) => {
                let end = skip_run(charlist.as_slice(), false, text, j);
                if end == j {
                    // an empty run is refused
                    return None;
                }
                i += 1;
                push_chars(&mut matched, text, j, end);
                assert(matched@ =~= text@.take(end as int));
                assert(txt.skip(run_len(charlist@, false, txt) as int) =~= text@.skip(end as int));
                j = end;
            },
            PatternChar::Selector(selector) => {
                i += 1;
                match select(selector, text, j) {
                    Some(n) => {
                        push_chars(&mut matched, text, j, j + n);
                        assert(matched@ =~= text@.take(j + n));
                        assert(txt.skip(n as int) =~= text@.skip(j + n));
                        j += n;
                    },
                    None => {
                        return None;
                    },
                }
            },
            PatternChar::Wildcard => {
                i += 1;  // the `*` itself
                if pattern.len() == i {
                    // a trailing `*` takes all that is left
                    push_chars(&mut matched, text, j, text.len());
                    assert(matched@ =~= text@);
                    assert(text@ =~= text@.subrange(0, text@.len() as int));
                    return Some(matched);
                }
                // try the rest of the pattern at each offset in turn
                let sub_pattern = slice_subrange(pattern, i, pattern.len());
                assert(tokens_of(sub_pattern@) =~= toks.skip(1));
                return extract_split_slice(sub_pattern, text, j, matched);
            },
        }
    }
    Some(matched)
}

/// What a search found: the span of the hit, in characters, and its text.
#[derive(Debug, Clone, PartialEq)]
pub struct MatchedResult {
    pub start: usize,
    pub end: usize,
    pub matched: String,
}

impl MatchedResult {
    /// Whether the span has the length of the matched text.
    pub open spec fn wf(&self) -> bool {
        self.start <= self.end && self.end - self.start == self.matched@.len()
    }

    /// Builds a result from its three parts.
    pub fn new(start: usize, end: usize, matched: String) -> (result: Self)
        ensures
            result.start == start,
            result.end == end,
            result.matched == matched,
    {
        MatchedResult { start, end, matched }
    }

    /// The length of the span, in characters.
    pub fn len(&self) -> (n: usize)
        requires
            self.start <= self.end,
        ensures
            n == self.end - self.start,
    {
        self.end - self.start
    }
}

/// Whether `result` is the first place in `text` where the tokens consume a
/// prefix of what follows, with the span and the text of that prefix.
pub open spec fn is_hit(tokens: Seq<Token>, text: Seq<char>, result: MatchedResult) -> bool {
    &&& result.wf()
    &&& result.end <= text.len()
    &&& is_first_hit(tokens, text, result.start as int)
    &&& extract_len(tokens, text.skip(result.start as int)) == Some(
        (result.end - result.start) as nat,
    )
    &&& result.matched@ == text.subrange(result.start as int, result.end as int)
}

/// Whether the tokens consume a prefix of `text` from no offset.
pub open spec fn no_hit(tokens: Seq<Token>, text: Seq<char>) -> bool {
    forall|start: int|
        0 <= start < text.len() ==> extract_len(tokens, #[trigger] text.skip(start)) is None
}

/// Searches `text` from the left for the first offset at which the pattern
/// elements consume a prefix of what follows.
pub fn find_match_slice(pattern: &[PatternChar], text: &[char]) -> (found: Option<MatchedResult>)
    ensures
        match found {
            Some(result) => is_hit(tokens_of(pattern@), text@, result),
            None => no_hit(tokens_of(pattern@), text@),
        },
{
    let ghost tokens = tokens_of(pattern@);
    for j in 0..text.len()
        invariant
            tokens == tokens_of(pattern@),
            forall|m: int| 0 <= m < j ==> extract_len(tokens, #[trigger] text@.skip(m)) is None,
    {
        let sub_text = slice_subrange(text, j, text.len());
        if let Some(sub_matched) = extract_match_slice(pattern, sub_text) {
            let n = to_chars(sub_matched.as_str()).len();
            let result = MatchedResult { start: j, end: j + n, matched: sub_matched };
            assert(result.matched@ =~= text@.subrange(j as int, j + n));
            return Some(result);
        }
    }
    None
}

/// The texts of a list of strings as character sequences.
pub open spec fn texts(list: Seq<String>) -> Seq<Seq<char>> {
    Seq::new(list.len(), |k: int| list[k]@)
}

impl Pattern {
    /// Tests whether the pattern matches the whole of `text`.
    pub fn is_match(&self, text: &str) -> (matched: bool)
        ensures
            matched == full_match(self@, text@),
    {
        let text_vec = to_chars(text);
        is_match_slice(self.pattern.as_slice(), text_vec.as_slice())
    }

    /// Tests each text of the list against the pattern.
    pub fn is_match_all(&self, str_list: &[String]) -> (result: Vec<bool>)
        ensures
            result@.len() == str_list@.len(),
            forall|k: int|
                0 <= k < str_list@.len() ==> result@[k] == full_match(self@, #[trigger] str_list@[k]@),
    {
        let mut result: Vec<bool> = Vec::new();
        for k in 0..str_list.len()
            invariant
                result@.len() == k,
                forall|m: int|
                    0 <= m < k ==> result@[m] == full_match(self@, #[trigger] str_list@[m]@),
        {
            let text_vec = to_chars(str_list[k].as_str());
            result.push(is_match_slice(self.pattern.as_slice(), text_vec.as_slice()));
        }
        result
    }

    /// The texts of the list that the pattern matches, in their order.
    pub fn filter(&self, str_list: &[String]) -> (result: Vec<String>)
        ensures
            texts(result@) == texts(str_list@).filter(|text: Seq<char>| full_match(self@, text)),
    {
        let ghost pred = |text: Seq<char>| full_match(self@, text);
        let mut result: Vec<String> = Vec::new();
        proof {
            reveal(Seq::filter);
            assert(texts(str_list@.take(0)) =~= Seq::<Seq<char>>::empty());
            assert(texts(result@) =~= Seq::<Seq<char>>::empty());
        }
        for k in 0..str_list.len()
            invariant
                pred == |text: Seq<char>| full_match(self@, text),
                texts(result@) == texts(str_list@.take(k as int)).filter(pred),
        {
            let text = &str_list[k];
            let text_vec = to_chars(text.as_str());
            let b = is_match_slice(self.pattern.as_slice(), text_vec.as_slice());
            proof {
                reveal(Seq::filter);
                let upto = texts(str_list@.take(k + 1));
                assert(upto.drop_last() =~= texts(str_list@.take(k as int)));
                assert(upto.last() == text@);
                assert(pred(text@) == b);
            }
            let ghost before = texts(result@);
            if b {
                result.push(text.clone());
                assert(texts(result@) =~= before.push(text@));
            }
        }
        assert(str_list@.take(str_list@.len() as int) =~= str_list@);
        result
    }

    /// Extracts the prefix of `text` that the pattern consumes.
    pub fn extract_match(&self, text: &str) -> (found: Option<String>)
        ensures
            match found {
                Some(matched) => matched@.is_prefix_of(text@) && extract_len(self@, text@) == Some(
                    matched@.len(),
                ),
                None => extract_len(self@, text@) is None,
            },
    {
        let text_vec = to_chars(text);
        extract_match_slice(self.pattern.as_slice(), text_vec.as_slice())
    }

    /// Searches `text` from the left for the first offset at which the
    /// pattern consumes a prefix of what follows.
    pub fn find_match(&self, text: &str) -> (found: Option<MatchedResult>)
        ensures
            match found {
                Some(result) => is_hit(self@, text@, result),
                None => no_hit(self@, text@),
            },
    {
        let text_vec = to_chars(text);
        find_match_slice(self.pattern.as_slice(), text_vec.as_slice())
    }
}

/// Tests whether `pattern` matches the whole of `text`.
pub fn is_match(pattern: &str, text: &str) -> (matched: bool)
    ensures
        matched == full_match(compile(pattern@), text@),
{
    let pattern_vec = Pattern::new(pattern);
    let text_vec = to_chars(text);
    is_match_slice(pattern_vec.pattern.as_slice(), text_vec.as_slice())
}

/// Extracts the prefix of `text` that `pattern` consumes.
pub fn extract_match(pattern: &str, text: &str) -> (found: Option<String>)
    ensures
        match found {
            Some(matched) => matched@.is_prefix_of(text@) && extract_len(
                compile(pattern@),
                text@,
            ) == Some(matched@.len()),
            None => extract_len(compile(pattern@), text@) is None,
        },
{
    let pat = Pattern::new(pattern);
    let text_chars = to_chars(text);
    extract_match_slice(pat.pattern.as_slice(), text_chars.as_slice())
}

/// Searches `text` from the left for the first offset at which `pattern`
/// consumes a prefix of what follows.
pub fn find_match(pattern: &str, text: &str) -> (found: Option<MatchedResult>)
    ensures
        match found {
            Some(result) => is_hit(compile(pattern@), text@, result),
            None => no_hit(compile(pattern@), text@),
        },
{
    let pattern_chars = Pattern::new(pattern).pattern;
    let text_chars = to_chars(text);
    find_match_slice(pattern_chars.as_slice(), text_chars.as_slice())
}

} // verus!
