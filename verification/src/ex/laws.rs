//! What holds of matching, extraction and search, whatever the pattern.

use vstd::prelude::*;
use super::matcher::{is_hit, MatchedResult};
use super::pattern::{compile, compile_from, token_at, Pattern};
use super::semantics::{
    accepts, consumed, extract_len, extract_split, full_match, in_run, is_first_alt, is_single,
    run_len, selected,
};
use super::token::{CharRange, Token};

verus! {

/// A pattern of tokens that each take exactly one character matches a text
/// exactly when it has as many tokens as the text has characters and each
/// token accepts the character at its position.
pub proof fn positional_match(tokens: Seq<Token>, text: Seq<char>)
    requires
        forall|i: int| 0 <= i < tokens.len() ==> is_single(#[trigger] tokens[i]),
    ensures
        full_match(tokens, text) <==> (tokens.len() == text.len() && forall|i: int|
            0 <= i < tokens.len() ==> accepts(#[trigger] tokens[i], text[i])),
    decreases tokens.len(),
{
    if tokens.len() > 0 && text.len() > 0 {
        let rest = tokens.skip(1);
        let tail = text.skip(1);
        assert forall|i: int| 0 <= i < rest.len() implies is_single(#[trigger] rest[i]) by {
            assert(rest[i] == tokens[i + 1]);
        }
        positional_match(rest, tail);
        if full_match(tokens, text) {
            assert forall|i: int| 0 <= i < tokens.len() implies accepts(
                #[trigger] tokens[i],
                text[i],
            ) by {
                if i > 0 {
                    assert(rest[i - 1] == tokens[i]);
                    assert(tail[i - 1] == text[i]);
                }
            }
        }
        if tokens.len() == text.len() && forall|i: int|
            0 <= i < tokens.len() ==> accepts(#[trigger] tokens[i], text[i]) {
            assert forall|i: int| 0 <= i < rest.len() implies accepts(#[trigger] rest[i], tail[i]) by {
                assert(rest[i] == tokens[i + 1]);
                assert(tail[i] == text[i + 1]);
            }
            assert(accepts(tokens[0], text[0]));
        }
    } else if tokens.len() > 0 {
        if tokens.len() == text.len() {
        }
    }
}

/// The pattern `*` matches every text, the empty one too.
pub proof fn star_matches(text: Seq<char>)
    ensures
        compile("*"@) == seq![Token::Wildcard],
        full_match(compile("*"@), text),
{
    reveal_strlit("*");
    let source = "*"@;
    assert(source.len() == 1 && source[0] == '*');
    assert(token_at(source, 0) == (Token::Wildcard, 1int));
    assert(compile_from(source, 1) =~= Seq::<Token>::empty());
    assert(compile_from(source, 0) =~= seq![Token::Wildcard]);
}

/// The run of a class at the start of a text lies inside the text, holds
/// characters of the class only, and ends at the end of the text or before a
/// character that is not of the class.
pub proof fn lemma_run_len_bound(ranges: Seq<CharRange>, inside: bool, text: Seq<char>)
    ensures
        run_len(ranges, inside, text) <= text.len(),
        forall|k: int|
            0 <= k < run_len(ranges, inside, text) ==> in_run(ranges, inside, #[trigger] text[k]),
        run_len(ranges, inside, text) < text.len() ==> !in_run(
            ranges,
            inside,
            text[run_len(ranges, inside, text) as int],
        ),
    decreases text.len(),
{
    if text.len() > 0 && in_run(ranges, inside, text[0]) {
        let tail = text.skip(1);
        lemma_run_len_bound(ranges, inside, tail);
        assert forall|k: int| 0 <= k < run_len(ranges, inside, text) implies in_run(
            ranges,
            inside,
            #[trigger] text[k],
        ) by {
            if k > 0 {
                assert(text[k] == tail[k - 1]);
            }
        }
        if run_len(ranges, inside, text) < text.len() {
            assert(text[run_len(ranges, inside, text) as int] == tail[run_len(
                ranges,
                inside,
                tail,
            ) as int]);
        }
    }
}

/// Cutting a text behind the longest run of a class leaves the run as it is.
pub proof fn lemma_run_len_take(ranges: Seq<CharRange>, inside: bool, text: Seq<char>, n: int)
    requires
        run_len(ranges, inside, text) <= n <= text.len(),
    ensures
        run_len(ranges, inside, text.take(n)) == run_len(ranges, inside, text),
    decreases text.len(),
{
    if text.len() > 0 && in_run(ranges, inside, text[0]) {
        lemma_run_len_take(ranges, inside, text.skip(1), n - 1);
        assert(text.take(n).skip(1) =~= text.skip(1).take(n - 1));
    }
}

/// Cutting a text behind what a selector consumes leaves the selector's
/// choice as it is.
pub proof fn lemma_selected_take(alts: Seq<Seq<char>>, text: Seq<char>, n: int)
    requires
        selected(alts, text) is Some,
        selected(alts, text)->0 <= n <= text.len(),
    ensures
        selected(alts, text.take(n)) == selected(alts, text),
{
    let k = choose|k: int| is_first_alt(alts, text, k);
    let cut = text.take(n);
    assert(alts[k] =~= cut.subrange(0, alts[k].len() as int));
    assert forall|m: int| 0 <= m < k implies !(#[trigger] alts[m]).is_prefix_of(cut) by {
        if alts[m].is_prefix_of(cut) {
            assert(alts[m] =~= text.subrange(0, alts[m].len() as int));
        }
    }
    assert(is_first_alt(alts, cut, k));
    let chosen = choose|k: int| is_first_alt(alts, cut, k);
    assert(is_first_alt(alts, cut, chosen));
    assert(chosen == k);
}

/// What a token other than `*` consumes lies inside the text.
pub proof fn lemma_consumed_bounds(token: Token, text: Seq<char>)
    requires
        !(token is Wildcard),
        consumed(token, text) is Some,
    ensures
        consumed(token, text)->0 <= text.len(),
{
    match token {
        Token::ClassRepeat(ranges) => {
            lemma_run_len_bound(ranges, true, text);
        },
        Token::NotClassRepeat(ranges) => {
            lemma_run_len_bound(ranges, false, text);
        },
        Token::Selector(alts) => {
            let k = choose|k: int| is_first_alt(alts, text, k);
            assert(is_first_alt(alts, text, k));
        },
        _ => {},
    }
}

/// Cutting a text behind what a token other than `*` consumes leaves that
/// number as it is.
pub proof fn lemma_consumed_take(token: Token, text: Seq<char>, n: int)
    requires
        !(token is Wildcard),
        consumed(token, text) is Some,
        consumed(token, text)->0 <= n <= text.len(),
    ensures
        consumed(token, text.take(n)) == consumed(token, text),
{
    match token {
        Token::ClassRepeat(ranges) => {
            lemma_run_len_take(ranges, true, text, n);
        },
        Token::NotClassRepeat(ranges) => {
            lemma_run_len_take(ranges, false, text, n);
        },
        Token::Selector(alts) => {
            lemma_selected_take(alts, text, n);
        },
        _ => {},
    }
}

/// Where a `*` and the tokens behind it consume a prefix, the `*` takes the
/// least number of characters after which the rest consumes a prefix of what
/// follows.
pub proof fn lemma_split_witness(rest: Seq<Token>, text: Seq<char>, from: int) -> (k: int)
    requires
        0 <= from,
        extract_split(rest, text, from) is Some,
    ensures
        from <= k <= text.len(),
        extract_len(rest, text.skip(k)) is Some,
        forall|m: int| from <= m < k ==> extract_len(rest, #[trigger] text.skip(m)) is None,
        extract_split(rest, text, from) == Some((k + extract_len(rest, text.skip(k))->0) as nat),
    decreases text.len() - from,
{
    if extract_len(rest, text.skip(from)) is Some {
        from
    } else {
        if from >= text.len() {
            assert(extract_split(rest, text, from + 1) is None);
        }
        lemma_split_witness(rest, text, from + 1)
    }
}

/// A consumed prefix lies inside the text.
pub proof fn lemma_extract_bounds(tokens: Seq<Token>, text: Seq<char>)
    requires
        extract_len(tokens, text) is Some,
    ensures
        extract_len(tokens, text)->0 <= text.len(),
    decreases tokens.len(),
{
    if tokens.len() > 0 {
        let rest = tokens.skip(1);
        if tokens[0] is Wildcard {
            if tokens.len() > 1 {
                let k = lemma_split_witness(rest, text, 0);
                lemma_extract_bounds(rest, text.skip(k));
            }
        } else {
            lemma_consumed_bounds(tokens[0], text);
            let n = consumed(tokens[0], text)->0;
            lemma_extract_bounds(rest, text.skip(n as int));
        }
    }
}

/// What extraction takes from the start of a text lies inside the text, and
/// the pattern matches it as a whole.
pub proof fn extracted_prefix_matches(tokens: Seq<Token>, text: Seq<char>)
    requires
        extract_len(tokens, text) is Some,
    ensures
        extract_len(tokens, text)->0 <= text.len(),
        full_match(tokens, text.take(extract_len(tokens, text)->0 as int)),
    decreases tokens.len(),
{
    lemma_extract_bounds(tokens, text);
    let n = extract_len(tokens, text)->0 as int;
    let cut = text.take(n);
    if tokens.len() > 0 {
        let rest = tokens.skip(1);
        if tokens[0] is Wildcard {
            if tokens.len() == 1 {
                assert(cut =~= text);
            } else {
                let k = lemma_split_witness(rest, text, 0);
                let tail = text.skip(k);
                lemma_extract_bounds(rest, tail);
                extracted_prefix_matches(rest, tail);
                assert(cut.skip(k) =~= tail.take(n - k));
            }
        } else {
            lemma_consumed_bounds(tokens[0], text);
            let c = consumed(tokens[0], text)->0 as int;
            let tail = text.skip(c);
            lemma_extract_bounds(rest, tail);
            extracted_prefix_matches(rest, tail);
            lemma_consumed_take(tokens[0], text, n);
            assert(cut.skip(c) =~= tail.take(n - c));
        }
    } else {
        assert(cut.len() == 0);
    }
}

/// Once the rest behind a `*` consumes a prefix at some offset, the `*` and
/// the rest consume a prefix from every offset up to that one.
pub proof fn lemma_split_found(rest: Seq<Token>, text: Seq<char>, from: int, k: int)
    requires
        0 <= from <= k <= text.len(),
        extract_len(rest, text.skip(k)) is Some,
    ensures
        extract_split(rest, text, from) is Some,
    decreases k - from,
{
    if from < k && extract_len(rest, text.skip(from)) is None {
        lemma_split_found(rest, text, from + 1, k);
    }
}

/// A text that the pattern matches as a whole has a prefix that extraction
/// takes.
pub proof fn match_has_extraction(tokens: Seq<Token>, text: Seq<char>)
    requires
        full_match(tokens, text),
    ensures
        extract_len(tokens, text) is Some,
    decreases tokens.len(),
{
    if tokens.len() > 0 {
        let rest = tokens.skip(1);
        if tokens[0] is Wildcard {
            if tokens.len() > 1 {
                let k = choose|k: int|
                    0 <= k <= text.len() && full_match(rest, #[trigger] text.skip(k));
                match_has_extraction(rest, text.skip(k));
                lemma_split_found(rest, text, 0, k);
            }
        } else {
            let n = consumed(tokens[0], text)->0;
            match_has_extraction(rest, text.skip(n as int));
        }
    }
}

/// A hit of the search holds the text of its span, and that text is what
/// extraction takes from the text that starts at the hit.
pub proof fn hit_is_extraction(tokens: Seq<Token>, text: Seq<char>, result: MatchedResult)
    requires
        is_hit(tokens, text, result),
    ensures
        result.matched@ == text.subrange(result.start as int, result.end as int),
        result.wf(),
        result.matched@.is_prefix_of(text.skip(result.start as int)),
        extract_len(tokens, text.skip(result.start as int)) == Some(result.matched@.len()),
{
    assert(result.matched@ =~= text.skip(result.start as int).subrange(
        0,
        result.matched@.len() as int,
    ));
}

/// Two patterns compiled from the same string accept the same texts and
/// extract the same prefixes.
pub proof fn compile_is_stable(first: Pattern, second: Pattern, source: Seq<char>, text: Seq<char>)
    requires
        first@ == compile(source),
        second@ == compile(source),
    ensures
        full_match(first@, text) == full_match(second@, text),
        extract_len(first@, text) == extract_len(second@, text),
{
}

} // verus!
