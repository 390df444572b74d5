//! What it means for a token sequence to match a text.

use vstd::prelude::*;
use super::token::{in_ranges, is_digit, CharRange, Token};

verus! {

/// Whether `token` consumes exactly one character, whatever the text.
pub open spec fn is_single(token: Token) -> bool {
    token is Literal || token is Digit || token is Any || token is Class || token is NotClass
}

/// Whether `token`, one that consumes exactly one character, accepts `ch`.
pub open spec fn accepts(token: Token, ch: char) -> bool {
    match token {
        Token::Literal(c) => ch == c,
        Token::Digit => is_digit(ch),
        Token::Any => true,
        Token::Class(ranges) => in_ranges(ranges, ch),
        Token::NotClass(ranges) => !in_ranges(ranges, ch),
        _ => false,
    }
}

/// Whether a repeated class with these ranges takes `ch` into its run:
/// `inside` tells a `[+...]` class from a `[-...]` class.
pub open spec fn in_run(ranges: Seq<CharRange>, inside: bool, ch: char) -> bool {
    in_ranges(ranges, ch) == inside
}

/// The length of the longest run of characters of the class at the start of
/// `text`.
pub open spec fn run_len(ranges: Seq<CharRange>, inside: bool, text: Seq<char>) -> nat
    decreases text.len(),
{
    if text.len() > 0 && in_run(ranges, inside, text[0]) {
        1 + run_len(ranges, inside, text.skip(1))
    } else {
        0
    }
}

/// Whether `alts[k]` is the first alternative that the text starts with.
pub open spec fn is_first_alt(alts: Seq<Seq<char>>, text: Seq<char>, k: int) -> bool {
    &&& 0 <= k < alts.len()
    &&& alts[k].is_prefix_of(text)
    &&& forall|m: int| 0 <= m < k ==> !(#[trigger] alts[m]).is_prefix_of(text)
}

/// The number of characters a selector consumes at the start of `text`:
/// the length of the first alternative, in list order, that the text starts
/// with; `None` where it starts with none of them.
pub open spec fn selected(alts: Seq<Seq<char>>, text: Seq<char>) -> Option<nat> {
    if exists|k: int| is_first_alt(alts, text, k) {
        Some(alts[choose|k: int| is_first_alt(alts, text, k)].len())
    } else {
        None
    }
}

/// The number of characters that a token other than `*` consumes at the start
/// of `text`; `None` where it rejects the text.
///
/// A token that takes one character, and a repeated class, need a character:
/// they reject a text that has run out. A selector is asked there too, and
/// may take an empty alternative.
pub open spec fn consumed(token: Token, text: Seq<char>) -> Option<nat>
    recommends
        !(token is Wildcard),
{
    match token {
        Token::ClassRepeat(ranges) => if run_len(ranges, true, text) > 0 {
            Some(run_len(ranges, true, text))
        } else {
            None
        },
        Token::NotClassRepeat(ranges) => if run_len(ranges, false, text) > 0 {
            Some(run_len(ranges, false, text))
        } else {
            None
        },
        Token::Selector(alts) => selected(alts, text),
        _ => if text.len() > 0 && accepts(token, text[0]) {
            Some(1)
        } else {
            None
        },
    }
}

/// Whether the tokens consume the whole text.
///
/// A `*` that ends the pattern takes all that is left, be it nothing;
/// elsewhere it takes any number of characters, from none to all, the rest
/// matching what is left. A repeated class takes its longest run and never
/// gives characters back.
pub open spec fn full_match(tokens: Seq<Token>, text: Seq<char>) -> bool
    decreases tokens.len(),
{
    if tokens.len() == 0 {
        text.len() == 0
    } else if tokens[0] is Wildcard {
        tokens.len() == 1 || exists|k: int|
            0 <= k <= text.len() && full_match(tokens.skip(1), #[trigger] text.skip(k))
    } else {
        match consumed(tokens[0], text) {
            Some(n) => full_match(tokens.skip(1), text.skip(n as int)),
            None => false,
        }
    }
}

/// What a `*` and the tokens `rest` behind it consume from `text` when the
/// `*` takes `k` characters or more: the rest is tried at `k`, then at
/// `k + 1`, and so on to the end of the text, and the first offset at which
/// it consumes a prefix wins.
pub open spec fn extract_split(rest: Seq<Token>, text: Seq<char>, k: int) -> Option<nat>
    decreases rest.len(), text.len() - k + 1,
{
    if 0 <= k <= text.len() {
        match extract_len(rest, text.skip(k)) {
            Some(n) => Some((k + n) as nat),
            None => extract_split(rest, text, k + 1),
        }
    } else {
        None
    }
}

/// The length of the prefix of `text` that the tokens consume, `None` where
/// they consume none.
///
/// The tokens are walked as in [`full_match`], but text may be left over at the
/// end. A `*` that ends the pattern takes all that is left; elsewhere it takes
/// the least number of characters after which the rest consumes a prefix.
pub open spec fn extract_len(tokens: Seq<Token>, text: Seq<char>) -> Option<nat>
    decreases tokens.len(), 0int,
{
    if tokens.len() == 0 {
        Some(0)
    } else if tokens[0] is Wildcard {
        if tokens.len() == 1 {
            Some(text.len())
        } else {
            extract_split(tokens.skip(1), text, 0)
        }
    } else {
        match consumed(tokens[0], text) {
            Some(n) => match extract_len(tokens.skip(1), text.skip(n as int)) {
                Some(more) => Some(n + more),
                None => None,
            },
            None => None,
        }
    }
}

/// A consumed length counted from `by` characters further left.
pub open spec fn shifted(len: Option<nat>, by: nat) -> Option<nat> {
    match len {
        Some(n) => Some(n + by),
        None => None,
    }
}

/// Whether `start` is the first offset of `text` from which the tokens
/// consume a prefix.
pub open spec fn is_first_hit(tokens: Seq<Token>, text: Seq<char>, start: int) -> bool {
    &&& 0 <= start < text.len()
    &&& extract_len(tokens, text.skip(start)) is Some
    &&& forall|m: int| 0 <= m < start ==> extract_len(tokens, #[trigger] text.skip(m)) is None
}

} // verus!

