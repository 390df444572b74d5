//! Wildcard matching in two dialects: a plain one with `*`, `?` and `#`, and
//! an extended one that adds character classes, repeated classes and string
//! selectors.

use vstd::prelude::*;

pub mod ex;
pub mod simple;
pub mod vblike;

verus! {

/// Tests whether `text` as a whole matches `pattern`, read in the plain
/// dialect.
pub fn is_match_simple(pattern: &str, text: &str) -> (matched: bool)
    ensures
        matched == simple::simple_match(pattern@, text@),
{
    simple::is_match(pattern, text)
}

/// Tests whether `text` as a whole matches `pattern`, read in the extended
/// dialect.
pub fn is_match(pattern: &str, text: &str) -> (matched: bool)
    ensures
        matched == ex::semantics::full_match(ex::pattern::compile(pattern@), text@),
{
    ex::is_match(pattern, text)
}

/// Extracts the prefix of `text` that `pattern`, read in the extended
/// dialect, consumes.
pub fn extract_match(pattern: &str, text: &str) -> (found: Option<String>)
    ensures
        match found {
            Some(matched) => matched@.is_prefix_of(text@) && ex::semantics::extract_len(
                ex::pattern::compile(pattern@),
                text@,
            ) == Some(matched@.len()),
            None => ex::semantics::extract_len(ex::pattern::compile(pattern@), text@) is None,
        },
{
    ex::extract_match(pattern, text)
}

/// Searches `text` from the left for the first offset at which `pattern`,
/// read in the extended dialect, consumes a prefix of what follows.
pub fn find_match(pattern: &str, text: &str) -> (found: Option<ex::MatchedResult>)
    ensures
        match found {
            Some(result) => ex::matcher::is_hit(ex::pattern::compile(pattern@), text@, result),
            None => ex::matcher::no_hit(ex::pattern::compile(pattern@), text@),
        },
{
    ex::find_match(pattern, text)
}

} // verus!
