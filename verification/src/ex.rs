//! The extended wildcard dialect: pattern compiler and backtracking matcher.

pub mod token;
pub mod semantics;
pub mod matcher;
pub mod cursor;
pub mod pattern;
pub mod laws;

pub use token::{CharRange, PatternChar, Token};
pub use cursor::StrCursor;
pub use pattern::Pattern;
pub use matcher::{
    extract_match, extract_match_slice, find_match, find_match_slice, is_match, is_match_slice,
    MatchedResult,
};
