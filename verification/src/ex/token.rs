//! Pattern tokens: the executable representation and its mathematical view.

use vstd::prelude::*;

verus! {

/// An inclusive range of Unicode scalar values.
#[derive(Clone, Copy, Debug)]
pub struct CharRange {
    pub start: char,
    pub end: char,
}

impl CharRange {
    /// Whether `ch` lies between `start` and `end`, both included.
    pub open spec fn spec_contains(&self, ch: char) -> bool {
        self.start <= ch && ch <= self.end
    }

    /// Builds the range from `start` to `end`, both included.
    pub fn new(start: char, end: char) -> (range: Self)
        ensures
            range.start == start,
            range.end == end,
    {
        CharRange { start, end }
    }

    /// Tests whether `ch` lies in the range.
    #[verifier::when_used_as_spec(spec_contains)]
    pub fn contains(&self, ch: char) -> (inside: bool)
        ensures
            inside == self.spec_contains(ch),
    {
        ch >= self.start && ch <= self.end
    }
}

/// A compiled pattern element, as the matcher reads it.
#[derive(Debug, Clone)]
pub enum PatternChar {
    /// One given character.
    Char(char),
    /// `#`: one ASCII decimal digit.
    Number,
    /// `?`: one character of any value.
    Question,
    /// `*`: any run of characters.
    Wildcard,
    /// `[...]`: one character inside the ranges.
    CharList(Vec<CharRange>),
    /// `[!...]`: one character outside the ranges.
    NotCharList(Vec<CharRange>),
    /// `[+...]`: a longest run of characters inside the ranges.
    CharListRepeat(Vec<CharRange>),
    /// `[-...]`: a longest run of characters outside the ranges.
    NotCharListRepeat(Vec<CharRange>),
    /// `[=a|b|c]`: one of the listed strings.
    Selector(Vec<String>),
}

/// The mathematical value of a pattern element.
pub enum Token {
    /// One given character.
    Literal(char),
    /// One ASCII decimal digit.
    Digit,
    /// One character of any value.
    Any,
    /// Any run of characters.
    Wildcard,
    /// One character inside the ranges.
    Class(Seq<CharRange>),
    /// One character outside the ranges.
    NotClass(Seq<CharRange>),
    /// A longest run, not empty, of characters inside the ranges.
    ClassRepeat(Seq<CharRange>),
    /// A longest run, not empty, of characters outside the ranges.
    NotClassRepeat(Seq<CharRange>),
    /// The first of the listed strings that stands at the position.
    Selector(Seq<Seq<char>>),
}

/// The alternatives of a selector as character sequences.
pub open spec fn alternatives(list: Seq<String>) -> Seq<Seq<char>> {
    Seq::new(list.len(), |k: int| list[k]@)
}

impl View for PatternChar {
    type V = Token;

    open spec fn view(&self) -> Token {
        match *self {
            PatternChar::Char(ch) => Token::Literal(ch),
            PatternChar::Number => Token::Digit,
            PatternChar::Question => Token::Any,
            PatternChar::Wildcard => Token::Wildcard,
            PatternChar::CharList(ranges) => Token::Class(ranges@),
            PatternChar::NotCharList(ranges) => Token::NotClass(ranges@),
            PatternChar::CharListRepeat(ranges) => Token::ClassRepeat(ranges@),
            PatternChar::NotCharListRepeat(ranges) => Token::NotClassRepeat(ranges@),
            PatternChar::Selector(list) => Token::Selector(alternatives(list@)),
        }
    }
}

/// The token sequence that a slice of pattern elements stands for.
pub open spec fn tokens_of(pattern: Seq<PatternChar>) -> Seq<Token> {
    Seq::new(pattern.len(), |k: int| pattern[k]@)
}

/// Whether `ch` is an ASCII decimal digit.
pub open spec fn is_digit(ch: char) -> bool {
    '0' <= ch && ch <= '9'
}

/// Whether `ch` lies in at least one of the ranges.
pub open spec fn in_ranges(ranges: Seq<CharRange>, ch: char) -> bool {
    exists|k: int| 0 <= k < ranges.len() && #[trigger] ranges[k].spec_contains(ch)
}

/// `char::is_ascii_digit` of std: true exactly for `'0'` to `'9'`.
pub assume_specification[ char::is_ascii_digit ](ch: &char) -> (digit: bool)
    ensures
        digit == is_digit(*ch),
;

/// Tests whether `ch` lies in at least one of the ranges.
pub fn charlist_contains(charlist: &[CharRange], ch: char) -> (found: bool)
    ensures
        found == in_ranges(charlist@, ch),
{
    let mut k: usize = 0;
    while k < charlist.len()
        invariant
            k <= charlist.len(),
            forall|m: int| 0 <= m < k ==> !(#[trigger] charlist@[m].spec_contains(ch)),
        decreases charlist.len() - k,
    {
        if charlist[k].contains(ch) {
            return true;
        }
        k += 1;
    }
    false
}

} // verus!
