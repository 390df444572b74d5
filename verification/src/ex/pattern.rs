//! The pattern compiler: from a pattern's characters to its tokens.

use vstd::prelude::*;
use super::cursor::{advance, char_at, esc_at, hex_end, StrCursor};
use super::token::{alternatives, tokens_of, CharRange, PatternChar, Token};

verus! {

/// The range that holds `ch` alone.
pub open spec fn single_range(ch: char) -> CharRange {
    CharRange { start: ch, end: ch }
}

/// The ranges of a bracketed class whose content starts at `at`, and the
/// position after the class.
///
/// Characters are read with escape decoding. A `]` ends the class. A raw `-`
/// behind a character makes a range with the character after it; where that
/// character is `]`, the class ends and holds both as single characters. A
/// class that is never closed ends with the pattern.
pub open spec fn class_at(text: Seq<char>, at: int) -> (Seq<CharRange>, int)
    decreases text.len() - at,
{
    if !(0 <= at < text.len()) {
        (Seq::empty(), at)
    } else {
        proof {
            lemma_esc_advances(text, at);
        }
        let (first, at1) = esc_at(text, at);
        if first == ']' {
            (Seq::empty(), at1)
        } else if char_at(text, at1) == '-' {
            proof {
                lemma_esc_bounds(text, at1 + 1);
            }
            let (last, at2) = esc_at(text, at1 + 1);
            if last == ']' {
                (seq![single_range(first), single_range(last)], at2)
            } else {
                let (more, end) = class_at(text, at2);
                (seq![CharRange { start: first, end: last }] + more, end)
            }
        } else {
            let (more, end) = class_at(text, at1);
            (seq![single_range(first)] + more, end)
        }
    }
}

/// One alternative of a selector that starts at `at`, the position after it,
/// and whether a `]` ended it.
///
/// A `|` or a `]` ends the alternative. A backslash drops out and the
/// character behind it is taken as it stands. An alternative that is never
/// ended runs to the end of the pattern.
pub open spec fn alt_at(text: Seq<char>, at: int) -> (Seq<char>, int, bool)
    decreases text.len() - at,
{
    if !(0 <= at < text.len()) {
        (Seq::empty(), at, false)
    } else if text[at] == '|' {
        (Seq::empty(), at + 1, false)
    } else if text[at] == ']' {
        (Seq::empty(), at + 1, true)
    } else if text[at] == '\\' {
        let (more, end, closed) = alt_at(text, advance(text, at + 1));
        (seq![char_at(text, at + 1)] + more, end, closed)
    } else {
        let (more, end, closed) = alt_at(text, at + 1);
        (seq![text[at]] + more, end, closed)
    }
}

/// The alternatives of a selector whose content starts at `at`, and the
/// position after the selector.
pub open spec fn alts_at(text: Seq<char>, at: int) -> (Seq<Seq<char>>, int)
    decreases text.len() - at,
{
    if !(0 <= at < text.len()) {
        (Seq::empty(), at)
    } else {
        proof {
            lemma_alt_advances(text, at);
        }
        let (alt, end, closed) = alt_at(text, at);
        if closed {
            (seq![alt], end)
        } else {
            let (more, stop) = alts_at(text, end);
            (seq![alt] + more, stop)
        }
    }
}

/// The token that starts at `at`, a position inside the pattern, and the
/// position after it.
pub open spec fn token_at(text: Seq<char>, at: int) -> (Token, int)
    recommends
        0 <= at < text.len(),
{
    let ch = text[at];
    let mark = char_at(text, at + 1);
    if ch == '#' {
        (Token::Digit, at + 1)
    } else if ch == '?' {
        (Token::Any, at + 1)
    } else if ch == '*' {
        (Token::Wildcard, at + 1)
    } else if ch == '\\' {
        (Token::Literal(mark), advance(text, at + 1))
    } else if ch == '[' {
        if mark == '!' {
            (Token::NotClass(class_at(text, at + 2).0), class_at(text, at + 2).1)
        } else if mark == '+' {
            (Token::ClassRepeat(class_at(text, at + 2).0), class_at(text, at + 2).1)
        } else if mark == '-' {
            (Token::NotClassRepeat(class_at(text, at + 2).0), class_at(text, at + 2).1)
        } else if mark == '=' {
            (Token::Selector(alts_at(text, at + 2).0), alts_at(text, at + 2).1)
        } else {
            (Token::Class(class_at(text, at + 1).0), class_at(text, at + 1).1)
        }
    } else {
        (Token::Literal(ch), at + 1)
    }
}

/// The tokens of the pattern from `at` on.
pub open spec fn compile_from(text: Seq<char>, at: int) -> Seq<Token>
    decreases text.len() - at,
{
    if !(0 <= at < text.len()) {
        Seq::empty()
    } else {
        proof {
            lemma_token_advances(text, at);
        }
        seq![token_at(text, at).0] + compile_from(text, token_at(text, at).1)
    }
}

/// The tokens that a pattern compiles to.
pub open spec fn compile(text: Seq<char>) -> Seq<Token> {
    compile_from(text, 0)
}

/// A run of hexadecimal digits ends at or after its start, inside the text.
pub proof fn lemma_hex_end_bounds(text: Seq<char>, at: int)
    requires
        0 <= at <= text.len(),
    ensures
        at <= hex_end(text, at) <= text.len(),
    decreases text.len() - at,
{
    if at < text.len() && super::cursor::is_hex_digit(text[at]) {
        lemma_hex_end_bounds(text, at + 1);
    }
}

/// Reading a character with escape decoding never moves back nor past the
/// end.
pub proof fn lemma_esc_bounds(text: Seq<char>, at: int)
    requires
        0 <= at <= text.len(),
    ensures
        at <= esc_at(text, at).1 <= text.len(),
{
    let at2 = advance(text, advance(text, at));
    lemma_hex_end_bounds(text, at2);
}

/// Inside the text, reading a character with escape decoding moves on.
pub proof fn lemma_esc_advances(text: Seq<char>, at: int)
    requires
        0 <= at < text.len(),
    ensures
        at < esc_at(text, at).1 <= text.len(),
{
    let at2 = advance(text, advance(text, at));
    lemma_hex_end_bounds(text, at2);
}

/// A class ends at or after its start, inside the text.
pub proof fn lemma_class_bounds(text: Seq<char>, at: int)
    requires
        0 <= at <= text.len(),
    ensures
        at <= class_at(text, at).1 <= text.len(),
    decreases text.len() - at,
{
    if at < text.len() {
        lemma_esc_advances(text, at);
        let (first, at1) = esc_at(text, at);
        if first == ']' {
        } else if char_at(text, at1) == '-' {
            lemma_esc_bounds(text, at1 + 1);
            let (last, at2) = esc_at(text, at1 + 1);
            if last != ']' {
                lemma_class_bounds(text, at2);
            }
        } else {
            lemma_class_bounds(text, at1);
        }
    }
}

/// Inside the text, reading an alternative moves on.
pub proof fn lemma_alt_advances(text: Seq<char>, at: int)
    requires
        0 <= at <= text.len(),
    ensures
        at <= alt_at(text, at).1 <= text.len(),
        at < text.len() ==> at < alt_at(text, at).1,
    decreases text.len() - at,
{
    if at < text.len() {
        if text[at] == '|' || text[at] == ']' {
        } else if text[at] == '\\' {
            lemma_alt_advances(text, advance(text, at + 1));
        } else {
            lemma_alt_advances(text, at + 1);
        }
    }
}

/// A selector ends at or after its start, inside the text.
pub proof fn lemma_alts_bounds(text: Seq<char>, at: int)
    requires
        0 <= at <= text.len(),
    ensures
        at <= alts_at(text, at).1 <= text.len(),
    decreases text.len() - at,
{
    if at < text.len() {
        lemma_alt_advances(text, at);
        let (alt, end, closed) = alt_at(text, at);
        if !closed {
            lemma_alts_bounds(text, end);
        }
    }
}

/// Every token takes at least one character of the pattern.
pub proof fn lemma_token_advances(text: Seq<char>, at: int)
    requires
        0 <= at < text.len(),
    ensures
        at < token_at(text, at).1 <= text.len(),
{
    if text[at] == '[' {
        let mark = char_at(text, at + 1);
        if mark == '!' || mark == '+' || mark == '-' {
            lemma_class_bounds(text, at + 2);
        } else if mark == '=' {
            lemma_alts_bounds(text, at + 2);
        } else {
            lemma_class_bounds(text, at + 1);
        }
    }
}

impl PatternChar {
    /// Reads the ranges of a bracketed class up to its closing bracket.
    pub fn read_charlist(pattern_cur: &mut StrCursor) -> (charlist: Vec<CharRange>)
        requires
            old(pattern_cur).wf(),
        ensures
            final(pattern_cur).chars == old(pattern_cur).chars,
            final(pattern_cur).wf(),
            charlist@ == class_at(old(pattern_cur).chars@, old(pattern_cur).index as int).0,
            final(pattern_cur).index == class_at(
                old(pattern_cur).chars@,
                old(pattern_cur).index as int,
            ).1,
    {
        let ghost text = pattern_cur.chars@;
        let ghost start = pattern_cur.index as int;
        let mut charlist: Vec<CharRange> = Vec::new();
        assert(charlist@ + class_at(text, start).0 =~= class_at(text, start).0);
        while pattern_cur.has_next()
            invariant
                pattern_cur.chars == old(pattern_cur).chars,
                text == pattern_cur.chars@,
                start == old(pattern_cur).index,
                pattern_cur.index <= text.len(),
                class_at(text, start).0 == charlist@ + class_at(text, pattern_cur.index as int).0,
                class_at(text, start).1 == class_at(text, pattern_cur.index as int).1,
            decreases text.len() - pattern_cur.index,
        {
            let ghost at = pattern_cur.index as int;
            let ghost before = charlist@;
            proof {
                lemma_esc_advances(text, at);
            }
            let c = pattern_cur.next_char_esc();
            if c == ']' {
                assert(charlist@ + Seq::<CharRange>::empty() =~= charlist@);
                return charlist;
            }
            if pattern_cur.peek() == '-' {
                proof {
                    lemma_esc_bounds(text, pattern_cur.index + 1);
                }
                pattern_cur.next();  // the '-'
                let end_char = pattern_cur.next_char_esc();
                if end_char == ']' {
                    charlist.push(CharRange::new(c, c));
                    charlist.push(CharRange::new(end_char, end_char));
                    assert(charlist@ =~= before + seq![single_range(c), single_range(end_char)]);
                    return charlist;
                }
                charlist.push(CharRange::new(c, end_char));
                assert(charlist@ + class_at(text, pattern_cur.index as int).0 =~= before + (seq![
                    CharRange { start: c, end: end_char },
                ] + class_at(text, pattern_cur.index as int).0));
            } else {
                charlist.push(CharRange::new(c, c));
                assert(charlist@ + class_at(text, pattern_cur.index as int).0 =~= before + (seq![
                    single_range(c),
                ] + class_at(text, pattern_cur.index as int).0));
            }
        }
        assert(charlist@ + Seq::<CharRange>::empty() =~= charlist@);
        charlist
    }

    /// Reads one alternative of a selector; the flag tells whether a `]`
    /// ended it.
    pub fn read_alternative(pattern_cur: &mut StrCursor) -> (read: (String, bool))
        requires
            old(pattern_cur).wf(),
        ensures
            final(pattern_cur).chars == old(pattern_cur).chars,
            final(pattern_cur).wf(),
            read.0@ == alt_at(old(pattern_cur).chars@, old(pattern_cur).index as int).0,
            final(pattern_cur).index == alt_at(
                old(pattern_cur).chars@,
                old(pattern_cur).index as int,
            ).1,
            read.1 == alt_at(old(pattern_cur).chars@, old(pattern_cur).index as int).2,
    {
        let ghost text = pattern_cur.chars@;
        let ghost start = pattern_cur.index as int;
        let mut alt = String::new();
        assert(alt@ + alt_at(text, start).0 =~= alt_at(text, start).0);
        while pattern_cur.has_next()
            invariant
                pattern_cur.chars == old(pattern_cur).chars,
                text == pattern_cur.chars@,
                start == old(pattern_cur).index,
                pattern_cur.index <= text.len(),
                alt_at(text, start).0 == alt@ + alt_at(text, pattern_cur.index as int).0,
                alt_at(text, start).1 == alt_at(text, pattern_cur.index as int).1,
                alt_at(text, start).2 == alt_at(text, pattern_cur.index as int).2,
            decreases text.len() - pattern_cur.index,
        {
            let ghost before = alt@;
            let mut c = pattern_cur.next();
            if c == '|' || c == ']' {
                assert(alt@ + Seq::<char>::empty() =~= alt@);
                return (alt, c == ']');
            }
            if c == '\\' {
                c = pattern_cur.next();
            }
            alt.push(c);
            assert(alt@ + alt_at(text, pattern_cur.index as int).0 =~= before + (seq![c] + alt_at(
                text,
                pattern_cur.index as int,
            ).0));
        }
        assert(alt@ + Seq::<char>::empty() =~= alt@);
        (alt, false)
    }

    /// Reads the alternatives of a selector up to its closing bracket.
    pub fn read_selector(pattern_cur: &mut StrCursor) -> (selector: Vec<String>)
        requires
            old(pattern_cur).wf(),
        ensures
            final(pattern_cur).chars == old(pattern_cur).chars,
            final(pattern_cur).wf(),
            alternatives(selector@) == alts_at(
                old(pattern_cur).chars@,
                old(pattern_cur).index as int,
            ).0,
            final(pattern_cur).index == alts_at(
                old(pattern_cur).chars@,
                old(pattern_cur).index as int,
            ).1,
    {
        let ghost text = pattern_cur.chars@;
        let ghost start = pattern_cur.index as int;
        let mut selector: Vec<String> = Vec::new();
        assert(alternatives(selector@) + alts_at(text, start).0 =~= alts_at(text, start).0);
        while pattern_cur.has_next()
            invariant
                pattern_cur.chars == old(pattern_cur).chars,
                text == pattern_cur.chars@,
                start == old(pattern_cur).index,
                pattern_cur.index <= text.len(),
                alts_at(text, start).0 == alternatives(selector@) + alts_at(
                    text,
                    pattern_cur.index as int,
                ).0,
                alts_at(text, start).1 == alts_at(text, pattern_cur.index as int).1,
            decreases text.len() - pattern_cur.index,
        {
            let ghost before = alternatives(selector@);
            proof {
                lemma_alt_advances(text, pattern_cur.index as int);
            }
            let (alt, closed) = Self::read_alternative(pattern_cur);
            let ghost word = alt@;
            selector.push(alt);
            assert(alternatives(selector@) =~= before.push(word));
            if closed {
                assert(before.push(word) =~= before + seq![word]);
                return selector;
            }
            assert(alternatives(selector@) + alts_at(text, pattern_cur.index as int).0 =~= before
                + (seq![word] + alts_at(text, pattern_cur.index as int).0));
        }
        assert(alternatives(selector@) + Seq::<Seq<char>>::empty() =~= alternatives(selector@));
        selector
    }
}

/// A compiled pattern: its elements in order.
#[derive(Clone, Debug)]
pub struct Pattern {
    pub pattern: Vec<PatternChar>,
}

impl View for Pattern {
    type V = Seq<Token>;

    open spec fn view(&self) -> Seq<Token> {
        tokens_of(self.pattern@)
    }
}

impl Pattern {
    /// Compiles a pattern. Every string is a pattern: a bracket that is never
    /// closed runs to the end.
    pub fn new(pattern_str: &str) -> (compiled: Self)
        ensures
            compiled@ == compile(pattern_str@),
    {
        let mut pattern_cur = StrCursor::new(pattern_str);
        let mut pattern: Vec<PatternChar> = Vec::new();
        let ghost text = pattern_str@;
        assert(tokens_of(pattern@) + compile_from(text, 0) =~= compile_from(text, 0));
        while pattern_cur.has_next()
            invariant
                pattern_cur.chars@ == text,
                pattern_cur.index <= text.len(),
                compile(text) == tokens_of(pattern@) + compile_from(text, pattern_cur.index as int),
            decreases text.len() - pattern_cur.index,
        {
            let ghost at = pattern_cur.index as int;
            let ghost before = tokens_of(pattern@);
            proof {
                lemma_token_advances(text, at);
            }
            let c = pattern_cur.next();
            match c {
                '#' => pattern.push(PatternChar::Number),
                '?' => pattern.push(PatternChar::Question),
                '*' => pattern.push(PatternChar::Wildcard),
                '\\' => {
                    // the next character stands for itself
                    let c = pattern_cur.next();
                    pattern.push(PatternChar::Char(c));
                },
                '[' => {
                    let c = pattern_cur.peek();
                    match c {
                        '!' => {
                            pattern_cur.next();  // the '!'
                            let charlist = PatternChar::read_charlist(&mut pattern_cur);
                            pattern.push(PatternChar::NotCharList(charlist));
                        },
                        '+' => {
                            pattern_cur.next();  // the '+'
                            let charlist = PatternChar::read_charlist(&mut pattern_cur);
                            pattern.push(PatternChar::CharListRepeat(charlist));
                        },
                        '-' => {
                            pattern_cur.next();  // the '-'
                            let charlist = PatternChar::read_charlist(&mut pattern_cur);
                            pattern.push(PatternChar::NotCharListRepeat(charlist));
                        },
                        '=' => {
                            pattern_cur.next();  // the '='
                            let selector = PatternChar::read_selector(&mut pattern_cur);
                            pattern.push(PatternChar::Selector(selector));
                        },
                        _ => {
                            let charlist = PatternChar::read_charlist(&mut pattern_cur);
                            pattern.push(PatternChar::CharList(charlist));
                        },
                    }
                },
                _ => pattern.push(PatternChar::Char(c)),
            }
            proof {
                assert(pattern_cur.index as int == token_at(text, at).1);
                assert(tokens_of(pattern@) =~= before.push(token_at(text, at).0));
                assert(tokens_of(pattern@) + compile_from(text, pattern_cur.index as int) =~= before
                    + (seq![token_at(text, at).0] + compile_from(text, pattern_cur.index as int)));
            }
        }
        assert(tokens_of(pattern@) + Seq::<Token>::empty() =~= tokens_of(pattern@));
        Pattern { pattern }
    }
}

} // verus!
