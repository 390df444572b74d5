//! A single-pass matcher for the extended dialect: each token takes its
//! characters once, from left to right, and nothing is tried again.

use vstd::prelude::*;
use crate::ex::cursor::{advance, char_at};
use crate::ex::matcher::to_chars;
use crate::ex::pattern::{alt_at, alts_at, lemma_alt_advances, lemma_alts_bounds};
use crate::ex::semantics::in_run;
use crate::ex::token::{alternatives, charlist_contains, in_ranges, is_digit};

pub use crate::ex::token::CharRange;

verus! {

/// A position in a sequence of characters.
#[derive(Clone, Debug)]
pub struct StrCursor {
    pub index: usize,
    pub chars: Vec<char>,
}

/// Whether `text` holds the characters of `word` from `at` on.
pub open spec fn holds_at(text: Seq<char>, at: int, word: Seq<char>) -> bool {
    word.len() == 0 || (at + word.len() <= text.len() && forall|k: int|
        0 <= k < word.len() ==> text[at + k] == #[trigger] word[k])
}

/// The character read at `at`, where a backslash drops out and the character
/// behind it is taken as it stands, and the position after it.
pub open spec fn plain_esc_at(text: Seq<char>, at: int) -> (char, int) {
    if char_at(text, at) == '\\' {
        (char_at(text, advance(text, at)), advance(text, advance(text, at)))
    } else {
        (char_at(text, at), advance(text, at))
    }
}

impl StrCursor {
    /// Whether the cursor stands inside its characters or at their end.
    pub open spec fn wf(&self) -> bool {
        self.index <= self.chars@.len()
    }

    /// A cursor at the start of the characters of `s`.
    pub fn new(s: &str) -> (cursor: Self)
        ensures
            cursor.wf(),
            cursor.index == 0,
            cursor.chars@ == s@,
    {
        StrCursor { index: 0, chars: to_chars(s) }
    }

    /// Tests whether a character is left to read.
    pub fn has_next(&self) -> (more: bool)
        ensures
            more == (self.index < self.chars@.len()),
            more ==> self.index < usize::MAX,
    {
        self.index < self.chars.len()
    }

    /// The character at the cursor, the null character at the end; the
    /// cursor stays.
    pub fn peek(&self) -> (ch: char)
        ensures
            ch == char_at(self.chars@, self.index as int),
    {
        if self.has_next() {
            return self.chars[self.index];
        }
        '\0'
    }

    /// Reads the character at the cursor and steps over it; at the end gives
    /// the null character and stays.
    pub fn next(&mut self) -> (ch: char)
        ensures
            ch == char_at(old(self).chars@, old(self).index as int),
            final(self).index == advance(old(self).chars@, old(self).index as int),
            final(self).chars == old(self).chars,
    {
        if !self.has_next() {
            return '\0';
        }
        let c = self.chars[self.index];
        self.index += 1;
        c
    }

    /// Steps over `n` characters.
    pub fn next_n(&mut self, n: usize)
        requires
            old(self).index + n <= usize::MAX,
        ensures
            final(self).index == old(self).index + n,
            final(self).chars == old(self).chars,
    {
        self.index += n;
    }

    /// Reads one character; a backslash drops out and the character behind
    /// it is read as it stands.
    pub fn next_char_esc(&mut self) -> (ch: char)
        ensures
            ch == plain_esc_at(old(self).chars@, old(self).index as int).0,
            final(self).index == plain_esc_at(old(self).chars@, old(self).index as int).1,
            final(self).chars == old(self).chars,
    {
        let c = self.next();
        if c == '\\' {
            self.next()
        } else {
            c
        }
    }

    /// Tests whether the characters of `s` stand at the cursor.
    pub fn eq_str(&self, s: &str) -> (same: bool)
        ensures
            same == holds_at(self.chars@, self.index as int, s@),
    {
        let ss = to_chars(s);
        let mut i: usize = 0;
        while i < ss.len()
            invariant
                i <= ss.len(),
                ss@ == s@,
                i > 0 ==> self.index + i <= self.chars@.len(),
                forall|k: int| 0 <= k < i ==> self.chars@[self.index + k] == #[trigger] ss@[k],
            decreases ss.len() - i,
        {
            if self.index >= self.chars.len() || i >= self.chars.len() - self.index {
                return false;
            }
            if self.chars[self.index + i] != ss[i] {
                assert(s@[i as int] == ss@[i as int]);
                return false;
            }
            i += 1;
        }
        true
    }
}

/// A compiled pattern element.
#[derive(Debug)]
pub enum PatternChar {
    /// One given character.
    Char(char),
    /// `#`: one ASCII decimal digit.
    Number,
    /// `?`: one character of any value.
    Question,
    /// `*`, with the pattern character behind it, the null character where
    /// the `*` ends the pattern.
    Wildcard(char),
    /// `[...]`: one character inside the ranges.
    CharList(Vec<CharRange>),
    /// `[!...]`: one character outside the ranges.
    NotCharList(Vec<CharRange>),
    /// `[*...]`: a longest run of characters inside the ranges.
    CharListRepeat(Vec<CharRange>),
    /// `[-...]`: a longest run of characters outside the ranges.
    NotCharListRepeat(Vec<CharRange>),
    /// `[=a|b|c]`: one of the listed strings.
    Selector(Vec<String>),
}

/// The mathematical value of a pattern element.
pub enum Token {
    /// One given character.
    Literal(char),
    /// One ASCII decimal digit.
    Digit,
    /// One character of any value.
    Any,
    /// `*` up to the given character, to the end for the null character.
    Upto(char),
    /// One character inside the ranges.
    Class(Seq<CharRange>),
    /// One character outside the ranges.
    NotClass(Seq<CharRange>),
    /// A longest run, empty or not, of characters inside the ranges.
    ClassRepeat(Seq<CharRange>),
    /// A longest run, empty or not, of characters outside the ranges.
    NotClassRepeat(Seq<CharRange>),
    /// The first of the listed strings that stands at the position.
    Selector(Seq<Seq<char>>),
}

impl View for PatternChar {
    type V = Token;

    open spec fn view(&self) -> Token {
        match *self {
            PatternChar::Char(ch) => Token::Literal(ch),
            PatternChar::Number => Token::Digit,
            PatternChar::Question => Token::Any,
            PatternChar::Wildcard(ch) => Token::Upto(ch),
            PatternChar::CharList(ranges) => Token::Class(ranges@),
            PatternChar::NotCharList(ranges) => Token::NotClass(ranges@),
            PatternChar::CharListRepeat(ranges) => Token::ClassRepeat(ranges@),
            PatternChar::NotCharListRepeat(ranges) => Token::NotClassRepeat(ranges@),
            PatternChar::Selector(list) => Token::Selector(alternatives(list@)),
        }
    }
}

/// The token sequence that a list of pattern elements stands for.
pub open spec fn tokens_of(pattern: Seq<PatternChar>) -> Seq<Token> {
    Seq::new(pattern.len(), |k: int| pattern[k]@)
}

/// The first position from `from` on that holds `ch`, the end of the text
/// where none does.
pub open spec fn first_at(text: Seq<char>, from: int, ch: char) -> int
    decreases text.len() - from,
{
    if 0 <= from < text.len() && text[from] != ch {
        first_at(text, from + 1, ch)
    } else {
        from
    }
}

/// The end of the longest run of characters of a repeated class that starts
/// at `from`.
pub open spec fn run_to(ranges: Seq<CharRange>, inside: bool, text: Seq<char>, from: int) -> int
    decreases text.len() - from,
{
    if 0 <= from < text.len() && in_run(ranges, inside, text[from]) {
        run_to(ranges, inside, text, from + 1)
    } else {
        from
    }
}

/// Whether `alts[k]` is the first alternative that stands in `text` at `at`.
pub open spec fn is_first_held(alts: Seq<Seq<char>>, text: Seq<char>, at: int, k: int) -> bool {
    &&& 0 <= k < alts.len()
    &&& holds_at(text, at, alts[k])
    &&& forall|m: int| 0 <= m < k ==> !holds_at(text, at, #[trigger] alts[m])
}

/// The first alternative that stands in `text` at `at`, where there is one.
pub open spec fn first_held(alts: Seq<Seq<char>>, text: Seq<char>, at: int) -> int {
    choose|k: int| is_first_held(alts, text, at, k)
}

/// Where the cursor stands after `token` has taken its characters from `at`
/// on, `None` where it rejects the text.
///
/// A `*` runs up to the next occurrence of the pattern character behind it,
/// or to the end of the text. A repeated class takes its longest run, which
/// may be empty. A selector takes the first alternative that stands there.
pub open spec fn step(token: Token, text: Seq<char>, at: int) -> Option<int> {
    match token {
        Token::Literal(ch) => if 0 <= at < text.len() && text[at] == ch {
            Some(at + 1)
        } else {
            None
        },
        Token::Digit => if 0 <= at < text.len() && is_digit(text[at]) {
            Some(at + 1)
        } else {
            None
        },
        Token::Any => if 0 <= at < text.len() {
            Some(at + 1)
        } else {
            None
        },
        Token::Upto(ch) => if ch == '\0' {
            Some(text.len() as int)
        } else {
            Some(first_at(text, at, ch))
        },
        Token::Class(ranges) => if 0 <= at < text.len() && in_ranges(ranges, text[at]) {
            Some(at + 1)
        } else {
            None
        },
        Token::NotClass(ranges) => if 0 <= at < text.len() && !in_ranges(ranges, text[at]) {
            Some(at + 1)
        } else {
            None
        },
        Token::ClassRepeat(ranges) => Some(run_to(ranges, true, text, at)),
        Token::NotClassRepeat(ranges) => Some(run_to(ranges, false, text, at)),
        Token::Selector(alts) => if exists|k: int| is_first_held(alts, text, at, k) {
            Some(at + alts[first_held(alts, text, at)].len())
        } else {
            None
        },
    }
}

/// A selector takes the first alternative that stands at the cursor.
pub proof fn lemma_step_selector(alts: Seq<Seq<char>>, text: Seq<char>, at: int, k: int)
    requires
        is_first_held(alts, text, at, k),
    ensures
        step(Token::Selector(alts), text, at) == Some(at + alts[k].len()),
{
    let chosen = first_held(alts, text, at);
    assert(is_first_held(alts, text, at, chosen));
    assert(chosen == k);
    let token = Token::Selector(alts);
    assert(token->Selector_0 == alts);
    assert(step(token, text, at) == if exists|k: int| is_first_held(alts, text, at, k) {
        Some(at + alts[first_held(alts, text, at)].len())
    } else {
        None
    });
}

/// Whether the tokens from the `i`-th on, each taking its characters in
/// turn from `at` on, end at the end of the text.
pub open spec fn run_from(tokens: Seq<Token>, i: int, text: Seq<char>, at: int) -> bool
    decreases tokens.len() - i,
{
    if !(0 <= i < tokens.len()) {
        at >= text.len()
    } else {
        match step(tokens[i], text, at) {
            Some(to) => run_from(tokens, i + 1, text, to),
            None => false,
        }
    }
}

/// The ranges of a bracketed class whose content starts at `at`, and the
/// position after the class.
///
/// A `]` ends the class. A raw `-` behind a character makes a range with the
/// character after it; where that character is `]`, the class ends and holds
/// both as single characters. A class that is never closed ends with the
/// pattern.
pub open spec fn plain_class_at(text: Seq<char>, at: int) -> (Seq<CharRange>, int)
    decreases text.len() - at,
{
    if !(0 <= at < text.len()) {
        (Seq::empty(), at)
    } else {
        let (first, at1) = plain_esc_at(text, at);
        if first == ']' {
            (Seq::empty(), at1)
        } else if char_at(text, at1) == '-' {
            let (last, at2) = plain_esc_at(text, at1 + 1);
            if last == ']' {
                (seq![CharRange { start: first, end: first }, CharRange { start: last, end: last }], at2)
            } else {
                let (more, end) = plain_class_at(text, at2);
                (seq![CharRange { start: first, end: last }] + more, end)
            }
        } else {
            let (more, end) = plain_class_at(text, at1);
            (seq![CharRange { start: first, end: first }] + more, end)
        }
    }
}

/// The token that starts at `at`, a position inside the pattern, and the
/// position after it.
pub open spec fn token_at(text: Seq<char>, at: int) -> (Token, int)
    recommends
        0 <= at < text.len(),
{
    let ch = text[at];
    let mark = char_at(text, at + 1);
    if ch == '#' {
        (Token::Digit, at + 1)
    } else if ch == '?' {
        (Token::Any, at + 1)
    } else if ch == '*' {
        (Token::Upto(mark), at + 1)
    } else if ch == '\\' {
        (Token::Literal(mark), advance(text, at + 1))
    } else if ch == '[' {
        if mark == '!' {
            (Token::NotClass(plain_class_at(text, at + 2).0), plain_class_at(text, at + 2).1)
        } else if mark == '*' {
            (Token::ClassRepeat(plain_class_at(text, at + 2).0), plain_class_at(text, at + 2).1)
        } else if mark == '-' {
            (Token::NotClassRepeat(plain_class_at(text, at + 2).0), plain_class_at(text, at + 2).1)
        } else if mark == '=' {
            (Token::Selector(alts_at(text, at + 2).0), alts_at(text, at + 2).1)
        } else {
            (Token::Class(plain_class_at(text, at + 1).0), plain_class_at(text, at + 1).1)
        }
    } else {
        (Token::Literal(ch), at + 1)
    }
}

/// The tokens of the pattern from `at` on.
pub open spec fn compile_from(text: Seq<char>, at: int) -> Seq<Token>
    decreases text.len() - at,
{
    if !(0 <= at < text.len()) {
        Seq::empty()
    } else {
        proof {
            lemma_token_advances(text, at);
        }
        seq![token_at(text, at).0] + compile_from(text, token_at(text, at).1)
    }
}

/// The tokens that a pattern compiles to.
pub open spec fn compile(text: Seq<char>) -> Seq<Token> {
    compile_from(text, 0)
}

/// A class ends at or after its start, inside the text.
pub proof fn lemma_class_bounds(text: Seq<char>, at: int)
    requires
        0 <= at <= text.len(),
    ensures
        at <= plain_class_at(text, at).1 <= text.len(),
    decreases text.len() - at,
{
    if at < text.len() {
        let (first, at1) = plain_esc_at(text, at);
        if first == ']' {
        } else if char_at(text, at1) == '-' {
            let (last, at2) = plain_esc_at(text, at1 + 1);
            if last != ']' {
                lemma_class_bounds(text, at2);
            }
        } else {
            lemma_class_bounds(text, at1);
        }
    }
}

/// Every token takes at least one character of the pattern.
pub proof fn lemma_token_advances(text: Seq<char>, at: int)
    requires
        0 <= at < text.len(),
    ensures
        at < token_at(text, at).1 <= text.len(),
{
    if text[at] == '[' {
        let mark = char_at(text, at + 1);
        if mark == '!' || mark == '*' || mark == '-' {
            lemma_class_bounds(text, at + 2);
        } else if mark == '=' {
            lemma_alts_bounds(text, at + 2);
        } else {
            lemma_class_bounds(text, at + 1);
        }
    }
}

/// A copy of a list of ranges.
pub fn clone_ranges(list: &Vec<CharRange>) -> (copy: Vec<CharRange>)
    ensures
        copy@ == list@,
{
    let mut copy: Vec<CharRange> = Vec::new();
    for k in 0..list.len()
        invariant
            copy@ == list@.take(k as int),
    {
        copy.push(list[k]);
        assert(copy@ =~= list@.take(k + 1));
    }
    assert(list@.take(list@.len() as int) =~= list@);
    copy
}

/// A copy of a list of strings.
pub fn clone_strings(list: &Vec<String>) -> (copy: Vec<String>)
    ensures
        copy@ == list@,
{
    let mut copy: Vec<String> = Vec::new();
    for k in 0..list.len()
        invariant
            copy@ == list@.take(k as int),
    {
        copy.push(list[k].clone());
        assert(copy@ =~= list@.take(k + 1));
    }
    assert(list@.take(list@.len() as int) =~= list@);
    copy
}

impl Clone for PatternChar {
    fn clone(&self) -> (copy: Self)
        ensures
            copy@ == self@,
    {
        match self {
            PatternChar::Char(ch) => PatternChar::Char(*ch),
            PatternChar::Number => PatternChar::Number,
            PatternChar::Question => PatternChar::Question,
            PatternChar::Wildcard(ch) => PatternChar::Wildcard(*ch),
            PatternChar::CharList(list) => PatternChar::CharList(clone_ranges(list)),
            PatternChar::NotCharList(list) => PatternChar::NotCharList(clone_ranges(list)),
            PatternChar::CharListRepeat(list) => PatternChar::CharListRepeat(clone_ranges(list)),
            PatternChar::NotCharListRepeat(list) => PatternChar::NotCharListRepeat(
                clone_ranges(list),
            ),
            PatternChar::Selector(list) => PatternChar::Selector(clone_strings(list)),
        }
    }
}

impl PatternChar {
    /// Lets the element take its characters at the cursor. Where it rejects
    /// the text, the cursor stays.
    pub fn is_match(&mut self, cur: &mut StrCursor) -> (matched: bool)
        ensures
            final(self)@ == old(self)@,
            final(cur).chars == old(cur).chars,
            match step(old(self)@, old(cur).chars@, old(cur).index as int) {
                Some(to) => matched && final(cur).index == to,
                None => !matched && final(cur).index == old(cur).index,
            },
    {
        let ghost text = cur.chars@;
        let ghost at = cur.index as int;
        match &*self {
            PatternChar::Char(ch) => {
                if cur.has_next() && cur.peek() == *ch {
                    cur.next();
                    return true;
                }
            },
            PatternChar::Number => {
                if cur.has_next() && cur.peek().is_ascii_digit() {
                    cur.next();
                    return true;
                }
            },
            PatternChar::Question => {
                if cur.has_next() {
                    cur.next();
                    return true;
                }
            },
            PatternChar::Wildcard(next_char) => {
                if *next_char == '\0' {
                    cur.index = cur.chars.len();
                    return true;
                }
                while cur.has_next() && cur.peek() != *next_char
                    invariant
                        cur.chars == old(cur).chars,
                        cur.chars@ == text,
                        first_at(text, at, *next_char) == first_at(text, cur.index as int, *next_char),
                    decreases text.len() - cur.index,
                {
                    cur.next();
                }
                return true;
            },
            PatternChar::CharList(charlist) => {
                if cur.has_next() {
                    let ch = cur.peek();
                    if charlist_contains(charlist.as_slice(), ch) {
                        cur.next();
                        return true;
                    }
                }
            },
            PatternChar::NotCharList(charlist) => {
                if cur.has_next() {
                    let ch = cur.peek();
                    if !charlist_contains(charlist.as_slice(), ch) {
                        cur.next();
                        return true;
                    }
                }
            },
            PatternChar::CharListRepeat(charlist) => {
                while cur.has_next() && charlist_contains(charlist.as_slice(), cur.peek())
                    invariant
                        cur.chars == old(cur).chars,
                        cur.chars@ == text,
                        run_to(charlist@, true, text, at) == run_to(
                            charlist@,
                            true,
                            text,
                            cur.index as int,
                        ),
                    decreases text.len() - cur.index,
                {
                    cur.next();
                }
                return true;
            },
            PatternChar::NotCharListRepeat(charlist) => {
                while cur.has_next() && !charlist_contains(charlist.as_slice(), cur.peek())
                    invariant
                        cur.chars == old(cur).chars,
                        cur.chars@ == text,
                        run_to(charlist@, false, text, at) == run_to(
                            charlist@,
                            false,
                            text,
                            cur.index as int,
                        ),
                    decreases text.len() - cur.index,
                {
                    cur.next();
                }
                return true;
            },
            PatternChar::Selector(selector) => {
                let ghost alts = alternatives(selector@);
                let mut k: usize = 0;
                while k < selector.len()
                    invariant
                        k <= selector.len(),
                        cur.chars == old(cur).chars,
                        cur.chars@ == text,
                        cur.index == at,
                        at == old(cur).index,
                        alts == alternatives(selector@),
                        old(self)@ == Token::Selector(alts),
                        forall|m: int| 0 <= m < k ==> !holds_at(text, at, #[trigger] alts[m]),
                    decreases selector.len() - k,
                {
                    let pat = selector[k].as_str();
                    assert(pat@ == alts[k as int]);
                    if cur.eq_str(pat) {
                        let n = to_chars(pat).len();
                        proof {
                            lemma_step_selector(alts, text, at, k as int);
                            assert(cur.chars@.len() == cur.chars.len());
                        }
                        cur.next_n(n);
                        return true;
                    }
                    k += 1;
                }
            },
        }
        false
    }

    /// Reads the ranges of a bracketed class up to its closing bracket.
    pub fn read_charlist(pattern_cur: &mut StrCursor) -> (charlist: Vec<CharRange>)
        requires
            old(pattern_cur).wf(),
        ensures
            final(pattern_cur).chars == old(pattern_cur).chars,
            final(pattern_cur).wf(),
            charlist@ == plain_class_at(old(pattern_cur).chars@, old(pattern_cur).index as int).0,
            final(pattern_cur).index == plain_class_at(
                old(pattern_cur).chars@,
                old(pattern_cur).index as int,
            ).1,
    {
        let ghost text = pattern_cur.chars@;
        let ghost start = pattern_cur.index as int;
        let mut charlist: Vec<CharRange> = Vec::new();
        assert(charlist@ + plain_class_at(text, start).0 =~= plain_class_at(text, start).0);
        while pattern_cur.has_next()
            invariant
                pattern_cur.chars == old(pattern_cur).chars,
                text == pattern_cur.chars@,
                start == old(pattern_cur).index,
                pattern_cur.index <= text.len(),
                plain_class_at(text, start).0 == charlist@ + plain_class_at(
                    text,
                    pattern_cur.index as int,
                ).0,
                plain_class_at(text, start).1 == plain_class_at(text, pattern_cur.index as int).1,
            decreases text.len() - pattern_cur.index,
        {
            let ghost before = charlist@;
            let c = pattern_cur.next_char_esc();
            if c == ']' {
                assert(charlist@ + Seq::<CharRange>::empty() =~= charlist@);
                return charlist;
            }
            if pattern_cur.peek() == '-' {
                pattern_cur.next();  // the '-'
                let end_char = pattern_cur.next_char_esc();
                if end_char == ']' {
                    charlist.push(CharRange::new(c, c));
                    charlist.push(CharRange::new(end_char, end_char));
                    assert(charlist@ =~= before + seq![
                        CharRange { start: c, end: c },
                        CharRange { start: end_char, end: end_char },
                    ]);
                    return charlist;
                }
                charlist.push(CharRange::new(c, end_char));
                assert(charlist@ + plain_class_at(text, pattern_cur.index as int).0 =~= before + (
                seq![CharRange { start: c, end: end_char }] + plain_class_at(
                    text,
                    pattern_cur.index as int,
                ).0));
            } else {
                charlist.push(CharRange::new(c, c));
                assert(charlist@ + plain_class_at(text, pattern_cur.index as int).0 =~= before + (
                seq![CharRange { start: c, end: c }] + plain_class_at(
                    text,
                    pattern_cur.index as int,
                ).0));
            }
        }
        assert(charlist@ + Seq::<CharRange>::empty() =~= charlist@);
        charlist
    }

    /// Reads one alternative of a selector; the flag tells whether a `]`
    /// ended it.
    pub fn read_alternative(pattern_cur: &mut StrCursor) -> (read: (String, bool))
        requires
            old(pattern_cur).wf(),
        ensures
            final(pattern_cur).chars == old(pattern_cur).chars,
            final(pattern_cur).wf(),
            read.0@ == alt_at(old(pattern_cur).chars@, old(pattern_cur).index as int).0,
            final(pattern_cur).index == alt_at(
                old(pattern_cur).chars@,
                old(pattern_cur).index as int,
            ).1,
            read.1 == alt_at(old(pattern_cur).chars@, old(pattern_cur).index as int).2,
    {
        let ghost text = pattern_cur.chars@;
        let ghost start = pattern_cur.index as int;
        let mut alt = String::new();
        assert(alt@ + alt_at(text, start).0 =~= alt_at(text, start).0);
        while pattern_cur.has_next()
            invariant
                pattern_cur.chars == old(pattern_cur).chars,
                text == pattern_cur.chars@,
                start == old(pattern_cur).index,
                pattern_cur.index <= text.len(),
                alt_at(text, start).0 == alt@ + alt_at(text, pattern_cur.index as int).0,
                alt_at(text, start).1 == alt_at(text, pattern_cur.index as int).1,
                alt_at(text, start).2 == alt_at(text, pattern_cur.index as int).2,
            decreases text.len() - pattern_cur.index,
        {
            let ghost before = alt@;
            let mut c = pattern_cur.next();
            if c == '|' || c == ']' {
                assert(alt@ + Seq::<char>::empty() =~= alt@);
                return (alt, c == ']');
            }
            if c == '\\' {
                c = pattern_cur.next();
            }
            alt.push(c);
            assert(alt@ + alt_at(text, pattern_cur.index as int).0 =~= before + (seq![c] + alt_at(
                text,
                pattern_cur.index as int,
            ).0));
        }
        assert(alt@ + Seq::<char>::empty() =~= alt@);
        (alt, false)
    }

    /// Reads the alternatives of a selector up to its closing bracket.
    pub fn read_selector(pattern_cur: &mut StrCursor) -> (selector: Vec<String>)
        requires
            old(pattern_cur).wf(),
        ensures
            final(pattern_cur).chars == old(pattern_cur).chars,
            final(pattern_cur).wf(),
            alternatives(selector@) == alts_at(
                old(pattern_cur).chars@,
                old(pattern_cur).index as int,
            ).0,
            final(pattern_cur).index == alts_at(
                old(pattern_cur).chars@,
                old(pattern_cur).index as int,
            ).1,
    {
        let ghost text = pattern_cur.chars@;
        let ghost start = pattern_cur.index as int;
        let mut selector: Vec<String> = Vec::new();
        assert(alternatives(selector@) + alts_at(text, start).0 =~= alts_at(text, start).0);
        while pattern_cur.has_next()
            invariant
                pattern_cur.chars == old(pattern_cur).chars,
                text == pattern_cur.chars@,
                start == old(pattern_cur).index,
                pattern_cur.index <= text.len(),
                alts_at(text, start).0 == alternatives(selector@) + alts_at(
                    text,
                    pattern_cur.index as int,
                ).0,
                alts_at(text, start).1 == alts_at(text, pattern_cur.index as int).1,
            decreases text.len() - pattern_cur.index,
        {
            let ghost before = alternatives(selector@);
            proof {
                lemma_alt_advances(text, pattern_cur.index as int);
            }
            let (alt, closed) = Self::read_alternative(pattern_cur);
            let ghost word = alt@;
            selector.push(alt);
            assert(alternatives(selector@) =~= before.push(word));
            if closed {
                assert(before.push(word) =~= before + seq![word]);
                return selector;
            }
            assert(alternatives(selector@) + alts_at(text, pattern_cur.index as int).0 =~= before
                + (seq![word] + alts_at(text, pattern_cur.index as int).0));
        }
        assert(alternatives(selector@) + Seq::<Seq<char>>::empty() =~= alternatives(selector@));
        selector
    }
}

/// A compiled pattern and the position of the element that is next in turn.
#[derive(Clone, Debug)]
pub struct Pattern {
    pub index: usize,
    pub pattern: Vec<PatternChar>,
}

impl View for Pattern {
    type V = Seq<Token>;

    open spec fn view(&self) -> Seq<Token> {
        tokens_of(self.pattern@)
    }
}

impl Pattern {
    /// Compiles a pattern. Every string is a pattern: a bracket that is never
    /// closed runs to the end.
    pub fn new(pattern_str: &str) -> (compiled: Self)
        ensures
            compiled.index == 0,
            compiled@ == compile(pattern_str@),
    {
        let mut pattern_cur = StrCursor::new(pattern_str);
        let mut pattern: Vec<PatternChar> = Vec::new();
        let ghost text = pattern_str@;
        assert(tokens_of(pattern@) + compile_from(text, 0) =~= compile_from(text, 0));
        while pattern_cur.has_next()
            invariant
                pattern_cur.chars@ == text,
                pattern_cur.index <= text.len(),
                compile(text) == tokens_of(pattern@) + compile_from(text, pattern_cur.index as int),
            decreases text.len() - pattern_cur.index,
        {
            let ghost at = pattern_cur.index as int;
            let ghost before = tokens_of(pattern@);
            proof {
                lemma_token_advances(text, at);
            }
            let c = pattern_cur.next();
            match c {
                '#' => pattern.push(PatternChar::Number),
                '?' => pattern.push(PatternChar::Question),
                '*' => {
                    let next_char = pattern_cur.peek();
                    pattern.push(PatternChar::Wildcard(next_char));
                },
                '\\' => {
                    // the next character stands for itself
                    let c = pattern_cur.next();
                    pattern.push(PatternChar::Char(c));
                },
                '[' => {
                    let c = pattern_cur.peek();
                    match c {
                        '!' => {
                            pattern_cur.next();  // the '!'
                            let charlist = PatternChar::read_charlist(&mut pattern_cur);
                            pattern.push(PatternChar::NotCharList(charlist));
                        },
                        '*' => {
                            pattern_cur.next();  // the '*'
                            let charlist = PatternChar::read_charlist(&mut pattern_cur);
                            pattern.push(PatternChar::CharListRepeat(charlist));
                        },
                        '-' => {
                            pattern_cur.next();  // the '-'
                            let charlist = PatternChar::read_charlist(&mut pattern_cur);
                            pattern.push(PatternChar::NotCharListRepeat(charlist));
                        },
                        '=' => {
                            pattern_cur.next();  // the '='
                            let selector = PatternChar::read_selector(&mut pattern_cur);
                            pattern.push(PatternChar::Selector(selector));
                        },
                        _ => {
                            let charlist = PatternChar::read_charlist(&mut pattern_cur);
                            pattern.push(PatternChar::CharList(charlist));
                        },
                    }
                },
                _ => pattern.push(PatternChar::Char(c)),
            }
            proof {
                assert(pattern_cur.index as int == token_at(text, at).1);
                assert(tokens_of(pattern@) =~= before.push(token_at(text, at).0));
                assert(tokens_of(pattern@) + compile_from(text, pattern_cur.index as int) =~= before
                    + (seq![token_at(text, at).0] + compile_from(text, pattern_cur.index as int)));
            }
        }
        assert(tokens_of(pattern@) + Seq::<Token>::empty() =~= tokens_of(pattern@));
        Pattern { index: 0, pattern }
    }

    /// Tests whether an element is left.
    pub fn has_next(&self) -> (more: bool)
        ensures
            more == (self.index < self.pattern@.len()),
            more ==> self.index < usize::MAX,
    {
        self.index < self.pattern.len()
    }

    /// A copy of the element that is next in turn.
    pub fn next(&self) -> (element: PatternChar)
        requires
            self.index < self.pattern@.len(),
        ensures
            element@ == self@[self.index as int],
    {
        self.pattern[self.index].clone()
    }
}

/// Tests whether the tokens of `pattern`, each taking its characters in turn,
/// end at the end of `text`.
pub fn is_match(pattern: &str, text: &str) -> (matched: bool)
    ensures
        matched == run_from(compile(pattern@), 0, text@, 0),
{
    let mut compiled = Pattern::new(pattern);
    let mut text_cur = StrCursor::new(text);
    let ghost tokens = compiled@;
    while compiled.has_next()
        invariant
            compiled@ == tokens,
            tokens == compile(pattern@),
            text_cur.chars@ == text@,
            run_from(tokens, 0, text@, 0) == run_from(
                tokens,
                compiled.index as int,
                text@,
                text_cur.index as int,
            ),
        decreases tokens.len() - compiled.index,
    {
        let mut pat = compiled.next();
        if !pat.is_match(&mut text_cur) {
            return false;
        }
        compiled.index += 1;
    }
    !text_cur.has_next() && !compiled.has_next()
}

} // verus!


