//! A read position over a sequence of characters, with escape decoding.

use vstd::prelude::*;
use super::matcher::to_chars;

verus! {

/// The character of `text` at `at`, the null character past the end.
pub open spec fn char_at(text: Seq<char>, at: int) -> char {
    if 0 <= at < text.len() {
        text[at]
    } else {
        '\0'
    }
}

/// The position after reading one character at `at`: past the end nothing
/// is read and the position stays.
pub open spec fn advance(text: Seq<char>, at: int) -> int {
    if 0 <= at < text.len() {
        at + 1
    } else {
        at
    }
}

/// Whether `ch` is an ASCII hexadecimal digit.
pub open spec fn is_hex_digit(ch: char) -> bool {
    ('0' <= ch && ch <= '9') || ('A' <= ch && ch <= 'F') || ('a' <= ch && ch <= 'f')
}

/// The value of a hexadecimal digit.
pub open spec fn hex_digit_value(ch: char) -> nat {
    if '0' <= ch && ch <= '9' {
        (ch as u32 - '0' as u32) as nat
    } else if 'A' <= ch && ch <= 'F' {
        (ch as u32 - 'A' as u32 + 10) as nat
    } else {
        (ch as u32 - 'a' as u32 + 10) as nat
    }
}

/// The number that a sequence of hexadecimal digits writes.
pub open spec fn hex_value(digits: Seq<char>) -> nat
    decreases digits.len(),
{
    if digits.len() == 0 {
        0
    } else {
        16 * hex_value(digits.drop_last()) + hex_digit_value(digits.last())
    }
}

/// The end of the run of hexadecimal digits of `text` that starts at `at`.
pub open spec fn hex_end(text: Seq<char>, at: int) -> int
    decreases text.len() - at,
{
    if 0 <= at < text.len() && is_hex_digit(text[at]) {
        hex_end(text, at + 1)
    } else {
        at
    }
}

/// Whether `n` is a Unicode scalar value.
pub open spec fn is_scalar(n: nat) -> bool {
    n <= 0xD7FF || (0xE000 <= n && n <= 0x10FFFF)
}

/// The character whose code point the digits write, the null character where
/// they write none (no digits at all, or a number that is no scalar value).
pub open spec fn decode_hex(digits: Seq<char>) -> char {
    if is_scalar(hex_value(digits)) {
        hex_value(digits) as char
    } else {
        '\0'
    }
}

/// The character read at `at` with escape decoding, and the position after it.
///
/// A backslash drops out and the character behind it decides: `t`, `n`, `r`
/// and `0` give tab, newline, carriage return and null; `x` and `u` take all
/// the hexadecimal digits that follow as a code point; any other character
/// stands for itself.
pub open spec fn esc_at(text: Seq<char>, at: int) -> (char, int) {
    let first = char_at(text, at);
    let at1 = advance(text, at);
    if first != '\\' {
        (first, at1)
    } else {
        let second = char_at(text, at1);
        let at2 = advance(text, at1);
        if second == 't' {
            ('\t', at2)
        } else if second == 'n' {
            ('\n', at2)
        } else if second == 'r' {
            ('\r', at2)
        } else if second == '0' {
            ('\0', at2)
        } else if second == 'x' || second == 'u' {
            (decode_hex(text.subrange(at2, hex_end(text, at2))), hex_end(text, at2))
        } else {
            (second, at2)
        }
    }
}

/// `char::is_ascii_hexdigit` of std: true exactly for `'0'` to `'9'`, `'A'` to
/// `'F'` and `'a'` to `'f'`.
pub assume_specification[ char::is_ascii_hexdigit ](ch: &char) -> (hex: bool)
    ensures
        hex == is_hex_digit(*ch),
;

/// `char::from_u32` of std: the character with code point `i` where `i` is a
/// Unicode scalar value, `None` elsewhere.
pub assume_specification[ char::from_u32 ](i: u32) -> (ch: Option<char>)
    ensures
        ch == (if is_scalar(i as nat) {
            Some(i as char)
        } else {
            None
        }),
;

/// The number that the hexadecimal digits write, 0 where it does not fit in
/// 32 bits.
pub fn parse_hex(digits: &[char]) -> (value: u32)
    requires
        forall|k: int| 0 <= k < digits@.len() ==> is_hex_digit(#[trigger] digits@[k]),
    ensures
        value == (if hex_value(digits@) <= u32::MAX {
            hex_value(digits@)
        } else {
            0
        }),
{
    let mut value: u32 = 0;
    let mut k: usize = 0;
    assert(digits@.take(0) =~= Seq::<char>::empty());
    while k < digits.len()
        invariant
            k <= digits.len(),
            forall|m: int| 0 <= m < digits@.len() ==> is_hex_digit(#[trigger] digits@[m]),
            value == hex_value(digits@.take(k as int)),
        decreases digits.len() - k,
    {
        let ch = digits[k];
        let digit: u32 = if ch <= '9' {
            ch as u32 - '0' as u32
        } else if ch <= 'F' {
            ch as u32 - 'A' as u32 + 10
        } else {
            ch as u32 - 'a' as u32 + 10
        };
        proof {
            let next = digits@.take(k + 1);
            assert(next.drop_last() =~= digits@.take(k as int));
            assert(next.last() == ch);
            assert(digit == hex_digit_value(ch));
            assert(hex_value(next) == 16 * value + digit);
        }
        if value > (u32::MAX - digit) / 16 {
            proof {
                lemma_hex_value_grows(digits@, k + 1);
            }
            return 0;
        }
        value = value * 16 + digit;
        k += 1;
    }
    assert(digits@.take(k as int) =~= digits@);
    value
}

/// A number written in hexadecimal is no smaller than what a prefix of its
/// digits writes.
pub proof fn lemma_hex_value_grows(digits: Seq<char>, k: int)
    requires
        0 <= k <= digits.len(),
    ensures
        hex_value(digits.take(k)) <= hex_value(digits),
    decreases digits.len() - k,
{
    if k == digits.len() {
        assert(digits.take(k) =~= digits);
    } else {
        lemma_hex_value_grows(digits, k + 1);
        assert(digits.take(k + 1).drop_last() =~= digits.take(k));
    }
}

/// A position in a sequence of characters.
#[derive(Clone, Debug)]
pub struct StrCursor {
    pub index: usize,
    pub chars: Vec<char>,
}

impl StrCursor {
    /// Whether the cursor stands inside its characters or at their end.
    pub open spec fn wf(&self) -> bool {
        self.index <= self.chars@.len()
    }

    /// A cursor at the start of the characters of `s`.
    pub fn new(s: &str) -> (cursor: Self)
        ensures
            cursor.wf(),
            cursor.index == 0,
            cursor.chars@ == s@,
    {
        StrCursor { index: 0, chars: to_chars(s) }
    }

    /// Tests whether a character is left to read.
    pub fn has_next(&self) -> (more: bool)
        ensures
            more == (self.index < self.chars@.len()),
            more ==> self.index < usize::MAX,
    {
        self.index < self.chars.len()
    }

    /// The character at the cursor, the null character at the end; the
    /// cursor stays.
    pub fn peek(&self) -> (ch: char)
        ensures
            ch == char_at(self.chars@, self.index as int),
    {
        if self.has_next() {
            return self.chars[self.index];
        }
        '\0'
    }

    /// Reads the character at the cursor and steps over it; at the end gives
    /// the null character and stays.
    pub fn next(&mut self) -> (ch: char)
        ensures
            ch == char_at(old(self).chars@, old(self).index as int),
            final(self).index == advance(old(self).chars@, old(self).index as int),
            final(self).chars == old(self).chars,
    {
        if !self.has_next() {
            return '\0';
        }
        let c = self.chars[self.index];
        self.index += 1;
        c
    }

    /// Reads one character with escape decoding.
    pub fn next_char_esc(&mut self) -> (ch: char)
        ensures
            (ch, final(self).index as int) == esc_at(old(self).chars@, old(self).index as int),
            final(self).chars == old(self).chars,
    {
        let c = self.next();
        if c == '\\' {
            let c2 = self.next();
            match c2 {
                't' => '\t',
                'n' => '\n',
                'r' => '\r',
                '0' => '\0',
                'x' | 'u' => {
                    let ghost from = self.index as int;
                    let mut hex: Vec<char> = Vec::new();
                    assert(hex@ =~= self.chars@.subrange(from, from));
                    while self.has_next() && self.peek().is_ascii_hexdigit()
                        invariant
                            self.chars == old(self).chars,
                            0 <= from <= self.index <= self.chars@.len(),
                            hex@ == self.chars@.subrange(from, self.index as int),
                            forall|m: int| 0 <= m < hex@.len() ==> is_hex_digit(#[trigger] hex@[m]),
                            hex_end(self.chars@, from) == hex_end(self.chars@, self.index as int),
                        decreases self.chars@.len() - self.index,
                    {
                        let c3 = self.next();
                        hex.push(c3);
                        assert(hex@ =~= self.chars@.subrange(from, self.index as int));
                    }
                    let n = parse_hex(hex.as_slice());
                    match char::from_u32(n) {
                        Some(decoded) => decoded,
                        None => '\0',
                    }
                },
                _ => c2,
            }
        } else {
            c
        }
    }
}

} // verus!
