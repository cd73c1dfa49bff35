//! The lexical level of the arithmetic grammar: white space, numbers and
//! signs, read from UTF-8 text.
//!
//! White space is every character with the Unicode property `White_Space`.
//! A number is a longest run of the digits `0` to `9`. A sign is one of
//! `! ( ) * + - / ? = ^`. Places in the text are byte offsets.

use vstd::prelude::*;

verus! {

/// What a lexeme is.
#[derive(Debug, Copy, Clone, PartialEq, Eq, Structural)]
pub enum LexemeKind {
    /// A number, with its value where that fits an `i32`.
    Number(Option<i32>),
    /// A sign.
    Sign(char),
}

/// A lexeme and the bytes it spans, from `start` up to `end`.
#[derive(Debug, Copy, Clone, PartialEq, Eq, Structural)]
pub struct Lexeme {
    pub kind: LexemeKind,
    pub start: usize,
    pub end: usize,
}

/// The lexemes of a text up to the first place that begins none, and that
/// place.
pub ghost struct Scan {
    pub lexemes: Seq<Lexeme>,
    pub stuck: Option<usize>,
}

/// Whether `a b c` is the encoding of a white space character of three bytes.
pub open spec fn is_wide_space(a: u8, b: u8, c: u8) -> bool {
    ||| a == 0xE1 && b == 0x9A && c == 0x80
    ||| a == 0xE2 && b == 0x80 && (0x80 <= c <= 0x8A || c == 0xA8 || c == 0xA9 || c == 0xAF)
    ||| a == 0xE2 && b == 0x81 && c == 0x9F
    ||| a == 0xE3 && b == 0x80 && c == 0x80
}

/// The length in bytes of the white space character that begins at `at`, or
/// 0 where none does.
pub open spec fn space_len(text: Seq<u8>, at: int) -> nat {
    if at < 0 || at >= text.len() {
        0
    } else if 0x09 <= text[at] <= 0x0D || text[at] == 0x20 {
        1
    } else if at + 1 < text.len() && text[at] == 0xC2 && (text[at + 1] == 0x85 || text[at + 1]
        == 0xA0) {
        2
    } else if at + 2 < text.len() && is_wide_space(text[at], text[at + 1], text[at + 2]) {
        3
    } else {
        0
    }
}

/// The length in bytes of the white space that begins at `at`.
pub open spec fn spaces_run(text: Seq<u8>, at: int) -> nat
    decreases text.len() - at,
{
    if space_len(text, at) > 0 {
        space_len(text, at) + spaces_run(text, at + space_len(text, at))
    } else {
        0
    }
}

/// Whether `b` is a digit.
pub open spec fn is_digit(b: u8) -> bool {
    0x30 <= b <= 0x39
}

/// The number of digits that begin at `at`.
pub open spec fn digits_run(text: Seq<u8>, at: int) -> nat
    decreases text.len() - at,
{
    if 0 <= at < text.len() && is_digit(text[at]) {
        1 + digits_run(text, at + 1)
    } else {
        0
    }
}

/// The number that the digits `digits` spell in base ten.
pub open spec fn decimal(digits: Seq<u8>) -> nat
    decreases digits.len(),
{
    if digits.len() == 0 {
        0
    } else {
        decimal(digits.drop_last()) * 10 + (digits.last() - 0x30) as nat
    }
}

/// The value of a number lexeme, where it fits.
pub open spec fn value_of(digits: Seq<u8>) -> Option<i32> {
    if decimal(digits) <= i32::MAX {
        Some(decimal(digits) as i32)
    } else {
        None
    }
}

/// The sign that the byte `b` spells.
pub open spec fn sign_of(b: u8) -> Option<char> {
    if b == 0x21 {
        Some('!')
    } else if b == 0x28 {
        Some('(')
    } else if b == 0x29 {
        Some(')')
    } else if b == 0x2A {
        Some('*')
    } else if b == 0x2B {
        Some('+')
    } else if b == 0x2D {
        Some('-')
    } else if b == 0x2F {
        Some('/')
    } else if b == 0x3F {
        Some('?')
    } else if b == 0x3D {
        Some('=')
    } else if b == 0x5E {
        Some('^')
    } else {
        None
    }
}

/// The lexeme that begins at `at`, a place inside the text.
pub open spec fn lexeme_at(text: Seq<u8>, at: int) -> Option<Lexeme> {
    if is_digit(text[at]) {
        let end = at + 1 + digits_run(text, at + 1);
        Some(
            Lexeme {
                kind: LexemeKind::Number(value_of(text.subrange(at, end))),
                start: at as usize,
                end: end as usize,
            },
        )
    } else {
        match sign_of(text[at]) {
            Some(c) => Some(
                Lexeme { kind: LexemeKind::Sign(c), start: at as usize, end: (at + 1) as usize },
            ),
            None => None,
        }
    }
}

/// How many bytes of `text` stand at or behind `at`.
pub open spec fn left(text: Seq<u8>, at: int) -> nat {
    if at <= text.len() {
        (text.len() - at) as nat
    } else {
        0
    }
}

/// The lexemes of `text` from `at` on.
pub open spec fn scan_from(text: Seq<u8>, at: int) -> Scan
    decreases left(text, at),
{
    let begin = at + spaces_run(text, at);
    if at < 0 || begin >= text.len() {
        Scan { lexemes: Seq::empty(), stuck: None }
    } else if is_digit(text[begin]) {
        let rest = scan_from(text, begin + 1 + digits_run(text, begin + 1));
        Scan { lexemes: seq![lexeme_at(text, begin)->0] + rest.lexemes, stuck: rest.stuck }
    } else if sign_of(text[begin]) is Some {
        let rest = scan_from(text, begin + 1);
        Scan { lexemes: seq![lexeme_at(text, begin)->0] + rest.lexemes, stuck: rest.stuck }
    } else {
        Scan { lexemes: Seq::empty(), stuck: Some(begin as usize) }
    }
}

/// The length in bytes of the white space character that begins at `at`.
pub fn space_at(text: &[u8], at: usize) -> (n: usize)
    ensures
        n == space_len(text@, at as int),
        n > 0 ==> at + n <= text@.len(),
{
    let len = text.len();
    if at >= len {
        return 0;
    }
    let a = text[at];
    if (0x09 <= a && a <= 0x0D) || a == 0x20 {
        return 1;
    }
    if len - at >= 2 {
        let b = text[at + 1];
        if a == 0xC2 && (b == 0x85 || b == 0xA0) {
            return 2;
        }
        if len - at >= 3 {
            let c = text[at + 2];
            if wide_space(a, b, c) {
                return 3;
            }
        }
    }
    0
}

/// Whether `a b c` is the encoding of a white space character of three bytes.
pub fn wide_space(a: u8, b: u8, c: u8) -> (r: bool)
    ensures
        r == is_wide_space(a, b, c),
{
    (a == 0xE1 && b == 0x9A && c == 0x80) || (a == 0xE2 && b == 0x80 && ((0x80 <= c && c <= 0x8A)
        || c == 0xA8 || c == 0xA9 || c == 0xAF)) || (a == 0xE2 && b == 0x81 && c == 0x9F) || (a
        == 0xE3 && b == 0x80 && c == 0x80)
}

/// The first place from `at` on where no white space begins.
pub fn skip_spaces(text: &[u8], at: usize) -> (begin: usize)
    requires
        at <= text@.len(),
    ensures
        begin == at + spaces_run(text@, at as int),
        begin <= text@.len(),
{
    let len = text.len();
    let mut begin = at;
    loop
        invariant
            at <= begin <= len,
            len == text@.len(),
            at + spaces_run(text@, at as int) == begin + spaces_run(text@, begin as int),
        decreases len - begin,
    {
        let n = space_at(text, begin);
        if n == 0 {
            return begin;
        }
        begin = begin + n;
    }
}

/// The sign that the byte `b` spells.
pub fn sign(b: u8) -> (r: Option<char>)
    ensures
        r == sign_of(b),
{
    if b == 0x21 {
        Some('!')
    } else if b == 0x28 {
        Some('(')
    } else if b == 0x29 {
        Some(')')
    } else if b == 0x2A {
        Some('*')
    } else if b == 0x2B {
        Some('+')
    } else if b == 0x2D {
        Some('-')
    } else if b == 0x2F {
        Some('/')
    } else if b == 0x3F {
        Some('?')
    } else if b == 0x3D {
        Some('=')
    } else if b == 0x5E {
        Some('^')
    } else {
        None
    }
}

/// Reads the number that begins at `at`: where it ends, and its value where
/// that fits an `i32`.
pub fn scan_number(text: &[u8], at: usize) -> (r: (usize, Option<i32>))
    requires
        at < text@.len(),
        is_digit(text@[at as int]),
    ensures
        r.0 == at + 1 + digits_run(text@, at + 1),
        r.0 <= text@.len(),
        r.1 == value_of(text@.subrange(at as int, r.0 as int)),
{
    let len = text.len();
    let mut end = at;
    let mut value: u32 = 0;
    let mut fits = true;
    assert(text@.subrange(at as int, at as int) =~= Seq::<u8>::empty());
    while end < len && 0x30 <= text[end] && text[end] <= 0x39
        invariant
            at <= end <= len,
            len == text@.len(),
            is_digit(text@[at as int]),
            at + digits_run(text@, at as int) == end + digits_run(text@, end as int),
            fits ==> value == decimal(text@.subrange(at as int, end as int)) && value <= i32::MAX,
            !fits ==> decimal(text@.subrange(at as int, end as int)) > i32::MAX,
        decreases len - end,
    {
        let digit: u32 = (text[end] - 0x30) as u32;
        proof {
            let longer = text@.subrange(at as int, end + 1);
            assert(longer.drop_last() =~= text@.subrange(at as int, end as int));
            assert(longer.last() == text@[end as int]);
        }
        if fits {
            let wide: u64 = (value as u64) * 10 + (digit as u64);
            if wide > 2147483647 {
                fits = false;
            } else {
                value = wide as u32;
            }
        }
        end = end + 1;
    }
    let value = if fits {
        Some(value as i32)
    } else {
        None
    };
    (end, value)
}

/// Reads the lexemes of `text` up to the first place that begins none, and
/// returns them with that place.
pub fn tokenize(text: &[u8]) -> (r: (Vec<Lexeme>, Option<usize>))
    ensures
        r.0@ == scan_from(text@, 0).lexemes,
        r.1 == scan_from(text@, 0).stuck,
{
    let len = text.len();
    let mut lexemes: Vec<Lexeme> = Vec::new();
    let mut at: usize = 0;
    loop
        invariant
            at <= len,
            len == text@.len(),
            scan_from(text@, 0).lexemes == lexemes@ + scan_from(text@, at as int).lexemes,
            scan_from(text@, 0).stuck == scan_from(text@, at as int).stuck,
        decreases len - at,
    {
        let begin = skip_spaces(text, at);
        if begin >= len {
            assert(lexemes@ + Seq::<Lexeme>::empty() =~= lexemes@);
            return (lexemes, None);
        }
        let b = text[begin];
        let ghost before = lexemes@;
        let ghost here = scan_from(text@, at as int);
        if 0x30 <= b && b <= 0x39 {
            let (end, value) = scan_number(text, begin);
            lexemes.push(Lexeme { kind: LexemeKind::Number(value), start: begin, end });
            proof {
                let rest = scan_from(text@, end as int);
                assert(here.lexemes == seq![lexeme_at(text@, begin as int)->0] + rest.lexemes);
                assert(before + here.lexemes =~= lexemes@ + rest.lexemes);
            }
            at = end;
        } else {
            match sign(b) {
                Some(c) => {
                    lexemes.push(
                        Lexeme { kind: LexemeKind::Sign(c), start: begin, end: begin + 1 },
                    );
                    proof {
                        let rest = scan_from(text@, begin + 1);
                        assert(here.lexemes == seq![lexeme_at(text@, begin as int)->0]
                            + rest.lexemes);
                        assert(before + here.lexemes =~= lexemes@ + rest.lexemes);
                    }
                    at = begin + 1;
                },
                None => {
                    assert(lexemes@ + Seq::<Lexeme>::empty() =~= lexemes@);
                    return (lexemes, Some(begin));
                },
            }
        }
    }
}

} // verus!
