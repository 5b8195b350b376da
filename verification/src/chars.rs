//! Character classes used by the lexer.
//!
//! The input is a byte stream mapped byte-for-byte to code points, so the
//! classes cover the whole single-byte domain: ASCII and Latin-1. Whitespace
//! and letters follow the Unicode properties of those code points; the
//! digits of numeric literals are the decimal digits alone.

use vstd::prelude::*;

verus! {

/// Whitespace: the single-byte characters with the white-space property —
/// tab, line feed, vertical tab, form feed, carriage return, space, the
/// next-line control and the no-break space.
pub open spec fn is_ws(c: char) -> bool {
    c == ' ' || c == '\t' || c == '\n' || c == '\u{b}' || c == '\u{c}' || c == '\r' || c
        == '\u{85}' || c == '\u{a0}'
}

/// A letter: the single-byte alphabetic characters — the ASCII letters, the
/// ordinal indicators, the micro sign, and the Latin-1 letters (the
/// multiplication and division signs are no letters).
pub open spec fn is_alpha(c: char) -> bool {
    ('a' <= c && c <= 'z') || ('A' <= c && c <= 'Z') || c == '\u{aa}' || c == '\u{b5}' || c
        == '\u{ba}' || ('\u{c0}' <= c && c <= '\u{d6}') || ('\u{d8}' <= c && c <= '\u{f6}') || (
    '\u{f8}' <= c && c <= '\u{ff}')
}

/// A decimal digit.
pub open spec fn is_digit(c: char) -> bool {
    '0' <= c && c <= '9'
}

/// A character that may continue an identifier: a letter, a digit, or one
/// of the single-byte numeric characters (the superscripts and the vulgar
/// fractions).
pub open spec fn is_alnum(c: char) -> bool {
    is_alpha(c) || is_digit(c) || c == '\u{b2}' || c == '\u{b3}' || c == '\u{b9}' || ('\u{bc}' <= c
        && c <= '\u{be}')
}

/// A character that may stand in a numeric literal: a decimal digit or a
/// dot.
pub open spec fn is_num_char(c: char) -> bool {
    is_digit(c) || c == '.'
}

pub fn char_is_ws(c: char) -> (b: bool)
    ensures
        b == is_ws(c),
{
    c == ' ' || c == '\t' || c == '\n' || c == '\u{b}' || c == '\u{c}' || c == '\r' || c == '\u{85}'
        || c == '\u{a0}'
}

pub fn char_is_alpha(c: char) -> (b: bool)
    ensures
        b == is_alpha(c),
{
    ('a' <= c && c <= 'z') || ('A' <= c && c <= 'Z') || c == '\u{aa}' || c == '\u{b5}' || c
        == '\u{ba}' || ('\u{c0}' <= c && c <= '\u{d6}') || ('\u{d8}' <= c && c <= '\u{f6}') || (
    '\u{f8}' <= c && c <= '\u{ff}')
}

pub fn char_is_digit(c: char) -> (b: bool)
    ensures
        b == is_digit(c),
{
    '0' <= c && c <= '9'
}

pub fn char_is_alnum(c: char) -> (b: bool)
    ensures
        b == is_alnum(c),
{
    char_is_alpha(c) || char_is_digit(c) || c == '\u{b2}' || c == '\u{b3}' || c == '\u{b9}' || (
    '\u{bc}' <= c && c <= '\u{be}')
}

pub fn char_is_num_char(c: char) -> (b: bool)
    ensures
        b == is_num_char(c),
{
    char_is_digit(c) || c == '.'
}

} // verus!
