//! Lexical tokens and their mathematical view.
//!
//! Identifier names and numeric literals are kept as character vectors; a
//! numeric literal stays in its source spelling, already validated by the
//! lexer (at least one digit, at most one dot), so that no information is
//! lost and a caller may evaluate it at whatever precision it wants.

use vstd::prelude::*;
use crate::chars::{is_alpha, is_alnum, is_num_char};

verus! {

/// A lexical token.
#[derive(Debug, Clone, PartialEq)]
pub enum Token {
    /// End of input; a lexed sequence ends with exactly one of these.
    Eof,
    /// The keyword `def`.
    Def,
    /// The keyword that declares a foreign function, spelled
    /// `e` `x` `t` `e` `r` `n` in source text.
    Ext,
    /// An identifier.
    Identifier(Vec<char>),
    /// A numeric literal, kept in its validated source spelling.
    Number(Vec<char>),
    /// `(`
    LParen,
    /// `)`
    RParen,
    /// `,`
    Comma,
    /// `;`
    Semicolon,
    /// Any other single character, such as the operators `+ - * <`.
    Other(char),
}

/// The mathematical view of a token: names and literals as `Seq<char>`.
pub enum TokenV {
    Eof,
    Def,
    Ext,
    Identifier(Seq<char>),
    Number(Seq<char>),
    LParen,
    RParen,
    Comma,
    Semicolon,
    Other(char),
}

impl View for Token {
    type V = TokenV;

    open spec fn view(&self) -> TokenV {
        match self {
            Token::Eof => TokenV::Eof,
            Token::Def => TokenV::Def,
            Token::Ext => TokenV::Ext,
            Token::Identifier(n) => TokenV::Identifier(n@),
            Token::Number(s) => TokenV::Number(s@),
            Token::LParen => TokenV::LParen,
            Token::RParen => TokenV::RParen,
            Token::Comma => TokenV::Comma,
            Token::Semicolon => TokenV::Semicolon,
            Token::Other(c) => TokenV::Other(*c),
        }
    }
}

/// The view of a token sequence, element by element.
pub open spec fn tokens_view(ts: Seq<Token>) -> Seq<TokenV> {
    Seq::new(ts.len(), |i: int| ts[i]@)
}

/// The spelling of the keyword `def`.
pub open spec fn is_def_word(s: Seq<char>) -> bool {
    s.len() == 3 && s[0] == 'd' && s[1] == 'e' && s[2] == 'f'
}

/// The spelling of the foreign-declaration keyword.
pub open spec fn is_ext_word(s: Seq<char>) -> bool {
    s.len() == 6 && s[0] == 'e' && s[1] == 'x' && s[2] == 't' && s[3] == 'e' && s[4] == 'r'
        && s[5] == 'n'
}

/// A well-formed identifier: a letter followed by letters and digits.
pub open spec fn is_ident_word(s: Seq<char>) -> bool {
    s.len() >= 1 && is_alpha(s[0]) && (forall|k: int| 0 <= k < s.len() ==> is_alnum(#[trigger] s[k]))
}

/// An identifier that is not a keyword, hence names a variable or function.
pub open spec fn is_ident_name(s: Seq<char>) -> bool {
    is_ident_word(s) && !is_def_word(s) && !is_ext_word(s)
}

/// How many characters of `s` are the dot.
pub open spec fn dot_count(s: Seq<char>) -> nat
    decreases s.len(),
{
    if s.len() == 0 {
        0
    } else {
        dot_count(s.drop_last()) + if s.last() == '.' {
            1nat
        } else {
            0nat
        }
    }
}

/// How many characters of `s` are decimal digits.
pub open spec fn digit_count(s: Seq<char>) -> nat
    decreases s.len(),
{
    if s.len() == 0 {
        0
    } else {
        digit_count(s.drop_last()) + if crate::chars::is_digit(s.last()) {
            1nat
        } else {
            0nat
        }
    }
}

/// A well-formed numeric literal: digits and dots only, at least one digit,
/// at most one dot. Exactly these spellings denote a number; a run of digits
/// and dots that breaks this rule is a malformed literal.
pub open spec fn is_number_word(s: Seq<char>) -> bool {
    &&& forall|k: int| 0 <= k < s.len() ==> is_num_char(#[trigger] s[k])
    &&& digit_count(s) >= 1
    &&& dot_count(s) <= 1
}

/// Compares two character vectors by contents.
pub fn chars_eq(a: &Vec<char>, b: &Vec<char>) -> (r: bool)
    ensures
        r == (a@ == b@),
{
    if a.len() != b.len() {
        return false;
    }
    let mut i: usize = 0;
    while i < a.len()
        invariant
            i <= a@.len(),
            a@.len() == b@.len(),
            forall|k: int| 0 <= k < i ==> a@[k] == b@[k],
        decreases a@.len() - i,
    {
        if a[i] != b[i] {
            return false;
        }
        i += 1;
    }
    proof {
        assert(a@ =~= b@);
    }
    true
}

/// Copies a character vector.
pub fn clone_chars(v: &Vec<char>) -> (r: Vec<char>)
    ensures
        r@ == v@,
{
    let mut out: Vec<char> = Vec::new();
    let mut i: usize = 0;
    while i < v.len()
        invariant
            i <= v@.len(),
            out@ == v@.subrange(0, i as int),
        decreases v@.len() - i,
    {
        out.push(v[i]);
        i += 1;
        proof {
            assert(out@ =~= v@.subrange(0, i as int));
        }
    }
    proof {
        assert(out@ =~= v@);
    }
    out
}

/// Compares two tokens; equal tokens are those with equal views.
pub fn token_eq(a: &Token, b: &Token) -> (r: bool)
    ensures
        r == (a@ == b@),
{
    match (a, b) {
        (Token::Eof, Token::Eof) => true,
        (Token::Def, Token::Def) => true,
        (Token::Ext, Token::Ext) => true,
        (Token::Identifier(x), Token::Identifier(y)) => chars_eq(x, y),
        (Token::Number(x), Token::Number(y)) => chars_eq(x, y),
        (Token::LParen, Token::LParen) => true,
        (Token::RParen, Token::RParen) => true,
        (Token::Comma, Token::Comma) => true,
        (Token::Semicolon, Token::Semicolon) => true,
        (Token::Other(c), Token::Other(d)) => c == d,
        _ => false,
    }
}

/// The lexer's failure: a malformed numeric literal.
#[derive(Debug, Clone, PartialEq, Eq, Structural)]
pub struct LexError {
    /// Index into the input of the first character of the bad literal.
    pub pos: usize,
}

} // verus!
