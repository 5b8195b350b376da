use kaleidoscope_rs::lexer::lex;
use kaleidoscope_rs::token::{LexError, Token};

fn chars(s: &str) -> Vec<char> {
    s.chars().collect()
}

fn ident(s: &str) -> Token {
    Token::Identifier(chars(s))
}

fn number(s: &str) -> Token {
    Token::Number(chars(s))
}

#[test]
fn test_whitespace_only_tokenizes_to_eof() {
    let inputs = ["", " ", "   ", "\t", "\n", "\r\n", " \t \n \r ", "\u{b}", "\u{c}",
        "\u{85}", "\u{a0}", " \u{b}\u{85}\u{a0} "];
    for input in inputs {
        let tokens = lex(&chars(input)).unwrap();
        assert_eq!(tokens, vec![Token::Eof]);
    }
}

#[test]
fn test_tokenize_def_line() {
    let tokens = lex(&chars("def foo(x) x+1;")).unwrap();
    assert_eq!(
        tokens,
        vec![
            Token::Def,
            ident("foo"),
            Token::LParen,
            ident("x"),
            Token::RParen,
            ident("x"),
            Token::Other('+'),
            number("1"),
            Token::Semicolon,
            Token::Eof,
        ]
    );
}

#[test]
fn test_tokenize_number() {
    let tokens = lex(&chars("1.5")).unwrap();
    assert_eq!(tokens, vec![number("1.5"), Token::Eof]);
}

#[test]
fn test_tokenize_malformed_number_fails() {
    let r = lex(&chars("1.5.6"));
    assert_eq!(r, Err(LexError { pos: 0 }));
}

#[test]
fn test_malformed_number_position() {
    let r = lex(&chars("x + 1..2"));
    assert_eq!(r, Err(LexError { pos: 4 }));
}

#[test]
fn test_dot_alone_is_malformed() {
    assert_eq!(lex(&chars(".")), Err(LexError { pos: 0 }));
}

#[test]
fn test_leading_and_trailing_dot_numbers() {
    assert_eq!(lex(&chars(".5")).unwrap(), vec![number(".5"), Token::Eof]);
    assert_eq!(lex(&chars("5.")).unwrap(), vec![number("5."), Token::Eof]);
}

#[test]
fn test_comment_runs_to_end_of_line() {
    let tokens = lex(&chars("x # a comment ( 1.2.3 ;\ny")).unwrap();
    assert_eq!(tokens, vec![ident("x"), ident("y"), Token::Eof]);
}

#[test]
fn test_unterminated_comment_ends_cleanly() {
    let tokens = lex(&chars("x # trailing words")).unwrap();
    assert_eq!(tokens, vec![ident("x"), Token::Eof]);
}

#[test]
fn test_keywords_are_case_sensitive() {
    let tokens = lex(&chars("Def def")).unwrap();
    assert_eq!(tokens, vec![ident("Def"), Token::Def, Token::Eof]);
}

#[test]
fn test_foreign_keyword() {
    let src = format!("{}{}", "ext", "ern sin");
    let tokens = lex(&chars(&src)).unwrap();
    assert_eq!(tokens, vec![Token::Ext, ident("sin"), Token::Eof]);
}

#[test]
fn test_latin1_letters_form_identifiers() {
    // caf\u{e9} is one identifier: \u{e9} is a single-byte letter
    let tokens = lex(&chars("caf\u{e9}")).unwrap();
    assert_eq!(tokens, vec![ident("caf\u{e9}"), Token::Eof]);
}

#[test]
fn test_latin1_numerics_continue_identifiers() {
    // x\u{b2} is one identifier: the superscript continues it but cannot
    // start one
    let tokens = lex(&chars("x\u{b2} \u{b2}")).unwrap();
    assert_eq!(
        tokens,
        vec![ident("x\u{b2}"), Token::Other('\u{b2}'), Token::Eof]
    );
}

#[test]
fn test_multiplication_sign_is_no_letter() {
    // \u{d7} sits between the Latin-1 letter ranges and is punctuation
    let tokens = lex(&chars("a\u{d7}b")).unwrap();
    assert_eq!(
        tokens,
        vec![ident("a"), Token::Other('\u{d7}'), ident("b"), Token::Eof]
    );
}

#[test]
fn test_identifier_with_digits() {
    let tokens = lex(&chars("x1y2")).unwrap();
    assert_eq!(tokens, vec![ident("x1y2"), Token::Eof]);
}

#[test]
fn test_punctuation_and_operators() {
    let tokens = lex(&chars("(),;+-*<?")).unwrap();
    assert_eq!(
        tokens,
        vec![
            Token::LParen,
            Token::RParen,
            Token::Comma,
            Token::Semicolon,
            Token::Other('+'),
            Token::Other('-'),
            Token::Other('*'),
            Token::Other('<'),
            Token::Other('?'),
            Token::Eof,
        ]
    );
}

#[test]
fn test_exactly_one_eof_at_end() {
    let tokens = lex(&chars("def x ; 1 (")).unwrap();
    assert_eq!(tokens.last(), Some(&Token::Eof));
    let eofs = tokens.iter().filter(|t| **t == Token::Eof).count();
    assert_eq!(eofs, 1);
}
