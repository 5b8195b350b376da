use kaleidoscope_rs::ast::{ExprAST, FunctionAST};
use kaleidoscope_rs::lexer::lex;
use kaleidoscope_rs::parser::{binop_precedence, expect_id, parse, parse_expression,
    parse_number, ParseError, ParseErrorKind};
use kaleidoscope_rs::token::Token;

fn chars(s: &str) -> Vec<char> {
    s.chars().collect()
}

fn var(s: &str) -> ExprAST {
    ExprAST::Variable(chars(s))
}

fn num(s: &str) -> ExprAST {
    ExprAST::Number(chars(s))
}

fn binop(op: char, lhs: ExprAST, rhs: ExprAST) -> ExprAST {
    ExprAST::Binop { op, lhs: Box::new(lhs), rhs: Box::new(rhs) }
}

fn call(callee: &str, args: Vec<ExprAST>) -> ExprAST {
    ExprAST::Call { callee: chars(callee), args }
}

fn parse_src(s: &str) -> Result<Vec<FunctionAST>, ParseError> {
    let tokens = lex(&chars(s)).unwrap();
    parse(&tokens)
}

#[test]
fn test_parse_exp() {
    let program: Vec<char> = "x+(1+2)*3-f(x)\n".chars().collect();
    let tokens = lex(&program).unwrap();
    let mut idx = 0;
    let expr_res = parse_expression(&tokens, &mut idx);
    println!("{:?}", expr_res);
}

#[test]
fn test_precedence_grouping() {
    // x+(1+2)*3-f(x) groups as (x + ((1+2)*3)) - f(x)
    let fns = parse_src("x+(1+2)*3-f(x)").unwrap();
    assert_eq!(fns.len(), 1);
    let expected = binop(
        '-',
        binop('+', var("x"), binop('*', binop('+', num("1"), num("2")), num("3"))),
        call("f", vec![var("x")]),
    );
    assert_eq!(fns[0].body, expected);
    assert_eq!(fns[0].proto.name, chars("__anon_expr"));
    assert_eq!(fns[0].proto.args, Vec::<Vec<char>>::new());
}

#[test]
fn test_equal_precedence_is_left_associative() {
    // a-b+c parses as (a-b)+c, not a-(b+c)
    let fns = parse_src("a-b+c").unwrap();
    let expected = binop('+', binop('-', var("a"), var("b")), var("c"));
    assert_eq!(fns[0].body, expected);
}

#[test]
fn test_higher_precedence_binds_tighter() {
    let fns = parse_src("a+b*c").unwrap();
    let expected = binop('+', var("a"), binop('*', var("b"), var("c")));
    assert_eq!(fns[0].body, expected);
}

#[test]
fn test_def_with_two_params() {
    // "def foo(x y) x+y" parses to one function: name foo, params [x, y],
    // body x+y
    let fns = parse_src("def foo(x y) x+y").unwrap();
    assert_eq!(fns.len(), 1);
    assert_eq!(fns[0].proto.name, chars("foo"));
    assert_eq!(fns[0].proto.args, vec![chars("x"), chars("y")]);
    assert_eq!(fns[0].body, binop('+', var("x"), var("y")));
}

#[test]
fn test_foreign_declaration() {
    // a declaration has no body of its own: the placeholder literal 0
    let src = format!("{}{}", "ext", "ern cos(x)");
    let fns = parse_src(&src).unwrap();
    assert_eq!(fns.len(), 1);
    assert_eq!(fns[0].proto.name, chars("cos"));
    assert_eq!(fns[0].proto.args, vec![chars("x")]);
    assert_eq!(fns[0].body, num("0"));
}

#[test]
fn test_missing_closing_paren_is_an_error() {
    // "def foo( x+1" stops at the first token that is no parameter name
    let r = parse_src("def foo( x+1");
    assert_eq!(
        r,
        Err(ParseError { kind: ParseErrorKind::ExpectedIdentifier, pos: 4 })
    );
}

#[test]
fn test_empty_statements_are_legal() {
    let fns = parse_src(";;;").unwrap();
    assert_eq!(fns.len(), 0);
}

#[test]
fn test_several_top_level_constructs() {
    let fns = parse_src("def id(x) x; 1+2; def two() 2").unwrap();
    assert_eq!(fns.len(), 3);
    assert_eq!(fns[0].proto.name, chars("id"));
    assert_eq!(fns[1].proto.name, chars("__anon_expr"));
    assert_eq!(fns[1].body, binop('+', num("1"), num("2")));
    assert_eq!(fns[2].proto.name, chars("two"));
    assert_eq!(fns[2].proto.args, Vec::<Vec<char>>::new());
}

#[test]
fn test_call_without_arguments() {
    let fns = parse_src("f()").unwrap();
    assert_eq!(fns[0].body, call("f", vec![]));
}

#[test]
fn test_call_with_comma_separated_arguments() {
    let fns = parse_src("f(x, 1, g(y))").unwrap();
    assert_eq!(fns[0].body, call("f", vec![var("x"), num("1"), call("g", vec![var("y")])]));
}

#[test]
fn test_call_tolerates_missing_and_trailing_commas() {
    let fns = parse_src("f(x y,)").unwrap();
    assert_eq!(fns[0].body, call("f", vec![var("x"), var("y")]));
}

#[test]
fn test_expected_token_error() {
    // after the function name the opening parenthesis is required
    let r = parse_src("def foo x");
    assert_eq!(
        r,
        Err(ParseError { kind: ParseErrorKind::Expected(Token::LParen), pos: 2 })
    );
}

#[test]
fn test_expected_rparen_error() {
    let r = parse_src("(x");
    assert_eq!(
        r,
        Err(ParseError { kind: ParseErrorKind::Expected(Token::RParen), pos: 2 })
    );
}

#[test]
fn test_unexpected_token_error() {
    let r = parse_src("+");
    assert_eq!(r, Err(ParseError { kind: ParseErrorKind::UnexpectedToken, pos: 0 }));
}

#[test]
fn test_unexpected_end_error() {
    // a raw token sequence without the end-of-input token runs out
    let r = parse(&vec![Token::Def]);
    assert_eq!(r, Err(ParseError { kind: ParseErrorKind::UnexpectedEnd, pos: 1 }));
}

#[test]
fn test_first_error_aborts_the_parse() {
    // the def before the bad construct is not returned
    let r = parse_src("def id(x) x; def broken x");
    assert!(r.is_err());
}

#[test]
fn test_expected_number_error() {
    // any token other than a numeral stays where it is and is named
    let toks = vec![Token::Semicolon, Token::Eof];
    let mut idx = 0;
    let r = parse_number(&toks, &mut idx);
    assert_eq!(r, Err(ParseError { kind: ParseErrorKind::ExpectedNumber, pos: 0 }));
    assert_eq!(idx, 0);
}

#[test]
fn test_parse_number_steps_over_the_literal() {
    let toks = vec![Token::Number(chars("2.5")), Token::Eof];
    let mut idx = 0;
    let r = parse_number(&toks, &mut idx);
    assert_eq!(r, Ok(num("2.5")));
    assert_eq!(idx, 1);
}

#[test]
fn test_offending_token_is_never_consumed() {
    let toks = vec![Token::LParen, Token::Eof];
    let mut idx = 0;
    let r = expect_id(&toks, &mut idx);
    assert_eq!(r, Err(ParseError { kind: ParseErrorKind::ExpectedIdentifier, pos: 0 }));
    assert_eq!(idx, 0);
}

#[test]
fn test_binop_precedence_table() {
    assert_eq!(binop_precedence('<'), 10);
    assert_eq!(binop_precedence('+'), 20);
    assert_eq!(binop_precedence('-'), 20);
    assert_eq!(binop_precedence('*'), 30);
    assert_eq!(binop_precedence('('), -1);
    assert_eq!(binop_precedence('q'), -1);
}

#[test]
fn test_less_than_binds_weakest() {
    let fns = parse_src("a<b+c").unwrap();
    let expected = binop('<', var("a"), binop('+', var("b"), var("c")));
    assert_eq!(fns[0].body, expected);
}
