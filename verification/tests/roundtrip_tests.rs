use kaleidoscope_rs::ast::{ExprAST, FunctionAST, PrototypeAST};
use kaleidoscope_rs::lexer::lex;
use kaleidoscope_rs::parser::parse;
use kaleidoscope_rs::printer::program_to_source;

fn chars(s: &str) -> Vec<char> {
    s.chars().collect()
}

fn reparse(fns: &Vec<FunctionAST>) -> Vec<FunctionAST> {
    let text = program_to_source(fns);
    let tokens = lex(&text).unwrap();
    parse(&tokens).unwrap()
}

fn parse_src(s: &str) -> Vec<FunctionAST> {
    parse(&lex(&chars(s)).unwrap()).unwrap()
}

#[test]
fn test_round_trip_definition() {
    let ast = parse_src("def foo(x y) x+y;");
    assert_eq!(reparse(&ast), ast);
}

#[test]
fn test_round_trip_precedence() {
    let ast = parse_src("x+(1+2)*3-f(x)");
    assert_eq!(reparse(&ast), ast);
}

#[test]
fn test_round_trip_mixed_program() {
    let src = format!("{}{}", "ext", "ern cos(x); def twice(v) v*2; cos(1.5)<twice(0.25);");
    let ast = parse_src(&src);
    assert_eq!(ast.len(), 3);
    assert_eq!(reparse(&ast), ast);
}

#[test]
fn test_round_trip_handmade_tree() {
    let f = FunctionAST {
        proto: PrototypeAST { name: chars("poly"), args: vec![chars("a"), chars("b")] },
        body: ExprAST::Binop {
            op: '<',
            lhs: Box::new(ExprAST::Call {
                callee: chars("g"),
                args: vec![ExprAST::Number(chars("2.5")), ExprAST::Variable(chars("a"))],
            }),
            rhs: Box::new(ExprAST::Binop {
                op: '*',
                lhs: Box::new(ExprAST::Variable(chars("b"))),
                rhs: Box::new(ExprAST::Number(chars("3"))),
            }),
        },
    };
    let ast = vec![f];
    assert_eq!(reparse(&ast), ast);
}

#[test]
fn test_printed_text_is_plain_tokens() {
    let ast = parse_src("def id(x) x;");
    let text: String = program_to_source(&ast).into_iter().collect();
    assert_eq!(text, "def id ( x ) x ; ");
}

#[test]
fn test_round_trip_empty_program() {
    let ast = parse_src(";");
    assert_eq!(ast.len(), 0);
    assert_eq!(reparse(&ast), ast);
}
