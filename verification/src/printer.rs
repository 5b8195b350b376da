//! The printer: turns an AST back into source text.
//!
//! Printing goes in two verified steps that mirror the two parsing steps:
//! an AST becomes a token sequence (`pt_*` spec functions), fully
//! parenthesized so that no precedence is lost, and a token sequence becomes
//! characters with a single space after every token (`tokens_chars`). A
//! foreign declaration carries the placeholder body `0` and nothing else
//! marks it, so it prints as a definition with that body, which denotes the
//! same abstract syntax tree.

use vstd::prelude::*;
use crate::token::{Token, TokenV, tokens_view, is_ident_name, is_number_word, clone_chars,
    chars_eq};
use crate::ast::{ExprAST, FunctionAST, ExprV, FunctionV, expr_view, exprs_view, function_view,
    functions_view, anon_name};
use crate::parser::prec_of_char;

verus! {

/// The tokens of an expression, fully parenthesized: every binary operation
/// is wrapped in parentheses, so the grouping of the tree is explicit.
pub open spec fn pt_expr(e: ExprV) -> Seq<TokenV>
    decreases e, 0int,
{
    match e {
        ExprV::Number(s) => seq![TokenV::Number(s)],
        ExprV::Variable(n) => seq![TokenV::Identifier(n)],
        ExprV::Binop { op, lhs, rhs } => seq![TokenV::LParen] + pt_expr(*lhs) + seq![
            TokenV::Other(op),
        ] + pt_expr(*rhs) + seq![TokenV::RParen],
        ExprV::Call { callee, args } => seq![TokenV::Identifier(callee), TokenV::LParen]
            + pt_args(args, 0) + seq![TokenV::RParen],
    }
}

/// The tokens of the call arguments from index `i` on, separated by commas.
pub open spec fn pt_args(args: Seq<ExprV>, i: int) -> Seq<TokenV>
    decreases args, args.len() - i,
{
    if !(0 <= i < args.len()) {
        Seq::empty()
    } else if i == args.len() - 1 {
        pt_expr(args[i])
    } else {
        pt_expr(args[i]) + seq![TokenV::Comma] + pt_args(args, i + 1)
    }
}

/// The tokens of a prototype's parameter names from index `i` on.
pub open spec fn pt_params(ps: Seq<Seq<char>>, i: int) -> Seq<TokenV>
    decreases ps.len() - i,
{
    if 0 <= i < ps.len() {
        seq![TokenV::Identifier(ps[i])] + pt_params(ps, i + 1)
    } else {
        Seq::empty()
    }
}

/// Whether a function is the anonymous wrapper of a bare top-level
/// expression: it carries the synthetic name.
pub open spec fn is_anon(f: FunctionV) -> bool {
    f.proto.name == anon_name()
}

/// The tokens of one function: an anonymous wrapper prints as its bare body,
/// anything else as a definition; a closing semicolon ends each.
pub open spec fn pt_function(f: FunctionV) -> Seq<TokenV> {
    if is_anon(f) {
        pt_expr(f.body) + seq![TokenV::Semicolon]
    } else {
        seq![TokenV::Def, TokenV::Identifier(f.proto.name), TokenV::LParen] + pt_params(
            f.proto.args,
            0,
        ) + seq![TokenV::RParen] + pt_expr(f.body) + seq![TokenV::Semicolon]
    }
}

/// The tokens of the functions from index `i` on.
pub open spec fn pt_program(fs: Seq<FunctionV>, i: int) -> Seq<TokenV>
    decreases fs.len() - i,
{
    if 0 <= i < fs.len() {
        pt_function(fs[i]) + pt_program(fs, i + 1)
    } else {
        Seq::empty()
    }
}

/// The spelling of one token. The end-of-input token has no spelling.
pub open spec fn token_chars(t: TokenV) -> Seq<char> {
    match t {
        TokenV::Eof => Seq::empty(),
        TokenV::Def => seq!['d', 'e', 'f'],
        TokenV::Ext => seq!['e', 'x', 't', 'e', 'r', 'n'],
        TokenV::Identifier(n) => n,
        TokenV::Number(s) => s,
        TokenV::LParen => seq!['('],
        TokenV::RParen => seq![')'],
        TokenV::Comma => seq![','],
        TokenV::Semicolon => seq![';'],
        TokenV::Other(c) => seq![c],
    }
}

/// The spelling of the tokens from index `i` on, one space after each.
pub open spec fn tokens_chars(ts: Seq<TokenV>, i: int) -> Seq<char>
    decreases ts.len() - i,
{
    if 0 <= i < ts.len() {
        token_chars(ts[i]) + seq![' '] + tokens_chars(ts, i + 1)
    } else {
        Seq::empty()
    }
}

/// The source text of a program: the spelling of its tokens.
pub open spec fn program_source(fs: Seq<FunctionV>) -> Seq<char> {
    tokens_chars(pt_program(fs, 0), 0)
}

/// A token the printer may emit and the lexer reads back as itself: a
/// non-keyword identifier, a well-formed numeral, an operator character the
/// precedence table knows, a keyword, or fixed punctuation.
pub open spec fn printable_token(t: TokenV) -> bool {
    match t {
        TokenV::Eof => false,
        TokenV::Def => true,
        TokenV::Ext => true,
        TokenV::Identifier(n) => is_ident_name(n),
        TokenV::Number(s) => is_number_word(s),
        TokenV::LParen => true,
        TokenV::RParen => true,
        TokenV::Comma => true,
        TokenV::Semicolon => true,
        TokenV::Other(c) => prec_of_char(c) >= 0,
    }
}

/// Appends the characters of `v` to `out`.
#[verifier::loop_isolation(false)]
fn push_chars(out: &mut Vec<char>, v: &Vec<char>)
    ensures
        final(out)@ == old(out)@ + v@,
{
    let mut i: usize = 0;
    while i < v.len()
        invariant
            i <= v@.len(),
            out@ == old(out)@ + v@.subrange(0, i as int),
        decreases v@.len() - i,
    {
        out.push(v[i]);
        i += 1;
        proof {
            assert(old(out)@ + v@.subrange(0, i - 1) + seq![v@[i - 1]] =~= old(out)@
                + v@.subrange(0, i as int));
        }
    }
    proof {
        assert(old(out)@ + v@.subrange(0, v@.len() as int) =~= old(out)@ + v@);
    }
}

/// Appends the tokens of the expression `e`, fully parenthesized.
#[verifier::loop_isolation(false)]
fn push_expr_tokens(e: &ExprAST, out: &mut Vec<Token>)
    ensures
        tokens_view(final(out)@) == tokens_view(old(out)@) + pt_expr(expr_view(*e)),
    decreases *e,
{
    match e {
        ExprAST::Number(s) => {
            let ghost base = tokens_view(out@);
            out.push(Token::Number(clone_chars(s)));
            proof {
                assert(tokens_view(out@) =~= base + pt_expr(expr_view(*e)));
            }
        },
        ExprAST::Variable(n) => {
            let ghost base = tokens_view(out@);
            out.push(Token::Identifier(clone_chars(n)));
            proof {
                assert(tokens_view(out@) =~= base + pt_expr(expr_view(*e)));
            }
        },
        ExprAST::Binop { op, lhs, rhs } => {
            let ghost base = tokens_view(out@);
            out.push(Token::LParen);
            proof {
                assert(tokens_view(out@) =~= base + seq![TokenV::LParen]);
            }
            push_expr_tokens(lhs, out);
            let ghost s1 = tokens_view(out@);
            out.push(Token::Other(*op));
            proof {
                assert(tokens_view(out@) =~= s1 + seq![TokenV::Other(*op)]);
            }
            push_expr_tokens(rhs, out);
            let ghost s2 = tokens_view(out@);
            out.push(Token::RParen);
            proof {
                assert(tokens_view(out@) =~= s2 + seq![TokenV::RParen]);
                assert(expr_view(*e) == ExprV::Binop {
                    op: *op,
                    lhs: Box::new(expr_view(**lhs)),
                    rhs: Box::new(expr_view(**rhs)),
                });
                assert(pt_expr(expr_view(*e)) == seq![TokenV::LParen] + pt_expr(expr_view(**lhs))
                    + seq![TokenV::Other(*op)] + pt_expr(expr_view(**rhs)) + seq![
                    TokenV::RParen,
                ]);
                assert(tokens_view(out@) =~= base + pt_expr(expr_view(*e)));
            }
        },
        ExprAST::Call { callee, args } => {
            let ghost base = tokens_view(out@);
            let ghost argsv = exprs_view(args@, 0);
            out.push(Token::Identifier(clone_chars(callee)));
            out.push(Token::LParen);
            let ghost mid = tokens_view(out@);
            proof {
                lemma_exprs_view_len(args@, 0);
            }
            let n = args.len();
            let mut i: usize = 0;
            while i < n
                invariant
                    i <= n,
                    tokens_view(out@) + pt_args(argsv, i as int) == mid + pt_args(argsv, 0),
                decreases n - i,
            {
                proof {
                    lemma_exprs_view_index(args@, 0, i as int);
                }
                push_expr_tokens(&args[i], out);
                if i + 1 < n {
                    let ghost b2 = tokens_view(out@);
                    out.push(Token::Comma);
                    proof {
                        assert(tokens_view(out@) =~= b2 + seq![TokenV::Comma]);
                    }
                }
                i += 1;
                proof {
                    assert(tokens_view(out@) + pt_args(argsv, i as int) =~= mid + pt_args(
                        argsv,
                        0,
                    ));
                }
            }
            let ghost s3 = tokens_view(out@);
            out.push(Token::RParen);
            proof {
                assert(tokens_view(out@) =~= s3 + seq![TokenV::RParen]);
                assert(pt_args(argsv, n as int) =~= Seq::<TokenV>::empty());
                assert(s3 + pt_args(argsv, n as int) =~= s3);
                assert(s3 == mid + pt_args(argsv, 0));
                assert(expr_view(*e) == ExprV::Call { callee: callee@, args: argsv });
                assert(pt_expr(expr_view(*e)) == seq![
                    TokenV::Identifier(callee@),
                    TokenV::LParen,
                ] + pt_args(argsv, 0) + seq![TokenV::RParen]);
                assert(mid =~= base + seq![TokenV::Identifier(callee@), TokenV::LParen]);
                assert(tokens_view(out@) =~= base + pt_expr(expr_view(*e)));
            }
        },
    }
}

/// Appends the tokens of one function.
#[verifier::loop_isolation(false)]
fn push_function_tokens(f: &FunctionAST, out: &mut Vec<Token>)
    ensures
        tokens_view(final(out)@) == tokens_view(old(out)@) + pt_function(function_view(*f)),
{
    let ghost fv = function_view(*f);
    let ghost base = tokens_view(out@);
    let an = crate::ast::anon_name_chars();
    if chars_eq(&f.proto.name, &an) {
        push_expr_tokens(&f.body, out);
        let ghost s1 = tokens_view(out@);
        out.push(Token::Semicolon);
        proof {
            assert(is_anon(fv));
            assert(tokens_view(out@) =~= s1 + seq![TokenV::Semicolon]);
            assert(tokens_view(out@) =~= base + pt_function(fv));
        }
    } else {
        out.push(Token::Def);
        out.push(Token::Identifier(clone_chars(&f.proto.name)));
        out.push(Token::LParen);
        let ghost mid = tokens_view(out@);
        proof {
            assert(mid =~= base + seq![
                TokenV::Def,
                TokenV::Identifier(fv.proto.name),
                TokenV::LParen,
            ]);
        }
        let ghost psv = fv.proto.args;
        let n = f.proto.args.len();
        let mut i: usize = 0;
        proof {
            assert(psv.len() == n);
        }
        while i < n
            invariant
                i <= n,
                tokens_view(out@) + pt_params(psv, i as int) == mid + pt_params(psv, 0),
            decreases n - i,
        {
            let ghost b2 = tokens_view(out@);
            out.push(Token::Identifier(clone_chars(&f.proto.args[i])));
            i += 1;
            proof {
                assert(tokens_view(out@) =~= b2 + seq![TokenV::Identifier(psv[i - 1])]);
                assert(tokens_view(out@) + pt_params(psv, i as int) =~= mid + pt_params(psv, 0));
            }
        }
        let ghost s1 = tokens_view(out@);
        out.push(Token::RParen);
        proof {
            assert(pt_params(psv, n as int) =~= Seq::<TokenV>::empty());
            assert(s1 + pt_params(psv, n as int) =~= s1);
            assert(tokens_view(out@) =~= s1 + seq![TokenV::RParen]);
        }
        push_expr_tokens(&f.body, out);
        let ghost s2 = tokens_view(out@);
        out.push(Token::Semicolon);
        proof {
            assert(!is_anon(fv));
            assert(tokens_view(out@) =~= s2 + seq![TokenV::Semicolon]);
            assert(tokens_view(out@) =~= base + pt_function(fv));
        }
    }
}

/// Turns a forest of functions into its token sequence, without the closing
/// end-of-input token.
#[verifier::loop_isolation(false)]
fn program_to_tokens(fs: &Vec<FunctionAST>) -> (r: Vec<Token>)
    ensures
        tokens_view(r@) == pt_program(functions_view(fs@, 0), 0),
{
    let ghost fsv = functions_view(fs@, 0);
    proof {
        lemma_functions_view_len(fs@, 0);
    }
    let mut out: Vec<Token> = Vec::new();
    proof {
        assert(tokens_view(out@) =~= Seq::<TokenV>::empty());
    }
    let n = fs.len();
    let mut i: usize = 0;
    while i < n
        invariant
            i <= n,
            tokens_view(out@) + pt_program(fsv, i as int) == pt_program(fsv, 0),
        decreases n - i,
    {
        proof {
            lemma_functions_view_index(fs@, 0, i as int);
        }
        push_function_tokens(&fs[i], &mut out);
        i += 1;
        proof {
            assert(tokens_view(out@) + pt_program(fsv, i as int) =~= pt_program(fsv, 0));
        }
    }
    proof {
        assert(pt_program(fsv, n as int) =~= Seq::<TokenV>::empty());
        assert(tokens_view(out@) + pt_program(fsv, n as int) =~= tokens_view(out@));
    }
    out
}

/// Renders a token sequence as characters, one space after every token.
#[verifier::loop_isolation(false)]
fn tokens_to_chars(ts: &Vec<Token>) -> (r: Vec<char>)
    ensures
        r@ == tokens_chars(tokens_view(ts@), 0),
{
    let ghost tv = tokens_view(ts@);
    let mut out: Vec<char> = Vec::new();
    let n = ts.len();
    let mut i: usize = 0;
    while i < n
        invariant
            i <= n,
            n == tv.len(),
            out@ + tokens_chars(tv, i as int) == tokens_chars(tv, 0),
        decreases n - i,
    {
        let ghost b = out@;
        match &ts[i] {
            Token::Eof => {},
            Token::Def => {
                out.push('d');
                out.push('e');
                out.push('f');
            },
            Token::Ext => {
                out.push('e');
                out.push('x');
                out.push('t');
                out.push('e');
                out.push('r');
                out.push('n');
            },
            Token::Identifier(nm) => {
                push_chars(&mut out, nm);
            },
            Token::Number(s) => {
                push_chars(&mut out, s);
            },
            Token::LParen => {
                out.push('(');
            },
            Token::RParen => {
                out.push(')');
            },
            Token::Comma => {
                out.push(',');
            },
            Token::Semicolon => {
                out.push(';');
            },
            Token::Other(c) => {
                out.push(*c);
            },
        }
        proof {
            assert(out@ =~= b + token_chars(tv[i as int]));
        }
        out.push(' ');
        i += 1;
        proof {
            assert(out@ =~= b + token_chars(tv[i - 1]) + seq![' ']);
            assert(out@ + tokens_chars(tv, i as int) =~= tokens_chars(tv, 0));
        }
    }
    proof {
        assert(tokens_chars(tv, n as int) =~= Seq::<char>::empty());
        assert(out@ + tokens_chars(tv, n as int) =~= out@);
    }
    out
}

/// Serializes a forest of functions back to source text: each function in
/// order, fully parenthesized, closed by a semicolon, tokens separated by
/// single spaces.
pub fn program_to_source(fs: &Vec<FunctionAST>) -> (r: Vec<char>)
    ensures
        r@ == program_source(functions_view(fs@, 0)),
{
    let ts = program_to_tokens(fs);
    tokens_to_chars(&ts)
}

/// The length of a function-sequence view.
pub proof fn lemma_functions_view_len(fs: Seq<FunctionAST>, i: int)
    requires
        0 <= i <= fs.len(),
    ensures
        functions_view(fs, i).len() == fs.len() - i,
    decreases fs.len() - i,
{
    if i < fs.len() {
        lemma_functions_view_len(fs, i + 1);
    }
}

/// The element `j` of a function-sequence view is the view of element `j`.
pub proof fn lemma_functions_view_index(fs: Seq<FunctionAST>, i: int, j: int)
    requires
        0 <= i <= j < fs.len(),
    ensures
        functions_view(fs, i).len() == fs.len() - i,
        functions_view(fs, i)[j - i] == function_view(fs[j]),
    decreases j - i,
{
    lemma_functions_view_len(fs, i);
    if i < j {
        lemma_functions_view_index(fs, i + 1, j);
    }
}

/// The length and the elements of an expression-sequence view.
pub proof fn lemma_exprs_view_len(es: Seq<ExprAST>, i: int)
    requires
        0 <= i <= es.len(),
    ensures
        exprs_view(es, i).len() == es.len() - i,
    decreases es.len() - i,
{
    if i < es.len() {
        lemma_exprs_view_len(es, i + 1);
    }
}

/// The element `j` of an expression-sequence view is the view of element `j`.
pub proof fn lemma_exprs_view_index(es: Seq<ExprAST>, i: int, j: int)
    requires
        0 <= i <= j < es.len(),
    ensures
        exprs_view(es, i).len() == es.len() - i,
        exprs_view(es, i)[j - i] == expr_view(es[j]),
    decreases j - i,
{
    lemma_exprs_view_len(es, i);
    if i < j {
        lemma_exprs_view_index(es, i + 1, j);
    }
}

} // verus!
