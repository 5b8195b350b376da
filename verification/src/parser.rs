//! The parser: a recursive-descent walk over the token sequence with an
//! index cursor, building one function AST per top-level construct, with
//! precedence climbing for binary operators.
//!
//! The `sp_*` spec functions are the mathematical model; each executable
//! function is proved to return exactly what its model returns and to leave
//! the cursor exactly where the model says. The model reads a token only
//! after checking the bound, so a sequence that runs out where a token is
//! required yields the unexpected-end error rather than reading past the
//! end; a sequence that ends with the end-of-input token never reaches the
//! bound.

use vstd::prelude::*;
use crate::token::{Token, TokenV, tokens_view, token_eq, clone_chars};
use crate::ast::{ExprAST, PrototypeAST, FunctionAST, ExprV, ProtoV, FunctionV, expr_view,
    exprs_view, names_view, proto_view, function_view, functions_view, anon_name, anon_name_chars,
    lemma_exprs_view_push, lemma_names_view_push, lemma_functions_view_push};

verus! {

/// Why a parse stopped.
#[derive(Debug, Clone, PartialEq)]
pub enum ParseErrorKind {
    /// A specific token was required and something else stood there.
    Expected(Token),
    /// An identifier was required and something else stood there.
    ExpectedIdentifier,
    /// A numeric literal was required and something else stood there.
    ExpectedNumber,
    /// No expression or top-level construct can start with this token.
    UnexpectedToken,
    /// The token sequence ran out where a token was required.
    UnexpectedEnd,
}

/// A parse failure: what went wrong and the index of the offending token.
#[derive(Debug, Clone, PartialEq)]
pub struct ParseError {
    pub kind: ParseErrorKind,
    pub pos: usize,
}

/// The view of a parse error.
pub enum ParseErrorKindV {
    Expected(TokenV),
    ExpectedIdentifier,
    ExpectedNumber,
    UnexpectedToken,
    UnexpectedEnd,
}

pub struct ParseErrorV {
    pub kind: ParseErrorKindV,
    pub pos: int,
}

impl View for ParseErrorKind {
    type V = ParseErrorKindV;

    open spec fn view(&self) -> ParseErrorKindV {
        match self {
            ParseErrorKind::Expected(t) => ParseErrorKindV::Expected(t@),
            ParseErrorKind::ExpectedIdentifier => ParseErrorKindV::ExpectedIdentifier,
            ParseErrorKind::ExpectedNumber => ParseErrorKindV::ExpectedNumber,
            ParseErrorKind::UnexpectedToken => ParseErrorKindV::UnexpectedToken,
            ParseErrorKind::UnexpectedEnd => ParseErrorKindV::UnexpectedEnd,
        }
    }
}

impl View for ParseError {
    type V = ParseErrorV;

    open spec fn view(&self) -> ParseErrorV {
        ParseErrorV { kind: self.kind@, pos: self.pos as int }
    }
}

/// What a parsing step yields: a value and the cursor after it, or an error.
pub enum PR<A> {
    Parsed { v: A, next: int },
    Failed(ParseErrorV),
}

/// The token at `i`, or nothing when `i` is out of range.
pub open spec fn peek(toks: Seq<TokenV>, i: int) -> Option<TokenV> {
    if 0 <= i < toks.len() {
        Some(toks[i])
    } else {
        None
    }
}

/// The precedence of a binary operator character: `<` binds weakest, then
/// `+` and `-`, then `*`; every other character is no operator at all.
pub open spec fn prec_of_char(c: char) -> int {
    if c == '<' {
        10
    } else if c == '+' {
        20
    } else if c == '-' {
        20
    } else if c == '*' {
        30
    } else {
        -1
    }
}

/// The precedence of the token at `i`: that of its character if it is an
/// operator-bearing token, and -1 otherwise, in particular at the end.
pub open spec fn prec_at(toks: Seq<TokenV>, i: int) -> int {
    match peek(toks, i) {
        Some(TokenV::Other(c)) => prec_of_char(c),
        _ => -1,
    }
}

/// A cursor that moved: `j` if it lies beyond `i`, else `i + 1`. Every
/// parsing step consumes at least one token, so the fallback never fires; it
/// only makes that progress plain.
pub open spec fn nx(i: int, j: int) -> int {
    if j <= i {
        i + 1
    } else {
        j
    }
}

/// How many tokens remain at cursor `i`: the termination measure of the
/// descent. Never negative, even for a cursor beyond the end.
pub open spec fn rem(toks: Seq<TokenV>, i: int) -> int {
    if i < toks.len() {
        toks.len() - i
    } else {
        0
    }
}

/// The model of requiring the exact token `t` at `i`.
pub open spec fn sp_expect(toks: Seq<TokenV>, i: int, t: TokenV) -> PR<()> {
    match peek(toks, i) {
        Some(x) => if x == t {
            PR::Parsed { v: (), next: i + 1 }
        } else {
            PR::Failed(ParseErrorV { kind: ParseErrorKindV::Expected(t), pos: i })
        },
        None => PR::Failed(ParseErrorV { kind: ParseErrorKindV::UnexpectedEnd, pos: i }),
    }
}

/// The model of requiring an identifier at `i`, yielding its name.
pub open spec fn sp_expect_id(toks: Seq<TokenV>, i: int) -> PR<Seq<char>> {
    match peek(toks, i) {
        Some(TokenV::Identifier(n)) => PR::Parsed { v: n, next: i + 1 },
        Some(_) => PR::Failed(ParseErrorV { kind: ParseErrorKindV::ExpectedIdentifier, pos: i }),
        None => PR::Failed(ParseErrorV { kind: ParseErrorKindV::UnexpectedEnd, pos: i }),
    }
}

/// The model of requiring a numeric literal at `i`, yielding it.
pub open spec fn sp_number(toks: Seq<TokenV>, i: int) -> PR<ExprV> {
    match peek(toks, i) {
        Some(TokenV::Number(s)) => PR::Parsed { v: ExprV::Number(s), next: i + 1 },
        Some(_) => PR::Failed(ParseErrorV { kind: ParseErrorKindV::ExpectedNumber, pos: i }),
        None => PR::Failed(ParseErrorV { kind: ParseErrorKindV::UnexpectedEnd, pos: i }),
    }
}

/// The model of a primary expression: an identifier opens a variable or a
/// call, a numeral is a literal, an opening parenthesis opens a grouped
/// expression, and anything else is an error.
pub open spec fn sp_primary(toks: Seq<TokenV>, i: int) -> PR<ExprV>
    decreases rem(toks, i), 2int,
{
    match peek(toks, i) {
        Some(TokenV::Identifier(_)) => sp_identifier_expr(toks, i),
        Some(TokenV::Number(_)) => sp_number(toks, i),
        Some(TokenV::LParen) => sp_paren_expr(toks, i),
        Some(_) => PR::Failed(ParseErrorV { kind: ParseErrorKindV::UnexpectedToken, pos: i }),
        None => PR::Failed(ParseErrorV { kind: ParseErrorKindV::UnexpectedEnd, pos: i }),
    }
}

/// The model of a parenthesized expression: `(`, an expression, `)`.
pub open spec fn sp_paren_expr(toks: Seq<TokenV>, i: int) -> PR<ExprV>
    decreases rem(toks, i), 1int,
{
    match sp_expect(toks, i, TokenV::LParen) {
        PR::Parsed { next: j, .. } => match sp_expression(toks, j) {
            PR::Parsed { v: e, next: k } => match sp_expect(toks, nx(j, k), TokenV::RParen) {
                PR::Parsed { next: m, .. } => PR::Parsed { v: e, next: m },
                PR::Failed(pe) => PR::Failed(pe),
            },
            PR::Failed(pe) => PR::Failed(pe),
        },
        PR::Failed(pe) => PR::Failed(pe),
    }
}

/// The model of an identifier expression: a bare identifier is a variable
/// reference; one followed directly by `(` is a call, with the arguments
/// separated by optional commas and closed by `)`.
pub open spec fn sp_identifier_expr(toks: Seq<TokenV>, i: int) -> PR<ExprV>
    decreases rem(toks, i), 1int,
{
    match sp_expect_id(toks, i) {
        PR::Parsed { v: name, next: j } => {
            if peek(toks, j) != Some(TokenV::LParen) {
                PR::Parsed { v: ExprV::Variable(name), next: j }
            } else if peek(toks, j + 1) == Some(TokenV::RParen) {
                PR::Parsed { v: ExprV::Call { callee: name, args: Seq::empty() }, next: j + 2 }
            } else {
                match sp_call_args(toks, j + 1, Seq::empty()) {
                    PR::Parsed { v: args, next: k } => PR::Parsed {
                        v: ExprV::Call { callee: name, args },
                        next: k,
                    },
                    PR::Failed(pe) => PR::Failed(pe),
                }
            }
        },
        PR::Failed(pe) => PR::Failed(pe),
    }
}

/// The model of the call-argument list after its first token: an expression,
/// an optional comma, and either the closing parenthesis or further
/// arguments.
pub open spec fn sp_call_args(toks: Seq<TokenV>, i: int, acc: Seq<ExprV>) -> PR<Seq<ExprV>>
    decreases rem(toks, i), 6int,
{
    if !(0 <= i < toks.len()) {
        PR::Failed(ParseErrorV { kind: ParseErrorKindV::UnexpectedEnd, pos: i })
    } else {
        match sp_expression(toks, i) {
        PR::Parsed { v: e, next: j0 } => {
            let j = nx(i, j0);
            let k = if peek(toks, j) == Some(TokenV::Comma) {
                j + 1
            } else {
                j
            };
            if peek(toks, k) == Some(TokenV::RParen) {
                PR::Parsed { v: acc.push(e), next: k + 1 }
            } else {
                sp_call_args(toks, k, acc.push(e))
            }
        },
        PR::Failed(pe) => PR::Failed(pe),
        }
    }
}

/// The model of precedence climbing from a parsed left-hand side: as long as
/// the cursor stands on an operator of at least `min_prec`, take it and a
/// right-hand primary; when the operator after that primary binds tighter,
/// climb into the right-hand side first; then fold and continue. Operators
/// of equal precedence fold left to right.
pub open spec fn sp_binop_rhs(toks: Seq<TokenV>, i: int, min_prec: int, lhs: ExprV) -> PR<ExprV>
    decreases rem(toks, i), 3int,
{
    let p = prec_at(toks, i);
    if !(0 <= i < toks.len()) || p < min_prec {
        PR::Parsed { v: lhs, next: i }
    } else {
        let op = match peek(toks, i) {
            Some(TokenV::Other(c)) => c,
            _ => ' ',
        };
        match sp_primary(toks, i + 1) {
            PR::Parsed { v: rhs, next: j0 } => {
                let j = nx(i + 1, j0);
                if p < prec_at(toks, j) {
                    match sp_binop_rhs(toks, j, p + 1, rhs) {
                        PR::Parsed { v: rhs2, next: k0 } => {
                            let k = nx(j, k0);
                            sp_binop_rhs(
                                toks,
                                k,
                                min_prec,
                                ExprV::Binop { op, lhs: Box::new(lhs), rhs: Box::new(rhs2) },
                            )
                        },
                        PR::Failed(pe) => PR::Failed(pe),
                    }
                } else {
                    sp_binop_rhs(
                        toks,
                        j,
                        min_prec,
                        ExprV::Binop { op, lhs: Box::new(lhs), rhs: Box::new(rhs) },
                    )
                }
            },
            PR::Failed(pe) => PR::Failed(pe),
        }
    }
}

/// The model of an expression: a primary followed by operator climbing from
/// the lowest precedence floor.
pub open spec fn sp_expression(toks: Seq<TokenV>, i: int) -> PR<ExprV>
    decreases rem(toks, i), 5int,
{
    match sp_primary(toks, i) {
        PR::Parsed { v: lhs, next: j } => sp_binop_rhs(toks, nx(i, j), 0, lhs),
        PR::Failed(pe) => PR::Failed(pe),
    }
}

/// The model of the parameter names of a prototype: identifiers up to the
/// closing parenthesis, not separated by anything.
pub open spec fn sp_params(toks: Seq<TokenV>, i: int, acc: Seq<Seq<char>>) -> PR<Seq<Seq<char>>>
    decreases rem(toks, i),
{
    if peek(toks, i) == Some(TokenV::RParen) {
        PR::Parsed { v: acc, next: i + 1 }
    } else {
        match sp_expect_id(toks, i) {
            PR::Parsed { v: name, next: j } => sp_params(toks, j, acc.push(name)),
            PR::Failed(pe) => PR::Failed(pe),
        }
    }
}

/// The model of a prototype: a name, `(`, parameter names, `)`.
pub open spec fn sp_prototype(toks: Seq<TokenV>, i: int) -> PR<ProtoV> {
    match sp_expect_id(toks, i) {
        PR::Parsed { v: name, next: j } => match sp_expect(toks, j, TokenV::LParen) {
            PR::Parsed { next: k, .. } => match sp_params(toks, k, Seq::empty()) {
                PR::Parsed { v: args, next: m } => PR::Parsed { v: ProtoV { name, args }, next: m },
                PR::Failed(pe) => PR::Failed(pe),
            },
            PR::Failed(pe) => PR::Failed(pe),
        },
        PR::Failed(pe) => PR::Failed(pe),
    }
}

/// The model of a definition: `def`, a prototype, a body expression.
pub open spec fn sp_definition(toks: Seq<TokenV>, i: int) -> PR<FunctionV> {
    match sp_expect(toks, i, TokenV::Def) {
        PR::Parsed { next: j, .. } => match sp_prototype(toks, j) {
            PR::Parsed { v: proto, next: k } => match sp_expression(toks, k) {
                PR::Parsed { v: body, next: m } => PR::Parsed { v: FunctionV { proto, body }, next: m },
                PR::Failed(pe) => PR::Failed(pe),
            },
            PR::Failed(pe) => PR::Failed(pe),
        },
        PR::Failed(pe) => PR::Failed(pe),
    }
}

/// The placeholder body a foreign declaration carries: the literal zero.
pub open spec fn sentinel_body() -> ExprV {
    ExprV::Number(seq!['0'])
}

/// The model of a foreign declaration: the keyword and a prototype, wrapped
/// as a function with the placeholder body.
pub open spec fn sp_ext_decl(toks: Seq<TokenV>, i: int) -> PR<FunctionV> {
    match sp_expect(toks, i, TokenV::Ext) {
        PR::Parsed { next: j, .. } => match sp_prototype(toks, j) {
            PR::Parsed { v: proto, next: k } => PR::Parsed {
                v: FunctionV { proto, body: sentinel_body() },
                next: k,
            },
            PR::Failed(pe) => PR::Failed(pe),
        },
        PR::Failed(pe) => PR::Failed(pe),
    }
}

/// The model of a bare top-level expression: the expression wrapped as an
/// anonymous function with the synthetic name and no parameters.
pub open spec fn sp_top_level_expr(toks: Seq<TokenV>, i: int) -> PR<FunctionV> {
    match sp_expression(toks, i) {
        PR::Parsed { v: body, next: j } => PR::Parsed {
            v: FunctionV { proto: ProtoV { name: anon_name(), args: Seq::empty() }, body },
            next: j,
        },
        PR::Failed(pe) => PR::Failed(pe),
    }
}

/// The model of the top-level driver from `i` with the functions parsed so
/// far: the end-of-input token (or the end of the sequence) stops it with
/// success; a semicolon is an empty statement; `def` opens a definition, the
/// foreign keyword a declaration; anything else a bare expression. The first
/// error aborts the whole parse.
pub open spec fn sp_parse(toks: Seq<TokenV>, i: int, acc: Seq<FunctionV>) -> Result<
    Seq<FunctionV>,
    ParseErrorV,
>
    decreases rem(toks, i),
{
    match peek(toks, i) {
        None => Ok(acc),
        Some(TokenV::Eof) => Ok(acc),
        Some(TokenV::Semicolon) => sp_parse(toks, i + 1, acc),
        Some(TokenV::Def) => match sp_definition(toks, i) {
            PR::Parsed { v: f, next: j } => sp_parse(toks, nx(i, j), acc.push(f)),
            PR::Failed(pe) => Err(pe),
        },
        Some(TokenV::Ext) => match sp_ext_decl(toks, i) {
            PR::Parsed { v: f, next: j } => sp_parse(toks, nx(i, j), acc.push(f)),
            PR::Failed(pe) => Err(pe),
        },
        Some(_) => match sp_top_level_expr(toks, i) {
            PR::Parsed { v: f, next: j } => sp_parse(toks, nx(i, j), acc.push(f)),
            PR::Failed(pe) => Err(pe),
        },
    }
}

/// Operators of equal precedence fold left to right: for any two operators
/// of the same precedence, `a o1 b o2 c` groups as `(a o1 b) o2 c`.
pub proof fn lemma_equal_precedence_folds_left(
    a: Seq<char>,
    b: Seq<char>,
    c: Seq<char>,
    o1: char,
    o2: char,
)
    requires
        prec_of_char(o1) >= 0,
        prec_of_char(o1) == prec_of_char(o2),
    ensures
        ({
            let toks = seq![
                TokenV::Identifier(a),
                TokenV::Other(o1),
                TokenV::Identifier(b),
                TokenV::Other(o2),
                TokenV::Identifier(c),
                TokenV::Eof,
            ];
            sp_expression(toks, 0) == (PR::<ExprV>::Parsed {
                v: ExprV::Binop {
                    op: o2,
                    lhs: Box::new(
                        ExprV::Binop {
                            op: o1,
                            lhs: Box::new(ExprV::Variable(a)),
                            rhs: Box::new(ExprV::Variable(b)),
                        },
                    ),
                    rhs: Box::new(ExprV::Variable(c)),
                },
                next: 5,
            })
        }),
{
    let toks = seq![
        TokenV::Identifier(a),
        TokenV::Other(o1),
        TokenV::Identifier(b),
        TokenV::Other(o2),
        TokenV::Identifier(c),
        TokenV::Eof,
    ];
    reveal_with_fuel(sp_binop_rhs, 4);
    assert(sp_primary(toks, 0) == (PR::<ExprV>::Parsed { v: ExprV::Variable(a), next: 1 }));
    assert(sp_primary(toks, 2) == (PR::<ExprV>::Parsed { v: ExprV::Variable(b), next: 3 }));
    assert(sp_primary(toks, 4) == (PR::<ExprV>::Parsed { v: ExprV::Variable(c), next: 5 }));
    let va = ExprV::Variable(a);
    let vb = ExprV::Variable(b);
    let vc = ExprV::Variable(c);
    let e1 = ExprV::Binop { op: o1, lhs: Box::new(va), rhs: Box::new(vb) };
    let e2 = ExprV::Binop { op: o2, lhs: Box::new(e1), rhs: Box::new(vc) };
    assert(prec_at(toks, 1) == prec_of_char(o1));
    assert(prec_at(toks, 3) == prec_of_char(o2));
    assert(prec_at(toks, 5) == -1);
    assert(sp_binop_rhs(toks, 5, 0, e2) == (PR::<ExprV>::Parsed { v: e2, next: 5 }));
    assert(sp_binop_rhs(toks, 3, 0, e1) == (PR::<ExprV>::Parsed { v: e2, next: 5 }));
    assert(sp_binop_rhs(toks, 1, 0, va) == (PR::<ExprV>::Parsed { v: e2, next: 5 }));
}

/// An operator of higher precedence binds tighter: when `o2` outranks `o1`,
/// `a o1 b o2 c` groups as `a o1 (b o2 c)`.
pub proof fn lemma_higher_precedence_binds_tighter(
    a: Seq<char>,
    b: Seq<char>,
    c: Seq<char>,
    o1: char,
    o2: char,
)
    requires
        prec_of_char(o1) >= 0,
        prec_of_char(o2) > prec_of_char(o1),
    ensures
        ({
            let toks = seq![
                TokenV::Identifier(a),
                TokenV::Other(o1),
                TokenV::Identifier(b),
                TokenV::Other(o2),
                TokenV::Identifier(c),
                TokenV::Eof,
            ];
            sp_expression(toks, 0) == (PR::<ExprV>::Parsed {
                v: ExprV::Binop {
                    op: o1,
                    lhs: Box::new(ExprV::Variable(a)),
                    rhs: Box::new(
                        ExprV::Binop {
                            op: o2,
                            lhs: Box::new(ExprV::Variable(b)),
                            rhs: Box::new(ExprV::Variable(c)),
                        },
                    ),
                },
                next: 5,
            })
        }),
{
    let toks = seq![
        TokenV::Identifier(a),
        TokenV::Other(o1),
        TokenV::Identifier(b),
        TokenV::Other(o2),
        TokenV::Identifier(c),
        TokenV::Eof,
    ];
    reveal_with_fuel(sp_binop_rhs, 4);
    assert(sp_primary(toks, 0) == (PR::<ExprV>::Parsed { v: ExprV::Variable(a), next: 1 }));
    assert(sp_primary(toks, 2) == (PR::<ExprV>::Parsed { v: ExprV::Variable(b), next: 3 }));
    assert(sp_primary(toks, 4) == (PR::<ExprV>::Parsed { v: ExprV::Variable(c), next: 5 }));
    let va = ExprV::Variable(a);
    let vb = ExprV::Variable(b);
    let vc = ExprV::Variable(c);
    let e2 = ExprV::Binop { op: o2, lhs: Box::new(vb), rhs: Box::new(vc) };
    let e1 = ExprV::Binop { op: o1, lhs: Box::new(va), rhs: Box::new(e2) };
    assert(prec_at(toks, 1) == prec_of_char(o1));
    assert(prec_at(toks, 3) == prec_of_char(o2));
    assert(prec_at(toks, 5) == -1);
    assert(sp_binop_rhs(toks, 5, prec_of_char(o1) + 1, e2) == (PR::<ExprV>::Parsed {
        v: e2,
        next: 5,
    }));
    assert(sp_binop_rhs(toks, 3, prec_of_char(o1) + 1, vb) == (PR::<ExprV>::Parsed {
        v: e2,
        next: 5,
    }));
    assert(sp_binop_rhs(toks, 5, 0, e1) == (PR::<ExprV>::Parsed { v: e1, next: 5 }));
    assert(sp_binop_rhs(toks, 1, 0, va) == (PR::<ExprV>::Parsed { v: e1, next: 5 }));
}

/// The termination measure of the executable descent: how many tokens
/// remain at cursor `i`, never negative.
pub open spec fn erem(ts: Seq<Token>, i: int) -> int {
    if i < ts.len() {
        ts.len() - i
    } else {
        0
    }
}

/// The precedence of a binary operator character: `<` is 10, `+` and `-`
/// are 20, `*` is 30, anything else -1.
pub fn binop_precedence(token: char) -> (p: i32)
    ensures
        p as int == prec_of_char(token),
{
    if token == '<' {
        10
    } else if token == '+' {
        20
    } else if token == '-' {
        20
    } else if token == '*' {
        30
    } else {
        -1
    }
}

/// The precedence a token drives the climb with: that of its character for
/// a catch-all token, and -1 for every other token.
fn get_tok_precedence(token: &Token) -> (p: i32)
    ensures
        p as int == (match token@ {
            TokenV::Other(c) => prec_of_char(c),
            _ => -1,
        }),
{
    match token {
        Token::Other(c) => binop_precedence(*c),
        _ => -1,
    }
}

/// The precedence at the cursor, -1 at or beyond the end of the sequence.
fn current_prec(tokens: &Vec<Token>, idx: usize) -> (p: i32)
    ensures
        p as int == prec_at(tokens_view(tokens@), idx as int),
{
    if idx >= tokens.len() {
        -1
    } else {
        get_tok_precedence(&tokens[idx])
    }
}

/// Requires the exact token `token` at the cursor and steps over it; any
/// other token stays where it is and is named in the error.
pub fn expect(tokens: &Vec<Token>, idx: &mut usize, token: Token) -> (r: Result<(), ParseError>)
    ensures
        match r {
            Ok(_) => ({
                &&& sp_expect(tokens_view(tokens@), *old(idx) as int, token@) == (PR::<
                    (),
                >::Parsed { v: (), next: *final(idx) as int })
                &&& *final(idx) == *old(idx) + 1
                &&& *old(idx) < tokens@.len()
            }),
            Err(e) => sp_expect(tokens_view(tokens@), *old(idx) as int, token@) == PR::<
                (),
            >::Failed(e@) && *final(idx) == *old(idx),
        },
{
    if *idx >= tokens.len() {
        return Err(ParseError { kind: ParseErrorKind::UnexpectedEnd, pos: *idx });
    }
    if !token_eq(&tokens[*idx], &token) {
        return Err(ParseError { kind: ParseErrorKind::Expected(token), pos: *idx });
    }
    *idx += 1;
    Ok(())
}

/// Requires an identifier at the cursor, steps over it and yields its
/// name; any other token stays where it is and is named in the error.
pub fn expect_id(tokens: &Vec<Token>, idx: &mut usize) -> (r: Result<Vec<char>, ParseError>)
    ensures
        match r {
            Ok(name) => ({
                &&& sp_expect_id(tokens_view(tokens@), *old(idx) as int) == (PR::<
                    Seq<char>,
                >::Parsed { v: name@, next: *final(idx) as int })
                &&& *final(idx) == *old(idx) + 1
                &&& *old(idx) < tokens@.len()
            }),
            Err(e) => sp_expect_id(tokens_view(tokens@), *old(idx) as int) == PR::<
                Seq<char>,
            >::Failed(e@) && *final(idx) == *old(idx),
        },
{
    if *idx >= tokens.len() {
        return Err(ParseError { kind: ParseErrorKind::UnexpectedEnd, pos: *idx });
    }
    match &tokens[*idx] {
        Token::Identifier(s) => {
            let name = clone_chars(s);
            *idx += 1;
            Ok(name)
        },
        _ => Err(ParseError { kind: ParseErrorKind::ExpectedIdentifier, pos: *idx }),
    }
}

/// Requires a numeric literal at the cursor, steps over it and yields it as
/// an expression; any other token stays where it is and is named in the
/// error.
pub fn parse_number(tokens: &Vec<Token>, idx: &mut usize) -> (r: Result<ExprAST, ParseError>)
    ensures
        match r {
            Ok(e) => ({
                &&& sp_number(tokens_view(tokens@), *old(idx) as int) == (PR::<ExprV>::Parsed {
                    v: expr_view(e),
                    next: *final(idx) as int,
                })
                &&& *final(idx) == *old(idx) + 1
                &&& *old(idx) < tokens@.len()
            }),
            Err(pe) => sp_number(tokens_view(tokens@), *old(idx) as int) == PR::<ExprV>::Failed(
                pe@,
            ) && *final(idx) == *old(idx),
        },
{
    if *idx >= tokens.len() {
        return Err(ParseError { kind: ParseErrorKind::UnexpectedEnd, pos: *idx });
    }
    match &tokens[*idx] {
        Token::Number(s) => {
            let e = ExprAST::Number(clone_chars(s));
            *idx += 1;
            Ok(e)
        },
        _ => Err(ParseError { kind: ParseErrorKind::ExpectedNumber, pos: *idx }),
    }
}

/// Parses a parenthesized expression: `(`, an expression, `)`.
fn parse_paren_expr(tokens: &Vec<Token>, idx: &mut usize) -> (r: Result<ExprAST, ParseError>)
    ensures
        match r {
            Ok(e) => sp_paren_expr(tokens_view(tokens@), *old(idx) as int) == (PR::<
                ExprV,
            >::Parsed { v: expr_view(e), next: *final(idx) as int }) && *final(idx) > *old(idx),
            Err(pe) => sp_paren_expr(tokens_view(tokens@), *old(idx) as int) == PR::<
                ExprV,
            >::Failed(pe@),
        },
    decreases erem(tokens@, *idx as int), 1int,
{
    match expect(tokens, idx, Token::LParen) {
        Ok(_) => {},
        Err(e) => {
            return Err(e);
        },
    }
    let e = match parse_expression(tokens, idx) {
        Ok(e) => e,
        Err(pe) => {
            return Err(pe);
        },
    };
    match expect(tokens, idx, Token::RParen) {
        Ok(_) => {},
        Err(pe) => {
            return Err(pe);
        },
    }
    Ok(e)
}

/// Parses an identifier expression: a variable reference, or, when `(`
/// follows directly, a call with its argument list.
#[verifier::loop_isolation(false)]
fn parse_identifier_expr(tokens: &Vec<Token>, idx: &mut usize) -> (r: Result<ExprAST, ParseError>)
    ensures
        match r {
            Ok(e) => sp_identifier_expr(tokens_view(tokens@), *old(idx) as int) == (PR::<
                ExprV,
            >::Parsed { v: expr_view(e), next: *final(idx) as int }) && *final(idx) > *old(idx),
            Err(pe) => sp_identifier_expr(tokens_view(tokens@), *old(idx) as int) == PR::<
                ExprV,
            >::Failed(pe@),
        },
    decreases erem(tokens@, *idx as int), 1int,
{
    let ghost tv = tokens_view(tokens@);
    let ghost i0 = *idx as int;
    let name = match expect_id(tokens, idx) {
        Ok(n) => n,
        Err(e) => {
            return Err(e);
        },
    };
    if *idx >= tokens.len() || !token_eq(&tokens[*idx], &Token::LParen) {
        return Ok(ExprAST::Variable(name));
    }
    *idx += 1;
    if *idx < tokens.len() && token_eq(&tokens[*idx], &Token::RParen) {
        *idx += 1;
        let e = ExprAST::Call { callee: name, args: Vec::new() };
        proof {
            assert(exprs_view(Seq::<ExprAST>::empty(), 0) =~= Seq::<ExprV>::empty());
        }
        return Ok(e);
    }
    let ghost args_start = *idx as int;
    let mut args: Vec<ExprAST> = Vec::new();
    proof {
        assert(exprs_view(args@, 0) =~= Seq::<ExprV>::empty());
    }
    loop
        invariant
            tv == tokens_view(tokens@),
            i0 + 1 < tokens@.len(),
            i0 + 2 == args_start <= *idx as int,
            sp_call_args(tv, args_start, Seq::empty()) == sp_call_args(
                tv,
                *idx as int,
                exprs_view(args@, 0),
            ),
            sp_expect_id(tv, i0) == (PR::<Seq<char>>::Parsed { v: name@, next: i0 + 1 }),
            peek(tv, i0 + 1) == Some(TokenV::LParen),
            peek(tv, args_start) != Some(TokenV::RParen),
        decreases erem(tokens@, *idx as int),
    {
        let e = match parse_expression(tokens, idx) {
            Ok(e) => e,
            Err(pe) => {
                return Err(pe);
            },
        };
        proof {
            lemma_exprs_view_push(args@, e, 0);
        }
        args.push(e);
        if *idx < tokens.len() && token_eq(&tokens[*idx], &Token::Comma) {
            *idx += 1;
        }
        if *idx < tokens.len() && token_eq(&tokens[*idx], &Token::RParen) {
            *idx += 1;
            return Ok(ExprAST::Call { callee: name, args });
        }
    }
}

/// Parses a primary expression, dispatching on the current token.
fn parse_primary(tokens: &Vec<Token>, idx: &mut usize) -> (r: Result<ExprAST, ParseError>)
    ensures
        match r {
            Ok(e) => sp_primary(tokens_view(tokens@), *old(idx) as int) == (PR::<
                ExprV,
            >::Parsed { v: expr_view(e), next: *final(idx) as int }) && *final(idx) > *old(idx),
            Err(pe) => ({
                &&& sp_primary(tokens_view(tokens@), *old(idx) as int) == PR::<ExprV>::Failed(pe@)
                &&& ({
                    let t0 = peek(tokens_view(tokens@), *old(idx) as int);
                    ||| t0 matches Some(TokenV::Identifier(_))
                    ||| t0 matches Some(TokenV::LParen)
                    ||| *final(idx) == *old(idx)
                })
            }),
        },
    decreases erem(tokens@, *idx as int), 2int,
{
    if *idx >= tokens.len() {
        return Err(ParseError { kind: ParseErrorKind::UnexpectedEnd, pos: *idx });
    }
    match &tokens[*idx] {
        Token::Identifier(_) => parse_identifier_expr(tokens, idx),
        Token::Number(_) => parse_number(tokens, idx),
        Token::LParen => parse_paren_expr(tokens, idx),
        _ => Err(ParseError { kind: ParseErrorKind::UnexpectedToken, pos: *idx }),
    }
}

/// Climbs binary operators from a parsed left-hand side, as long as the
/// current operator binds at least as tightly as `expr_prec`.
#[verifier::loop_isolation(false)]
fn parse_binop_rhs(tokens: &Vec<Token>, idx: &mut usize, expr_prec: i32, lhs: ExprAST) -> (r:
    Result<ExprAST, ParseError>)
    requires
        expr_prec >= 0,
    ensures
        match r {
            Ok(e) => ({
                &&& sp_binop_rhs(
                    tokens_view(tokens@),
                    *old(idx) as int,
                    expr_prec as int,
                    expr_view(lhs),
                ) == (PR::<ExprV>::Parsed { v: expr_view(e), next: *final(idx) as int })
                &&& *final(idx) >= *old(idx)
                &&& prec_at(tokens_view(tokens@), *old(idx) as int) >= expr_prec ==> *final(idx)
                    > *old(idx)
            }),
            Err(pe) => sp_binop_rhs(
                tokens_view(tokens@),
                *old(idx) as int,
                expr_prec as int,
                expr_view(lhs),
            ) == PR::<ExprV>::Failed(pe@),
        },
    decreases erem(tokens@, *idx as int), 3int,
{
    let ghost tv = tokens_view(tokens@);
    let ghost i0 = *idx as int;
    let ghost lhs0 = expr_view(lhs);
    let mut lhs = lhs;
    loop
        invariant
            expr_prec >= 0,
            tv == tokens_view(tokens@),
            i0 <= *idx as int,
            sp_binop_rhs(tv, i0, expr_prec as int, lhs0) == sp_binop_rhs(
                tv,
                *idx as int,
                expr_prec as int,
                expr_view(lhs),
            ),
        decreases erem(tokens@, *idx as int),
    {
        let p = current_prec(tokens, *idx);
        if p < expr_prec {
            return Ok(lhs);
        }
        let ghost ib = *idx as int;
        let n = tokens.len();
        proof {
            assert(peek(tv, ib) matches Some(TokenV::Other(_)));
            assert(ib < tv.len());
            assert(tv.len() == tokens@.len());
            assert(*idx < n);
        }
        let op = match &tokens[*idx] {
            Token::Other(cc) => *cc,
            _ => {
                proof {
                    assert(false);
                }
                ' '
            },
        };
        *idx += 1;
        let mut rhs = match parse_primary(tokens, idx) {
            Ok(e) => e,
            Err(pe) => {
                return Err(pe);
            },
        };
        let next_p = current_prec(tokens, *idx);
        if p < next_p {
            rhs = match parse_binop_rhs(tokens, idx, p + 1, rhs) {
                Ok(e) => e,
                Err(pe) => {
                    return Err(pe);
                },
            };
        }
        lhs = ExprAST::Binop { op, lhs: Box::new(lhs), rhs: Box::new(rhs) };
    }
}

/// Parses an expression: a primary, then operator climbing from floor 0.
pub fn parse_expression(tokens: &Vec<Token>, idx: &mut usize) -> (r: Result<ExprAST, ParseError>)
    ensures
        match r {
            Ok(e) => sp_expression(tokens_view(tokens@), *old(idx) as int) == (PR::<
                ExprV,
            >::Parsed { v: expr_view(e), next: *final(idx) as int }) && *final(idx) > *old(idx),
            Err(pe) => sp_expression(tokens_view(tokens@), *old(idx) as int) == PR::<
                ExprV,
            >::Failed(pe@),
        },
    decreases erem(tokens@, *idx as int), 5int,
{
    let lhs = match parse_primary(tokens, idx) {
        Ok(e) => e,
        Err(pe) => {
            return Err(pe);
        },
    };
    parse_binop_rhs(tokens, idx, 0, lhs)
}

/// Parses a prototype: a name, `(`, parameter names, `)`.
#[verifier::loop_isolation(false)]
fn parse_prototype(tokens: &Vec<Token>, idx: &mut usize) -> (r: Result<PrototypeAST, ParseError>)
    ensures
        match r {
            Ok(p) => sp_prototype(tokens_view(tokens@), *old(idx) as int) == (PR::<
                ProtoV,
            >::Parsed { v: proto_view(p), next: *final(idx) as int }) && *final(idx) > *old(idx),
            Err(pe) => sp_prototype(tokens_view(tokens@), *old(idx) as int) == PR::<
                ProtoV,
            >::Failed(pe@),
        },
{
    let ghost tv = tokens_view(tokens@);
    let ghost i0 = *idx as int;
    let name = match expect_id(tokens, idx) {
        Ok(n) => n,
        Err(e) => {
            return Err(e);
        },
    };
    match expect(tokens, idx, Token::LParen) {
        Ok(_) => {},
        Err(e) => {
            return Err(e);
        },
    }
    let ghost params_start = *idx as int;
    let mut params: Vec<Vec<char>> = Vec::new();
    proof {
        assert(names_view(params@) =~= Seq::<Seq<char>>::empty());
    }
    loop
        invariant
            tv == tokens_view(tokens@),
            i0 + 2 == params_start <= *idx as int,
            sp_params(tv, params_start, Seq::empty()) == sp_params(
                tv,
                *idx as int,
                names_view(params@),
            ),
            sp_expect_id(tv, i0) == (PR::<Seq<char>>::Parsed { v: name@, next: i0 + 1 }),
            sp_expect(tv, i0 + 1, TokenV::LParen) == (PR::<()>::Parsed { v: (), next: i0 + 2 }),
        decreases erem(tokens@, *idx as int),
    {
        if *idx < tokens.len() && token_eq(&tokens[*idx], &Token::RParen) {
            *idx += 1;
            return Ok(PrototypeAST { name, args: params });
        }
        let pn = match expect_id(tokens, idx) {
            Ok(n) => n,
            Err(e) => {
                return Err(e);
            },
        };
        proof {
            lemma_names_view_push(params@, pn);
        }
        params.push(pn);
    }
}

/// Parses a definition: `def`, a prototype, a body expression.
fn parse_definition(tokens: &Vec<Token>, idx: &mut usize) -> (r: Result<FunctionAST, ParseError>)
    ensures
        match r {
            Ok(f) => sp_definition(tokens_view(tokens@), *old(idx) as int) == (PR::<
                FunctionV,
            >::Parsed { v: function_view(f), next: *final(idx) as int }) && *final(idx) > *old(
                idx,
            ),
            Err(pe) => sp_definition(tokens_view(tokens@), *old(idx) as int) == PR::<
                FunctionV,
            >::Failed(pe@),
        },
{
    match expect(tokens, idx, Token::Def) {
        Ok(_) => {},
        Err(e) => {
            return Err(e);
        },
    }
    let proto = match parse_prototype(tokens, idx) {
        Ok(p) => p,
        Err(e) => {
            return Err(e);
        },
    };
    let body = match parse_expression(tokens, idx) {
        Ok(e) => e,
        Err(e) => {
            return Err(e);
        },
    };
    Ok(FunctionAST { proto, body })
}

/// Parses a foreign declaration: the keyword and a prototype, wrapped as a
/// function carrying the placeholder body `0`.
fn parse_ext_decl(tokens: &Vec<Token>, idx: &mut usize) -> (r: Result<FunctionAST, ParseError>)
    ensures
        match r {
            Ok(f) => sp_ext_decl(tokens_view(tokens@), *old(idx) as int) == (PR::<
                FunctionV,
            >::Parsed { v: function_view(f), next: *final(idx) as int }) && *final(idx) > *old(
                idx,
            ),
            Err(pe) => sp_ext_decl(tokens_view(tokens@), *old(idx) as int) == PR::<
                FunctionV,
            >::Failed(pe@),
        },
{
    match expect(tokens, idx, Token::Ext) {
        Ok(_) => {},
        Err(e) => {
            return Err(e);
        },
    }
    let proto = match parse_prototype(tokens, idx) {
        Ok(p) => p,
        Err(e) => {
            return Err(e);
        },
    };
    let mut zero: Vec<char> = Vec::new();
    zero.push('0');
    proof {
        assert(zero@ =~= seq!['0']);
    }
    Ok(FunctionAST { proto, body: ExprAST::Number(zero) })
}

/// Parses a bare top-level expression as an anonymous function.
fn parse_top_level_expr(tokens: &Vec<Token>, idx: &mut usize) -> (r: Result<FunctionAST,
    ParseError>)
    ensures
        match r {
            Ok(f) => sp_top_level_expr(tokens_view(tokens@), *old(idx) as int) == (PR::<
                FunctionV,
            >::Parsed { v: function_view(f), next: *final(idx) as int }) && *final(idx) > *old(
                idx,
            ),
            Err(pe) => sp_top_level_expr(tokens_view(tokens@), *old(idx) as int) == PR::<
                FunctionV,
            >::Failed(pe@),
        },
{
    let body = match parse_expression(tokens, idx) {
        Ok(e) => e,
        Err(e) => {
            return Err(e);
        },
    };
    let name = anon_name_chars();
    let f = FunctionAST { proto: PrototypeAST { name, args: Vec::new() }, body };
    proof {
        assert(names_view(Seq::<Vec<char>>::empty()) =~= Seq::<Seq<char>>::empty());
    }
    Ok(f)
}

/// The parser: walks the token sequence from the front and returns the
/// functions of every top-level construct up to the first end-of-input
/// token (or the end of the sequence), or the first error.
#[verifier::loop_isolation(false)]
pub fn parse(tokens: &Vec<Token>) -> (r: Result<Vec<FunctionAST>, ParseError>)
    ensures
        match r {
            Ok(fns) => sp_parse(tokens_view(tokens@), 0, Seq::empty()) == Ok::<
                Seq<FunctionV>,
                ParseErrorV,
            >(functions_view(fns@, 0)),
            Err(e) => sp_parse(tokens_view(tokens@), 0, Seq::empty()) == Err::<
                Seq<FunctionV>,
                ParseErrorV,
            >(e@),
        },
{
    let ghost tv = tokens_view(tokens@);
    let mut idx: usize = 0;
    let mut fns: Vec<FunctionAST> = Vec::new();
    proof {
        assert(functions_view(fns@, 0) =~= Seq::<FunctionV>::empty());
    }
    loop
        invariant
            tv == tokens_view(tokens@),
            sp_parse(tv, 0, Seq::empty()) == sp_parse(tv, idx as int, functions_view(fns@, 0)),
        decreases erem(tokens@, idx as int),
    {
        if idx >= tokens.len() {
            return Ok(fns);
        }
        match &tokens[idx] {
            Token::Eof => {
                return Ok(fns);
            },
            Token::Semicolon => {
                idx += 1;
            },
            Token::Def => {
                let f = match parse_definition(tokens, &mut idx) {
                    Ok(f) => f,
                    Err(e) => {
                        return Err(e);
                    },
                };
                proof {
                    lemma_functions_view_push(fns@, f, 0);
                }
                fns.push(f);
            },
            Token::Ext => {
                let f = match parse_ext_decl(tokens, &mut idx) {
                    Ok(f) => f,
                    Err(e) => {
                        return Err(e);
                    },
                };
                proof {
                    lemma_functions_view_push(fns@, f, 0);
                }
                fns.push(f);
            },
            _ => {
                let f = match parse_top_level_expr(tokens, &mut idx) {
                    Ok(f) => f,
                    Err(e) => {
                        return Err(e);
                    },
                };
                proof {
                    lemma_functions_view_push(fns@, f, 0);
                }
                fns.push(f);
            },
        }
    }
}

} // verus!
