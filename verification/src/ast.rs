//! The abstract syntax tree: expressions, prototypes and functions, each an
//! ownership tree, together with its mathematical view and well-formedness.
//!
//! A foreign declaration has no body of its own; it is represented as a
//! function whose body is the placeholder literal zero, and a caller tells
//! the two apart by context.

use vstd::prelude::*;
use crate::token::{is_ident_name, is_number_word};
use crate::parser::prec_of_char;

verus! {

/// An expression node. Every composite node owns its children outright: the
/// tree has no sharing and no back references.
#[derive(Debug, PartialEq)]
pub enum ExprAST {
    /// A numeric literal, in its validated source spelling.
    Number(Vec<char>),
    /// A reference to a variable.
    Variable(Vec<char>),
    /// A binary operation.
    Binop { op: char, lhs: Box<ExprAST>, rhs: Box<ExprAST> },
    /// A call, with the callee's name and the argument expressions in order.
    Call { callee: Vec<char>, args: Vec<ExprAST> },
}

/// A function signature: its name and its parameter names in order.
#[derive(Debug, Clone, PartialEq)]
pub struct PrototypeAST {
    pub name: Vec<char>,
    pub args: Vec<Vec<char>>,
}

/// A prototype with a body expression. A foreign declaration carries the
/// placeholder body `0`; a bare top-level expression carries the synthetic
/// anonymous name and no parameters.
#[derive(Debug, PartialEq)]
pub struct FunctionAST {
    pub proto: PrototypeAST,
    pub body: ExprAST,
}

/// The mathematical view of an expression.
pub enum ExprV {
    Number(Seq<char>),
    Variable(Seq<char>),
    Binop { op: char, lhs: Box<ExprV>, rhs: Box<ExprV> },
    Call { callee: Seq<char>, args: Seq<ExprV> },
}

/// The view of a prototype.
pub struct ProtoV {
    pub name: Seq<char>,
    pub args: Seq<Seq<char>>,
}

/// The view of a function.
pub struct FunctionV {
    pub proto: ProtoV,
    pub body: ExprV,
}

/// The view of an expression tree, child by child.
pub open spec fn expr_view(e: ExprAST) -> ExprV
    decreases e,
{
    match e {
        ExprAST::Number(s) => ExprV::Number(s@),
        ExprAST::Variable(n) => ExprV::Variable(n@),
        ExprAST::Binop { op, lhs, rhs } => ExprV::Binop {
            op,
            lhs: Box::new(expr_view(*lhs)),
            rhs: Box::new(expr_view(*rhs)),
        },
        ExprAST::Call { callee, args } => ExprV::Call {
            callee: callee@,
            args: exprs_view(args@, 0),
        },
    }
}

/// The views of the expressions of `es` from index `i` on.
pub open spec fn exprs_view(es: Seq<ExprAST>, i: int) -> Seq<ExprV>
    decreases es, es.len() - i,
{
    if 0 <= i < es.len() {
        seq![expr_view(es[i])] + exprs_view(es, i + 1)
    } else {
        Seq::empty()
    }
}

/// The views of the parameter names of a prototype.
pub open spec fn names_view(ns: Seq<Vec<char>>) -> Seq<Seq<char>> {
    Seq::new(ns.len(), |i: int| ns[i]@)
}

pub open spec fn proto_view(p: PrototypeAST) -> ProtoV {
    ProtoV { name: p.name@, args: names_view(p.args@) }
}

pub open spec fn function_view(f: FunctionAST) -> FunctionV {
    FunctionV { proto: proto_view(f.proto), body: expr_view(f.body) }
}

/// The views of a sequence of functions from index `i` on.
pub open spec fn functions_view(fs: Seq<FunctionAST>, i: int) -> Seq<FunctionV>
    decreases fs.len() - i,
{
    if 0 <= i < fs.len() {
        seq![function_view(fs[i])] + functions_view(fs, i + 1)
    } else {
        Seq::empty()
    }
}

/// Appending an expression appends its view.
pub proof fn lemma_exprs_view_push(es: Seq<ExprAST>, e: ExprAST, i: int)
    requires
        0 <= i <= es.len(),
    ensures
        exprs_view(es.push(e), i) == exprs_view(es, i).push(expr_view(e)),
    decreases es.len() - i,
{
    if i < es.len() {
        lemma_exprs_view_push(es, e, i + 1);
        assert(es.push(e)[i] == es[i]);
        assert(seq![expr_view(es[i])] + exprs_view(es, i + 1).push(expr_view(e)) =~= (
        seq![expr_view(es[i])] + exprs_view(es, i + 1)).push(expr_view(e)));
    } else {
        assert(es.push(e)[i] == e);
        assert(exprs_view(es.push(e), i + 1) =~= Seq::<ExprV>::empty());
        assert(seq![expr_view(e)] + Seq::<ExprV>::empty() =~= exprs_view(es, i).push(
        expr_view(e)));
    }
}

/// Appending a function appends its view.
pub proof fn lemma_functions_view_push(fs: Seq<FunctionAST>, f: FunctionAST, i: int)
    requires
        0 <= i <= fs.len(),
    ensures
        functions_view(fs.push(f), i) == functions_view(fs, i).push(function_view(f)),
    decreases fs.len() - i,
{
    if i < fs.len() {
        lemma_functions_view_push(fs, f, i + 1);
        assert(fs.push(f)[i] == fs[i]);
        assert(seq![function_view(fs[i])] + functions_view(fs, i + 1).push(function_view(f)) =~= (
        seq![function_view(fs[i])] + functions_view(fs, i + 1)).push(function_view(f)));
    } else {
        assert(fs.push(f)[i] == f);
        assert(functions_view(fs.push(f), i + 1) =~= Seq::<FunctionV>::empty());
        assert(seq![function_view(f)] + Seq::<FunctionV>::empty() =~= functions_view(fs, i).push(
        function_view(f)));
    }
}

/// Appending a name appends its view.
pub proof fn lemma_names_view_push(ns: Seq<Vec<char>>, n: Vec<char>)
    ensures
        names_view(ns.push(n)) == names_view(ns).push(n@),
{
    let a = names_view(ns.push(n));
    let b = names_view(ns).push(n@);
    assert forall|k: int| 0 <= k < a.len() implies a[k] == b[k] by {
        if k < ns.len() {
            assert(ns.push(n)[k] == ns[k]);
        } else {
            assert(ns.push(n)[k] == n);
        }
    }
    assert(a =~= b);
}

/// The synthetic name a bare top-level expression is wrapped under.
pub open spec fn anon_name() -> Seq<char> {
    seq!['_', '_', 'a', 'n', 'o', 'n', '_', 'e', 'x', 'p', 'r']
}

/// The name a bare top-level expression is wrapped under.
pub fn anon_name_chars() -> (v: Vec<char>)
    ensures
        v@ == anon_name(),
{
    let mut v: Vec<char> = Vec::new();
    v.push('_');
    v.push('_');
    v.push('a');
    v.push('n');
    v.push('o');
    v.push('n');
    v.push('_');
    v.push('e');
    v.push('x');
    v.push('p');
    v.push('r');
    proof {
        assert(v@ =~= anon_name());
    }
    v
}

/// A well-formed expression: names are identifiers and not keywords,
/// literals are well-formed numerals, operators are characters the
/// precedence table knows. The parser only ever builds such expressions.
pub open spec fn wf_expr(e: ExprV) -> bool
    decreases e,
{
    match e {
        ExprV::Number(s) => is_number_word(s),
        ExprV::Variable(n) => is_ident_name(n),
        ExprV::Binop { op, lhs, rhs } => prec_of_char(op) >= 0 && wf_expr(*lhs) && wf_expr(*rhs),
        ExprV::Call { callee, args } => is_ident_name(callee) && wf_exprs(args, 0),
    }
}

/// All expressions of `args` from index `i` on are well formed.
pub open spec fn wf_exprs(args: Seq<ExprV>, i: int) -> bool
    decreases args, args.len() - i,
{
    if 0 <= i < args.len() {
        wf_expr(args[i]) && wf_exprs(args, i + 1)
    } else {
        true
    }
}

/// A well-formed function: either the anonymous wrapper of a bare top-level
/// expression, or a named function whose name and parameter names are
/// identifiers; in both cases with a well-formed body.
pub open spec fn wf_function(f: FunctionV) -> bool {
    &&& f.proto.name == anon_name() ==> f.proto.args.len() == 0
    &&& f.proto.name != anon_name() ==> is_ident_name(f.proto.name)
    &&& forall|k: int| 0 <= k < f.proto.args.len() ==> is_ident_name(#[trigger] f.proto.args[k])
    &&& wf_expr(f.body)
}

} // verus!
