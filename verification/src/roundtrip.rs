//! The round trip: serializing an AST to source text and parsing that text
//! again yields the same AST.
//!
//! The proof follows the two printing stages backwards. `lemma_lex_prints`
//! shows that the lexer turns the printed characters back into exactly the
//! printed tokens; the `lemma_rt_*` family shows that the parser turns the
//! printed tokens back into exactly the printed syntax tree.

use vstd::prelude::*;
use crate::chars::{is_ws, is_alpha, is_alnum, is_num_char};
use crate::token::{TokenV, is_def_word, is_ext_word, is_ident_name, is_number_word,
    digit_count, dot_count};
use crate::lexer::{LexOut, lex_from, lex_cons, word_token, punct_token, lemma_alnum_run_exact,
    lemma_num_run_exact, sound_token, lemma_lex_sound};
use crate::ast::{ExprV, ProtoV, FunctionV, anon_name, wf_expr, wf_exprs, wf_function};
use crate::parser::{PR, peek, prec_of_char, prec_at, nx, rem, sp_expect, sp_expect_id,
    sp_primary, sp_paren_expr, sp_identifier_expr, sp_call_args, sp_binop_rhs, sp_expression,
    sp_params, sp_prototype, sp_definition, sp_ext_decl, sp_top_level_expr, sp_parse,
    sentinel_body};
use crate::printer::{pt_expr, pt_args, pt_params, pt_function, pt_program, is_anon, token_chars,
    tokens_chars, program_source, printable_token};

verus! {

/// Splits the facts of "the suffix of `s` at `i` is `a` followed by `rest`"
/// into character-by-character equations.
proof fn lemma_suffix_split(s: Seq<char>, i: int, a: Seq<char>, rest: Seq<char>)
    requires
        0 <= i <= s.len(),
        s.subrange(i, s.len() as int) == a + rest,
    ensures
        i + a.len() + rest.len() == s.len(),
        forall|j: int| 0 <= j < a.len() ==> s[i + j] == #[trigger] a[j],
        s.subrange(i + a.len(), s.len() as int) == rest,
{
    assert(s.subrange(i, s.len() as int).len() == s.len() - i);
    assert forall|j: int| 0 <= j < a.len() implies s[i + j] == #[trigger] a[j] by {
        assert(s.subrange(i, s.len() as int)[j] == s[i + j]);
        assert((a + rest)[j] == a[j]);
    }
    let m = i + a.len();
    assert forall|j: int| 0 <= j < rest.len() implies s.subrange(m, s.len() as int)[j] == #[trigger] rest[j] by {
        assert(s.subrange(m, s.len() as int)[j] == s[m + j]);
        assert(s.subrange(i, s.len() as int)[a.len() + j] == s[i + (a.len() + j)]);
        assert((a + rest)[a.len() + j] == rest[j]);
    }
    assert(s.subrange(m, s.len() as int) =~= rest);
}

/// The lexer reads printed tokens back as themselves: scanning the spelling
/// of the printable tokens from `k` on yields those tokens followed by the
/// end-of-input token.
pub proof fn lemma_lex_prints(s: Seq<char>, ts: Seq<TokenV>, i: int, k: int)
    requires
        0 <= i <= s.len(),
        0 <= k <= ts.len(),
        s.subrange(i, s.len() as int) == tokens_chars(ts, k),
        forall|j: int| k <= j < ts.len() ==> printable_token(#[trigger] ts[j]),
    ensures
        lex_from(s, i) == LexOut::Toks(ts.subrange(k, ts.len() as int).push(TokenV::Eof)),
    decreases ts.len() - k,
{
    if k == ts.len() {
        assert(tokens_chars(ts, k) =~= Seq::<char>::empty());
        assert(s.subrange(i, s.len() as int).len() == 0);
        assert(ts.subrange(k, ts.len() as int).push(TokenV::Eof) =~= seq![TokenV::Eof]);
    } else {
        let t = ts[k];
        assert(printable_token(t));
        let hc = token_chars(t);
        let n = hc.len() as int;
        let a = hc.push(' ');
        let rest = tokens_chars(ts, k + 1);
        assert(tokens_chars(ts, k) == token_chars(ts[k]) + seq![' '] + tokens_chars(ts, k + 1));
        assert(s.subrange(i, s.len() as int) =~= a + rest);
        lemma_suffix_split(s, i, a, rest);
        assert(a[n] == ' ');
        assert(s[i + n] == ' ');
        assert(i + n < s.len());
        lemma_lex_prints(s, ts, i + n + 1, k + 1);
        let tail = LexOut::Toks(ts.subrange(k + 1, ts.len() as int).push(TokenV::Eof));
        assert(lex_from(s, i + n + 1) == tail);
        assert(is_ws(s[i + n]));
        assert(lex_from(s, i + n) == tail);
        match t {
            TokenV::Eof => {
                assert(false);
            },
            TokenV::Def => {
                assert(a[0] == 'd' && a[1] == 'e' && a[2] == 'f');
                assert(s[i] == 'd' && s[i + 1] == 'e' && s[i + 2] == 'f');
                assert(forall|j: int| i + 1 <= j < i + 3 ==> is_alnum(#[trigger] s[j]));
                assert(!is_alnum(s[i + 3]));
                lemma_alnum_run_exact(s, i + 1, 2);
                assert(s.subrange(i, i + 3) =~= seq!['d', 'e', 'f']);
                assert(word_token(s.subrange(i, i + 3)) == t);
                assert(lex_from(s, i) == lex_cons(t, lex_from(s, i + 3)));
            },
            TokenV::Ext => {
                assert(a[0] == 'e' && a[1] == 'x' && a[2] == 't' && a[3] == 'e' && a[4] == 'r'
                    && a[5] == 'n');
                assert(s[i] == 'e' && s[i + 1] == 'x' && s[i + 2] == 't' && s[i + 3] == 'e' && s[i
                    + 4] == 'r' && s[i + 5] == 'n');
                assert(forall|j: int| i + 1 <= j < i + 6 ==> is_alnum(#[trigger] s[j]));
                assert(!is_alnum(s[i + 6]));
                lemma_alnum_run_exact(s, i + 1, 5);
                assert(s.subrange(i, i + 6) =~= seq!['e', 'x', 't', 'e', 'r', 'n']);
                assert(!is_def_word(s.subrange(i, i + 6)));
                assert(is_ext_word(s.subrange(i, i + 6)));
                assert(word_token(s.subrange(i, i + 6)) == t);
                assert(lex_from(s, i) == lex_cons(t, lex_from(s, i + 6)));
            },
            TokenV::Identifier(nm) => {
                assert(is_ident_name(nm));
                assert(n == nm.len());
                assert(a[0] == nm[0]);
                assert(s[i] == nm[0]);
                assert(is_alpha(nm[0]));
                assert forall|j: int| i + 1 <= j < i + n implies is_alnum(#[trigger] s[j]) by {
                    let jj = j - i;
                    assert(a[jj] == nm[jj]);
                    assert(s[i + jj] == a[jj]);
                    assert(is_alnum(nm[jj]));
                }
                assert(!is_alnum(s[i + n]));
                lemma_alnum_run_exact(s, i + 1, n - 1);
                assert forall|jj: int| 0 <= jj < n implies s.subrange(i, i + n)[jj] == nm[jj] by {
                    assert(a[jj] == nm[jj]);
                    assert(s[i + jj] == a[jj]);
                }
                assert(s.subrange(i, i + n) =~= nm);
                assert(word_token(s.subrange(i, i + n)) == t);
                assert(lex_from(s, i) == lex_cons(t, lex_from(s, i + n)));
            },
            TokenV::Number(sv) => {
                assert(is_number_word(sv));
                assert(sv.len() >= 1) by {
                    if sv.len() == 0 {
                        assert(digit_count(sv) == 0);
                    }
                }
                assert(n == sv.len());
                assert(a[0] == sv[0]);
                assert(s[i] == sv[0]);
                assert(is_num_char(sv[0]));
                assert forall|j: int| i + 1 <= j < i + n implies is_num_char(#[trigger] s[j]) by {
                    let jj = j - i;
                    assert(a[jj] == sv[jj]);
                    assert(s[i + jj] == a[jj]);
                    assert(is_num_char(sv[jj]));
                }
                assert(!is_num_char(s[i + n]));
                lemma_num_run_exact(s, i + 1, n - 1);
                assert forall|jj: int| 0 <= jj < n implies s.subrange(i, i + n)[jj] == sv[jj] by {
                    assert(a[jj] == sv[jj]);
                    assert(s[i + jj] == a[jj]);
                }
                assert(s.subrange(i, i + n) =~= sv);
                assert(is_number_word(s.subrange(i, i + n)));
                assert(lex_from(s, i) == lex_cons(t, lex_from(s, i + n)));
            },
            TokenV::LParen => {
                assert(a[0] == '(');
                assert(s[i] == '(');
                assert(punct_token('(') == t);
                assert(lex_from(s, i) == lex_cons(t, lex_from(s, i + 1)));
            },
            TokenV::RParen => {
                assert(a[0] == ')');
                assert(s[i] == ')');
                assert(punct_token(')') == t);
                assert(lex_from(s, i) == lex_cons(t, lex_from(s, i + 1)));
            },
            TokenV::Comma => {
                assert(a[0] == ',');
                assert(s[i] == ',');
                assert(punct_token(',') == t);
                assert(lex_from(s, i) == lex_cons(t, lex_from(s, i + 1)));
            },
            TokenV::Semicolon => {
                assert(a[0] == ';');
                assert(s[i] == ';');
                assert(punct_token(';') == t);
                assert(lex_from(s, i) == lex_cons(t, lex_from(s, i + 1)));
            },
            TokenV::Other(c) => {
                assert(prec_of_char(c) >= 0);
                assert(c == '<' || c == '+' || c == '-' || c == '*');
                assert(a[0] == c);
                assert(s[i] == c);
                assert(punct_token(c) == t);
                assert(lex_from(s, i) == lex_cons(t, lex_from(s, i + 1)));
            },
        }
        assert(lex_from(s, i) == lex_cons(t, tail));
        assert(seq![t] + ts.subrange(k + 1, ts.len() as int).push(TokenV::Eof) =~= ts.subrange(
            k,
            ts.len() as int,
        ).push(TokenV::Eof));
    }
}

/// The printed tokens of an expression are never empty.
proof fn lemma_pt_expr_len(e: ExprV)
    ensures
        pt_expr(e).len() >= 1,
{
    match e {
        ExprV::Number(_) => {},
        ExprV::Variable(_) => {},
        ExprV::Binop { .. } => {},
        ExprV::Call { .. } => {},
    }
}

/// A printed expression starts with a numeral, an identifier or `(`.
proof fn lemma_pt_expr_first(e: ExprV)
    ensures
        pt_expr(e)[0] is Number || pt_expr(e) [0] is Identifier || pt_expr(e)[0] is LParen,
{
    match e {
        ExprV::Number(_) => {},
        ExprV::Variable(_) => {},
        ExprV::Binop { .. } => {},
        ExprV::Call { .. } => {},
    }
}

/// Token-by-token equations of a known subrange.
proof fn lemma_range_facts(toks: Seq<TokenV>, i: int, a: Seq<TokenV>)
    requires
        0 <= i,
        i + a.len() <= toks.len(),
        toks.subrange(i, i + a.len() as int) == a,
    ensures
        forall|j: int| 0 <= j < a.len() ==> toks[i + j] == #[trigger] a[j],
{
    assert forall|j: int| 0 <= j < a.len() implies toks[i + j] == #[trigger] a[j] by {
        assert(toks.subrange(i, i + a.len() as int)[j] == toks[i + j]);
    }
}

/// The parser reads a printed expression back as itself, as a primary
/// expression: parsing at the start of its tokens yields exactly the
/// expression and stops right after it, provided no `(` follows directly.
#[verifier::rlimit(60)]
proof fn lemma_rt_primary(toks: Seq<TokenV>, i: int, e: ExprV)
    requires
        wf_expr(e),
        0 <= i,
        i + pt_expr(e).len() <= toks.len(),
        toks.subrange(i, i + pt_expr(e).len() as int) == pt_expr(e),
        peek(toks, i + pt_expr(e).len() as int) != Some(TokenV::LParen),
    ensures
        sp_primary(toks, i) == (PR::<ExprV>::Parsed { v: e, next: i + pt_expr(e).len() }),
    decreases e, 0int,
{
    let pe = pt_expr(e);
    let n = pe.len() as int;
    lemma_range_facts(toks, i, pe);
    match e {
        ExprV::Number(sv) => {
            assert(toks[i] == pe[0]);
            assert(toks[i] == TokenV::Number(sv));
        },
        ExprV::Variable(nm) => {
            assert(toks[i] == pe[0]);
            assert(toks[i] == TokenV::Identifier(nm));
            assert(peek(toks, i + 1) != Some(TokenV::LParen));
        },
        ExprV::Binop { op, lhs, rhs } => {
            let ptl = pt_expr(*lhs);
            let ptr = pt_expr(*rhs);
            let nl = ptl.len() as int;
            let nr = ptr.len() as int;
            lemma_pt_expr_len(*lhs);
            lemma_pt_expr_len(*rhs);
            assert(pe == seq![TokenV::LParen] + ptl + seq![TokenV::Other(op)] + ptr + seq![
                TokenV::RParen,
            ]);
            assert(n == nl + nr + 3);
            assert(toks[i] == pe[0]);
            assert(toks[i] == TokenV::LParen);
            assert forall|jj: int| 0 <= jj < nl implies toks.subrange(i + 1, i + 1 + nl)[jj]
                == ptl[jj] by {
                assert(pe[1 + jj] == ptl[jj]);
                assert(toks[i + (1 + jj)] == pe[1 + jj]);
                assert(toks.subrange(i + 1, i + 1 + nl)[jj] == toks[i + 1 + jj]);
            }
            assert(toks.subrange(i + 1, i + 1 + nl) =~= ptl);
            assert(pe[1 + nl] == TokenV::Other(op));
            assert(toks[i + 1 + nl] == TokenV::Other(op));
            assert forall|jj: int| 0 <= jj < nr implies toks.subrange(
                i + 2 + nl,
                i + 2 + nl + nr,
            )[jj] == ptr[jj] by {
                assert(pe[2 + nl + jj] == ptr[jj]);
                assert(toks[i + (2 + nl + jj)] == pe[2 + nl + jj]);
                assert(toks.subrange(i + 2 + nl, i + 2 + nl + nr)[jj] == toks[i + 2 + nl + jj]);
            }
            assert(toks.subrange(i + 2 + nl, i + 2 + nl + nr) =~= ptr);
            assert(pe[n - 1] == TokenV::RParen);
            assert(toks[i + (n - 1)] == pe[n - 1]);
            let j1 = i + 1 + nl;
            let j2 = i + 2 + nl + nr;
            assert(j2 == i + n - 1);
            assert(toks[j2] == TokenV::RParen);
            assert(peek(toks, j1) == Some(TokenV::Other(op)));
            lemma_rt_primary(toks, i + 1, *lhs);
            assert(sp_primary(toks, i + 1) == (PR::<ExprV>::Parsed { v: *lhs, next: j1 }));
            assert(peek(toks, j2) == Some(TokenV::RParen));
            lemma_rt_primary(toks, j1 + 1, *rhs);
            assert(sp_primary(toks, j1 + 1) == (PR::<ExprV>::Parsed { v: *rhs, next: j2 }));
            assert(prec_at(toks, j1) == prec_of_char(op));
            assert(prec_of_char(op) >= 0);
            assert(prec_at(toks, j2) == -1);
            reveal_with_fuel(sp_binop_rhs, 3);
            assert(sp_binop_rhs(toks, j2, 0, e) == (PR::<ExprV>::Parsed { v: e, next: j2 }));
            assert(e == ExprV::Binop { op, lhs: Box::new(*lhs), rhs: Box::new(*rhs) });
            assert(sp_binop_rhs(toks, j1, 0, *lhs) == (PR::<ExprV>::Parsed { v: e, next: j2 }));
            assert(sp_expression(toks, i + 1) == (PR::<ExprV>::Parsed { v: e, next: j2 }));
            assert(sp_paren_expr(toks, i) == (PR::<ExprV>::Parsed { v: e, next: i + n }));
            assert(peek(toks, i) == Some(TokenV::LParen));
        },
        ExprV::Call { callee, args } => {
            let pa = pt_args(args, 0);
            let na = pa.len() as int;
            assert(pe == seq![TokenV::Identifier(callee), TokenV::LParen] + pa + seq![
                TokenV::RParen,
            ]);
            assert(n == na + 3);
            assert(toks[i] == pe[0]);
            assert(toks[i] == TokenV::Identifier(callee));
            assert(toks[i + 1] == pe[1]);
            assert(toks[i + 1] == TokenV::LParen);
            assert(pe[n - 1] == TokenV::RParen);
            assert(toks[i + (n - 1)] == pe[n - 1]);
            assert(peek(toks, i + 1) == Some(TokenV::LParen));
            if args.len() == 0 {
                assert(pa =~= Seq::<TokenV>::empty());
                assert(n == 3);
                assert(toks[i + 2] == TokenV::RParen);
                assert(peek(toks, i + 2) == Some(TokenV::RParen));
                assert(args =~= Seq::<ExprV>::empty());
                assert(sp_identifier_expr(toks, i) == (PR::<ExprV>::Parsed {
                    v: e,
                    next: i + 3,
                }));
            } else {
                assert forall|jj: int| 0 <= jj < na implies toks.subrange(i + 2, i + 2 + na)[jj]
                    == pa[jj] by {
                    assert(pe[2 + jj] == pa[jj]);
                    assert(toks[i + (2 + jj)] == pe[2 + jj]);
                    assert(toks.subrange(i + 2, i + 2 + na)[jj] == toks[i + 2 + jj]);
                }
                assert(toks.subrange(i + 2, i + 2 + na) =~= pa);
                assert(wf_exprs(args, 0));
                assert(pt_args(args, 0)[0] == pt_expr(args[0])[0]);
                lemma_pt_expr_first(args[0]);
                lemma_pt_expr_len(args[0]);
                assert(toks[i + 2] == pa[0]);
                assert(peek(toks, i + 2) != Some(TokenV::RParen));
                assert(toks[i + 2 + na] == TokenV::RParen);
                lemma_rt_args(toks, i + 2, args, 0, Seq::empty());
                assert(Seq::empty() + args.subrange(0, args.len() as int) =~= args);
                assert(sp_call_args(toks, i + 2, Seq::empty()) == (PR::<Seq<ExprV>>::Parsed {
                    v: args,
                    next: i + 2 + na + 1,
                }));
                assert(sp_identifier_expr(toks, i) == (PR::<ExprV>::Parsed { v: e, next: i + n }));
            }
        },
    }
}

/// The parser reads a printed argument list back as itself: each printed
/// argument in order, up to the closing parenthesis.
proof fn lemma_rt_args(toks: Seq<TokenV>, i: int, args: Seq<ExprV>, k: int, acc: Seq<ExprV>)
    requires
        wf_exprs(args, k),
        0 <= k < args.len(),
        0 <= i,
        i + pt_args(args, k).len() < toks.len(),
        toks.subrange(i, i + pt_args(args, k).len() as int) == pt_args(args, k),
        toks[i + pt_args(args, k).len() as int] == TokenV::RParen,
    ensures
        sp_call_args(toks, i, acc) == (PR::<Seq<ExprV>>::Parsed {
            v: acc + args.subrange(k, args.len() as int),
            next: i + pt_args(args, k).len() + 1,
        }),
    decreases args, args.len() - k,
{
    let pa = pt_args(args, k);
    let na = pa.len() as int;
    let ek = args[k];
    let pe = pt_expr(ek);
    let ne = pe.len() as int;
    lemma_pt_expr_len(ek);
    assert(wf_expr(ek));
    if k == args.len() - 1 {
        assert(pa == pe);
        assert(toks[i + ne] == TokenV::RParen);
        assert(peek(toks, i + ne) == Some(TokenV::RParen));
        lemma_rt_primary(toks, i, ek);
        assert(prec_at(toks, i + ne) == -1);
        assert(sp_binop_rhs(toks, i + ne, 0, ek) == (PR::<ExprV>::Parsed { v: ek, next: i + ne }));
        assert(sp_expression(toks, i) == (PR::<ExprV>::Parsed { v: ek, next: i + ne }));
        assert(acc.push(ek) =~= acc + args.subrange(k, args.len() as int));
        assert(sp_call_args(toks, i, acc) == (PR::<Seq<ExprV>>::Parsed {
            v: acc.push(ek),
            next: i + ne + 1,
        }));
    } else {
        let pr = pt_args(args, k + 1);
        let nr = pr.len() as int;
        assert(pa == pe + seq![TokenV::Comma] + pr);
        assert(na == ne + 1 + nr);
        lemma_range_facts(toks, i, pa);
        assert forall|jj: int| 0 <= jj < ne implies toks.subrange(i, i + ne)[jj] == pe[jj] by {
            assert(pa[jj] == pe[jj]);
            assert(toks[i + jj] == pa[jj]);
            assert(toks.subrange(i, i + ne)[jj] == toks[i + jj]);
        }
        assert(toks.subrange(i, i + ne) =~= pe);
        assert(pa[ne] == TokenV::Comma);
        assert(toks[i + ne] == TokenV::Comma);
        assert forall|jj: int| 0 <= jj < nr implies toks.subrange(i + ne + 1, i + na)[jj]
            == pr[jj] by {
            assert(pa[ne + 1 + jj] == pr[jj]);
            assert(toks[i + (ne + 1 + jj)] == pa[ne + 1 + jj]);
            assert(toks.subrange(i + ne + 1, i + na)[jj] == toks[i + ne + 1 + jj]);
        }
        assert(toks.subrange(i + ne + 1, i + na) =~= pr);
        assert(peek(toks, i + ne) == Some(TokenV::Comma));
        lemma_rt_primary(toks, i, ek);
        assert(prec_at(toks, i + ne) == -1);
        assert(sp_binop_rhs(toks, i + ne, 0, ek) == (PR::<ExprV>::Parsed { v: ek, next: i + ne }));
        assert(sp_expression(toks, i) == (PR::<ExprV>::Parsed { v: ek, next: i + ne }));
        let k2 = i + ne + 1;
        assert(pr[0] == pt_expr(args[k + 1])[0]);
        lemma_pt_expr_first(args[k + 1]);
        lemma_pt_expr_len(args[k + 1]);
        assert(toks[k2] == pr[0]);
        assert(peek(toks, k2) != Some(TokenV::RParen));
        assert(toks[k2 + nr] == TokenV::RParen);
        lemma_rt_args(toks, k2, args, k + 1, acc.push(ek));
        assert(acc.push(ek) + args.subrange(k + 1, args.len() as int) =~= acc + args.subrange(
            k,
            args.len() as int,
        ));
        assert(sp_call_args(toks, i, acc) == sp_call_args(toks, k2, acc.push(ek)));
    }
}

/// The parser reads a printed expression back as itself, as a whole
/// expression, when the token after it neither opens a call nor is an
/// operator.
proof fn lemma_rt_expression(toks: Seq<TokenV>, i: int, e: ExprV)
    requires
        wf_expr(e),
        0 <= i,
        i + pt_expr(e).len() <= toks.len(),
        toks.subrange(i, i + pt_expr(e).len() as int) == pt_expr(e),
        peek(toks, i + pt_expr(e).len() as int) != Some(TokenV::LParen),
        prec_at(toks, i + pt_expr(e).len() as int) < 0,
    ensures
        sp_expression(toks, i) == (PR::<ExprV>::Parsed { v: e, next: i + pt_expr(e).len() }),
{
    let m = i + pt_expr(e).len() as int;
    lemma_pt_expr_len(e);
    lemma_rt_primary(toks, i, e);
    assert(sp_binop_rhs(toks, m, 0, e) == (PR::<ExprV>::Parsed { v: e, next: m }));
}

/// Printed parameter lists have one token per name.
proof fn lemma_pt_params_len(ps: Seq<Seq<char>>, k: int)
    requires
        0 <= k <= ps.len(),
    ensures
        pt_params(ps, k).len() == ps.len() - k,
    decreases ps.len() - k,
{
    if k < ps.len() {
        lemma_pt_params_len(ps, k + 1);
    }
}

/// The parser reads printed parameter names back as themselves, up to the
/// closing parenthesis.
proof fn lemma_rt_params(toks: Seq<TokenV>, i: int, ps: Seq<Seq<char>>, k: int, acc: Seq<Seq<char>>)
    requires
        0 <= k <= ps.len(),
        0 <= i,
        i + (ps.len() - k) < toks.len(),
        toks.subrange(i, i + (ps.len() - k)) == pt_params(ps, k),
        toks[i + (ps.len() - k)] == TokenV::RParen,
    ensures
        sp_params(toks, i, acc) == (PR::<Seq<Seq<char>>>::Parsed {
            v: acc + ps.subrange(k, ps.len() as int),
            next: i + (ps.len() - k) + 1,
        }),
    decreases ps.len() - k,
{
    lemma_pt_params_len(ps, k);
    if k == ps.len() {
        assert(peek(toks, i) == Some(TokenV::RParen));
        assert(acc + ps.subrange(k, ps.len() as int) =~= acc);
    } else {
        let pp = pt_params(ps, k);
        lemma_range_facts(toks, i, pp);
        assert(pp[0] == TokenV::Identifier(ps[k]));
        assert(toks[i + 0] == pp[0]);
        assert(peek(toks, i) == Some(TokenV::Identifier(ps[k])));
        lemma_pt_params_len(ps, k + 1);
        assert forall|jj: int| 0 <= jj < ps.len() - (k + 1) implies toks.subrange(
            i + 1,
            i + 1 + (ps.len() - (k + 1)),
        )[jj] == #[trigger] pt_params(ps, k + 1)[jj] by {
            assert(pp[1 + jj] == pt_params(ps, k + 1)[jj]);
            assert(toks[i + (1 + jj)] == pp[1 + jj]);
            assert(toks.subrange(i + 1, i + 1 + (ps.len() - (k + 1)))[jj] == toks[i + 1 + jj]);
        }
        assert(toks.subrange(i + 1, i + 1 + (ps.len() - (k + 1))) =~= pt_params(ps, k + 1));
        lemma_rt_params(toks, i + 1, ps, k + 1, acc.push(ps[k]));
        assert(acc.push(ps[k]) + ps.subrange(k + 1, ps.len() as int) =~= acc + ps.subrange(
            k,
            ps.len() as int,
        ));
    }
}

/// Splits the facts of "the suffix of `toks` at `i` is `a` followed by
/// `rest`" into token-by-token equations.
proof fn lemma_suffix_split_toks(toks: Seq<TokenV>, i: int, a: Seq<TokenV>, rest: Seq<TokenV>)
    requires
        0 <= i <= toks.len(),
        toks.subrange(i, toks.len() as int) == a + rest,
    ensures
        i + a.len() + rest.len() == toks.len(),
        forall|j: int| 0 <= j < a.len() ==> toks[i + j] == #[trigger] a[j],
        toks.subrange(i + a.len(), toks.len() as int) == rest,
{
    assert(toks.subrange(i, toks.len() as int).len() == toks.len() - i);
    assert forall|j: int| 0 <= j < a.len() implies toks[i + j] == #[trigger] a[j] by {
        assert(toks.subrange(i, toks.len() as int)[j] == toks[i + j]);
        assert((a + rest)[j] == a[j]);
    }
    let m = i + a.len();
    assert forall|j: int| 0 <= j < rest.len() implies toks.subrange(m, toks.len() as int)[j]
        == #[trigger] rest[j] by {
        assert(toks.subrange(m, toks.len() as int)[j] == toks[m + j]);
        assert(toks.subrange(i, toks.len() as int)[a.len() + j] == toks[i + (a.len() + j)]);
        assert((a + rest)[a.len() + j] == rest[j]);
    }
    assert(toks.subrange(m, toks.len() as int) =~= rest);
}

/// One driver step: a printed function at `i` is parsed as that function
/// and the driver continues right after its closing semicolon. The wrapper
/// of a bare top-level expression.
#[verifier::rlimit(50)]
proof fn lemma_rt_function_anon(toks: Seq<TokenV>, i: int, f: FunctionV, acc: Seq<FunctionV>)
    requires
        wf_function(f),
        is_anon(f),
        0 <= i,
        i + pt_function(f).len() <= toks.len(),
        toks.subrange(i, i + pt_function(f).len() as int) == pt_function(f),
    ensures
        sp_parse(toks, i, acc) == sp_parse(toks, i + pt_function(f).len(), acc.push(f)),
{
    let pf = pt_function(f);
    let nf = pf.len() as int;
    lemma_range_facts(toks, i, pf);
    let pb = pt_expr(f.body);
    let nb = pb.len() as int;
    lemma_pt_expr_len(f.body);
    assert(pf == pb + seq![TokenV::Semicolon]);
    assert(nf == nb + 1);
    assert forall|jj: int| 0 <= jj < nb implies toks.subrange(i, i + nb)[jj] == pb[jj] by {
        assert(pf[jj] == pb[jj]);
        assert(toks[i + jj] == pf[jj]);
        assert(toks.subrange(i, i + nb)[jj] == toks[i + jj]);
    }
    assert(toks.subrange(i, i + nb) =~= pb);
    assert(pf[nb] == TokenV::Semicolon);
    assert(toks[i + nb] == TokenV::Semicolon);
    assert(peek(toks, i + nb) == Some(TokenV::Semicolon));
    lemma_rt_expression(toks, i, f.body);
    assert(pb[0] == pt_expr(f.body)[0]);
    lemma_pt_expr_first(f.body);
    assert(toks[i + 0] == pf[0]);
    assert(toks[i] == pb[0]);
    assert(peek(toks, i) == Some(pb[0]));
    assert(sp_top_level_expr(toks, i) == (PR::<FunctionV>::Parsed {
        v: FunctionV { proto: ProtoV { name: anon_name(), args: Seq::empty() }, body: f.body },
        next: i + nb,
    }));
    assert(f.proto.args.len() == 0);
    assert(f.proto.args =~= Seq::<Seq<char>>::empty());
    assert(f.proto == ProtoV { name: anon_name(), args: Seq::empty() });
    assert(f == FunctionV {
        proto: ProtoV { name: anon_name(), args: Seq::empty() },
        body: f.body,
    });
    reveal_with_fuel(sp_parse, 3);
    assert(sp_parse(toks, i, acc) == sp_parse(toks, nx(i, i + nb), acc.push(f)));
    assert(nx(i, i + nb) == i + nb);
    assert(sp_parse(toks, i + nb, acc.push(f)) == sp_parse(toks, i + nb + 1, acc.push(f)));
}

/// One driver step, for a named function: `def`, the prototype, the body.
#[verifier::rlimit(50)]
proof fn lemma_rt_function_named(toks: Seq<TokenV>, i: int, f: FunctionV, acc: Seq<FunctionV>)
    requires
        wf_function(f),
        !is_anon(f),
        0 <= i,
        i + pt_function(f).len() <= toks.len(),
        toks.subrange(i, i + pt_function(f).len() as int) == pt_function(f),
    ensures
        sp_parse(toks, i, acc) == sp_parse(toks, i + pt_function(f).len(), acc.push(f)),
{
    let pf = pt_function(f);
    let nf = pf.len() as int;
    lemma_range_facts(toks, i, pf);
    let pb = pt_expr(f.body);
    let nb = pb.len() as int;
    lemma_pt_expr_len(f.body);
    let name = f.proto.name;
    let ps = f.proto.args;
    let np = ps.len() as int;
    lemma_pt_params_len(ps, 0);
    assert(pf == seq![TokenV::Def, TokenV::Identifier(name), TokenV::LParen] + pt_params(ps, 0)
        + seq![TokenV::RParen] + pb + seq![TokenV::Semicolon]);
    assert(nf == 3 + np + 1 + nb + 1);
    assert(toks[i + 0] == pf[0]);
    assert(toks[i] == TokenV::Def);
    assert(toks[i + 1] == pf[1]);
    assert(toks[i + 1] == TokenV::Identifier(name));
    assert(toks[i + 2] == pf[2]);
    assert(toks[i + 2] == TokenV::LParen);
    assert forall|jj: int| 0 <= jj < np implies toks.subrange(i + 3, i + 3 + np)[jj]
        == #[trigger] pt_params(ps, 0)[jj] by {
        assert(pf[3 + jj] == pt_params(ps, 0)[jj]);
        assert(toks[i + (3 + jj)] == pf[3 + jj]);
        assert(toks.subrange(i + 3, i + 3 + np)[jj] == toks[i + 3 + jj]);
    }
    assert(toks.subrange(i + 3, i + 3 + np) =~= pt_params(ps, 0));
    assert(pf[3 + np] == TokenV::RParen);
    assert(toks[i + (3 + np)] == pf[3 + np]);
    assert(toks[i + 3 + np] == TokenV::RParen);
    let q = i + 4 + np;
    assert forall|jj: int| 0 <= jj < nb implies toks.subrange(q, q + nb)[jj] == pb[jj] by {
        assert(pf[4 + np + jj] == pb[jj]);
        assert(toks[i + (4 + np + jj)] == pf[4 + np + jj]);
        assert(toks.subrange(q, q + nb)[jj] == toks[q + jj]);
    }
    assert(toks.subrange(q, q + nb) =~= pb);
    assert(pf[nf - 1] == TokenV::Semicolon);
    assert(toks[i + (nf - 1)] == pf[nf - 1]);
    assert(toks[q + nb] == TokenV::Semicolon);
    assert(peek(toks, q + nb) == Some(TokenV::Semicolon));
    assert(peek(toks, i) == Some(TokenV::Def));
    assert(sp_expect(toks, i, TokenV::Def) == (PR::<()>::Parsed { v: (), next: i + 1 }));
    assert(sp_expect_id(toks, i + 1) == (PR::<Seq<char>>::Parsed { v: name, next: i + 2 }));
    assert(sp_expect(toks, i + 2, TokenV::LParen) == (PR::<()>::Parsed { v: (), next: i + 3 }));
    lemma_rt_params(toks, i + 3, ps, 0, Seq::empty());
    assert(Seq::empty() + ps.subrange(0, ps.len() as int) =~= ps);
    assert(sp_params(toks, i + 3, Seq::empty()) == (PR::<Seq<Seq<char>>>::Parsed {
        v: ps,
        next: q,
    }));
    assert(sp_prototype(toks, i + 1) == (PR::<ProtoV>::Parsed {
        v: ProtoV { name, args: ps },
        next: q,
    }));
    lemma_rt_expression(toks, q, f.body);
    assert(sp_expression(toks, q) == (PR::<ExprV>::Parsed { v: f.body, next: q + nb }));
    assert(f.proto == ProtoV { name, args: ps });
    assert(f == FunctionV { proto: ProtoV { name, args: ps }, body: f.body });
    assert(sp_definition(toks, i) == (PR::<FunctionV>::Parsed { v: f, next: q + nb }));
    reveal_with_fuel(sp_parse, 3);
    assert(sp_parse(toks, i, acc) == sp_parse(toks, nx(i, q + nb), acc.push(f)));
    assert(nx(i, q + nb) == q + nb);
    assert(sp_parse(toks, q + nb, acc.push(f)) == sp_parse(toks, q + nb + 1, acc.push(f)));
    assert(q + nb + 1 == i + nf);
}

/// The parser reads a printed program back as itself: every function in
/// order, up to the end-of-input token.
proof fn lemma_rt_program(toks: Seq<TokenV>, fs: Seq<FunctionV>, k: int, i: int, acc: Seq<
    FunctionV,
>)
    requires
        forall|j: int| k <= j < fs.len() ==> wf_function(#[trigger] fs[j]),
        0 <= k <= fs.len(),
        0 <= i <= toks.len(),
        toks.subrange(i, toks.len() as int) == pt_program(fs, k) + seq![TokenV::Eof],
    ensures
        sp_parse(toks, i, acc) == Ok::<Seq<FunctionV>, crate::parser::ParseErrorV>(
            acc + fs.subrange(k, fs.len() as int),
        ),
    decreases fs.len() - k,
{
    if k == fs.len() {
        assert(pt_program(fs, k) + seq![TokenV::Eof] =~= seq![TokenV::Eof]);
        assert(toks.subrange(i, toks.len() as int).len() == 1);
        assert(i + 1 == toks.len());
        assert(toks.subrange(i, toks.len() as int)[0] == toks[i]);
        assert(toks[i] == TokenV::Eof);
        assert(peek(toks, i) == Some(TokenV::Eof));
        assert(acc + fs.subrange(k, fs.len() as int) =~= acc);
    } else {
        let f = fs[k];
        assert(wf_function(f));
        let pf = pt_function(f);
        let nf = pf.len() as int;
        let rest = pt_program(fs, k + 1) + seq![TokenV::Eof];
        assert(pt_program(fs, k) + seq![TokenV::Eof] =~= pf + rest);
        lemma_suffix_split_toks(toks, i, pf, rest);
        assert forall|jj: int| 0 <= jj < nf implies toks.subrange(i, i + nf)[jj] == pf[jj] by {
            assert(toks[i + jj] == pf[jj]);
            assert(toks.subrange(i, i + nf)[jj] == toks[i + jj]);
        }
        assert(toks.subrange(i, i + nf) =~= pf);
        if is_anon(f) {
            lemma_rt_function_anon(toks, i, f, acc);
        } else {
            lemma_rt_function_named(toks, i, f, acc);
        }
        lemma_rt_program(toks, fs, k + 1, i + nf, acc.push(f));
        assert(acc.push(f) + fs.subrange(k + 1, fs.len() as int) =~= acc + fs.subrange(
            k,
            fs.len() as int,
        ));
    }
}

/// Every token of a printed well-formed expression is printable.
proof fn lemma_pt_expr_printable(e: ExprV)
    requires
        wf_expr(e),
    ensures
        forall|j: int| 0 <= j < pt_expr(e).len() ==> printable_token(#[trigger] pt_expr(e)[j]),
    decreases e, 0int,
{
    let pe = pt_expr(e);
    match e {
        ExprV::Number(_) => {},
        ExprV::Variable(_) => {},
        ExprV::Binop { op, lhs, rhs } => {
            lemma_pt_expr_printable(*lhs);
            lemma_pt_expr_printable(*rhs);
            let ptl = pt_expr(*lhs);
            let ptr = pt_expr(*rhs);
            let nl = ptl.len() as int;
            let nr = ptr.len() as int;
            assert forall|j: int| 0 <= j < pe.len() implies printable_token(#[trigger] pe[j]) by {
                if j == 0 {
                    assert(pe[j] == TokenV::LParen);
                } else if j < 1 + nl {
                    assert(pe[j] == ptl[j - 1]);
                    assert(printable_token(ptl[j - 1]));
                } else if j == 1 + nl {
                    assert(pe[j] == TokenV::Other(op));
                } else if j < 2 + nl + nr {
                    assert(pe[j] == ptr[j - 2 - nl]);
                    assert(printable_token(ptr[j - 2 - nl]));
                } else {
                    assert(pe[j] == TokenV::RParen);
                }
            }
        },
        ExprV::Call { callee, args } => {
            lemma_pt_args_printable(args, 0);
            let pa = pt_args(args, 0);
            let na = pa.len() as int;
            assert forall|j: int| 0 <= j < pe.len() implies printable_token(#[trigger] pe[j]) by {
                if j == 0 {
                    assert(pe[j] == TokenV::Identifier(callee));
                } else if j == 1 {
                    assert(pe[j] == TokenV::LParen);
                } else if j < 2 + na {
                    assert(pe[j] == pa[j - 2]);
                    assert(printable_token(pa[j - 2]));
                } else {
                    assert(pe[j] == TokenV::RParen);
                }
            }
        },
    }
}

/// Every token of a printed well-formed argument list is printable.
proof fn lemma_pt_args_printable(args: Seq<ExprV>, k: int)
    requires
        wf_exprs(args, k),
    ensures
        forall|j: int|
            0 <= j < pt_args(args, k).len() ==> printable_token(#[trigger] pt_args(args, k)[j]),
    decreases args, args.len() - k,
{
    if !(0 <= k < args.len()) {
    } else if k == args.len() - 1 {
        lemma_pt_expr_printable(args[k]);
        assert forall|j: int| 0 <= j < pt_args(args, k).len() implies printable_token(
            #[trigger] pt_args(args, k)[j],
        ) by {
            assert(pt_args(args, k)[j] == pt_expr(args[k])[j]);
            assert(printable_token(pt_expr(args[k])[j]));
        }
    } else {
        lemma_pt_expr_printable(args[k]);
        lemma_pt_args_printable(args, k + 1);
        let pa = pt_args(args, k);
        let pe = pt_expr(args[k]);
        let ne = pe.len() as int;
        let pr = pt_args(args, k + 1);
        assert forall|j: int| 0 <= j < pa.len() implies printable_token(#[trigger] pa[j]) by {
            if j < ne {
                assert(pa[j] == pe[j]);
                assert(printable_token(pe[j]));
            } else if j == ne {
                assert(pa[j] == TokenV::Comma);
            } else {
                assert(pa[j] == pr[j - ne - 1]);
                assert(printable_token(pr[j - ne - 1]));
            }
        }
    }
}

/// Every token of a printed parameter list of identifiers is printable.
proof fn lemma_pt_params_printable(ps: Seq<Seq<char>>, k: int)
    requires
        forall|j: int| 0 <= j < ps.len() ==> is_ident_name(#[trigger] ps[j]),
        0 <= k <= ps.len(),
    ensures
        forall|j: int|
            0 <= j < pt_params(ps, k).len() ==> printable_token(#[trigger] pt_params(ps, k)[j]),
    decreases ps.len() - k,
{
    if k < ps.len() {
        lemma_pt_params_printable(ps, k + 1);
        let pp = pt_params(ps, k);
        let pr = pt_params(ps, k + 1);
        assert forall|j: int| 0 <= j < pp.len() implies printable_token(#[trigger] pp[j]) by {
            if j == 0 {
                assert(pp[j] == TokenV::Identifier(ps[k]));
            } else {
                assert(pp[j] == pr[j - 1]);
                assert(printable_token(pr[j - 1]));
            }
        }
    }
}

/// Every token of a printed well-formed function is printable.
proof fn lemma_pt_function_printable(f: FunctionV)
    requires
        wf_function(f),
    ensures
        forall|j: int|
            0 <= j < pt_function(f).len() ==> printable_token(#[trigger] pt_function(f)[j]),
{
    let pf = pt_function(f);
    lemma_pt_expr_printable(f.body);
    let pb = pt_expr(f.body);
    let nb = pb.len() as int;
    if is_anon(f) {
        assert forall|j: int| 0 <= j < pf.len() implies printable_token(#[trigger] pf[j]) by {
            if j < nb {
                assert(pf[j] == pb[j]);
                assert(printable_token(pb[j]));
            } else {
                assert(pf[j] == TokenV::Semicolon);
            }
        }
    } else {
        let ps = f.proto.args;
        let np = ps.len() as int;
        lemma_pt_params_len(ps, 0);
        lemma_pt_params_printable(ps, 0);
        let pp = pt_params(ps, 0);
        assert forall|j: int| 0 <= j < pf.len() implies printable_token(#[trigger] pf[j]) by {
            if j == 0 {
                assert(pf[j] == TokenV::Def);
            } else if j == 1 {
                assert(pf[j] == TokenV::Identifier(f.proto.name));
            } else if j == 2 {
                assert(pf[j] == TokenV::LParen);
            } else if j < 3 + np {
                assert(pf[j] == pp[j - 3]);
                assert(printable_token(pp[j - 3]));
            } else if j == 3 + np {
                assert(pf[j] == TokenV::RParen);
            } else if j < 4 + np + nb {
                assert(pf[j] == pb[j - 4 - np]);
                assert(printable_token(pb[j - 4 - np]));
            } else {
                assert(pf[j] == TokenV::Semicolon);
            }
        }
    }
}

/// Every token of a printed well-formed program is printable.
proof fn lemma_pt_program_printable(fs: Seq<FunctionV>, k: int)
    requires
        forall|j: int| 0 <= j < fs.len() ==> wf_function(#[trigger] fs[j]),
        0 <= k <= fs.len(),
    ensures
        forall|j: int|
            0 <= j < pt_program(fs, k).len() ==> printable_token(#[trigger] pt_program(fs, k)[j]),
    decreases fs.len() - k,
{
    if k < fs.len() {
        lemma_pt_function_printable(fs[k]);
        lemma_pt_program_printable(fs, k + 1);
        let pp = pt_program(fs, k);
        let pf = pt_function(fs[k]);
        let nf = pf.len() as int;
        let pr = pt_program(fs, k + 1);
        assert forall|j: int| 0 <= j < pp.len() implies printable_token(#[trigger] pp[j]) by {
            if j < nf {
                assert(pp[j] == pf[j]);
                assert(printable_token(pf[j]));
            } else {
                assert(pp[j] == pr[j - nf]);
                assert(printable_token(pr[j - nf]));
            }
        }
    }
}

/// All tokens of a sequence are sound in the lexer's sense.
spec fn all_sound(toks: Seq<TokenV>) -> bool {
    forall|j: int| 0 <= j < toks.len() ==> sound_token(#[trigger] toks[j])
}

/// Well-formedness of an expression sequence from an index on is the same
/// as well-formedness of each element from that index on.
proof fn lemma_wf_exprs_iff(es: Seq<ExprV>, k: int)
    requires
        0 <= k <= es.len(),
    ensures
        wf_exprs(es, k) <==> (forall|j: int| k <= j < es.len() ==> wf_expr(#[trigger] es[j])),
    decreases es.len() - k,
{
    if k < es.len() {
        lemma_wf_exprs_iff(es, k + 1);
    }
}

/// An identifier never spells the synthetic anonymous name, whose first
/// character is no letter.
proof fn lemma_ident_not_anon(n: Seq<char>)
    requires
        is_ident_name(n),
    ensures
        n != anon_name(),
{
    assert(anon_name()[0] == '_');
    assert(is_alpha(n[0]));
    if n == anon_name() {
        assert(n[0] == '_');
    }
}

/// The placeholder body of a foreign declaration is well formed.
proof fn lemma_sentinel_wf()
    ensures
        wf_expr(sentinel_body()),
{
    let s = seq!['0'];
    assert(s.drop_last() =~= Seq::<char>::empty());
    assert(digit_count(Seq::<char>::empty()) == 0);
    assert(dot_count(Seq::<char>::empty()) == 0);
    assert(s.last() == '0');
    assert(digit_count(s) == 1);
    assert(dot_count(s) == 0);
    assert(is_number_word(s));
}

/// A parsed primary expression is well formed, on sound tokens.
proof fn lemma_sound_primary(toks: Seq<TokenV>, i: int)
    requires
        all_sound(toks),
    ensures
        sp_primary(toks, i) matches PR::Parsed { v, .. } ==> wf_expr(v),
    decreases rem(toks, i), 2int,
{
    match peek(toks, i) {
        Some(TokenV::Identifier(_)) => {
            lemma_sound_identifier_expr(toks, i);
        },
        Some(TokenV::Number(sv)) => {
            assert(sound_token(toks[i]));
        },
        Some(TokenV::LParen) => {
            lemma_sound_paren_expr(toks, i);
        },
        _ => {},
    }
}

/// A parsed parenthesized expression is well formed, on sound tokens.
proof fn lemma_sound_paren_expr(toks: Seq<TokenV>, i: int)
    requires
        all_sound(toks),
    ensures
        sp_paren_expr(toks, i) matches PR::Parsed { v, .. } ==> wf_expr(v),
    decreases rem(toks, i), 1int,
{
    match sp_expect(toks, i, TokenV::LParen) {
        PR::Parsed { .. } => {
            lemma_sound_expression(toks, i + 1);
        },
        PR::Failed(_) => {},
    }
}

/// A parsed identifier expression is well formed, on sound tokens.
proof fn lemma_sound_identifier_expr(toks: Seq<TokenV>, i: int)
    requires
        all_sound(toks),
    ensures
        sp_identifier_expr(toks, i) matches PR::Parsed { v, .. } ==> wf_expr(v),
    decreases rem(toks, i), 1int,
{
    match sp_expect_id(toks, i) {
        PR::Parsed { v: name, next: j } => {
            assert(sound_token(toks[i]));
            assert(is_ident_name(name));
            if peek(toks, j) != Some(TokenV::LParen) {
            } else if peek(toks, j + 1) == Some(TokenV::RParen) {
                assert(wf_exprs(Seq::<ExprV>::empty(), 0));
            } else {
                assert(wf_exprs(Seq::<ExprV>::empty(), 0));
                lemma_sound_call_args(toks, j + 1, Seq::empty());
            }
        },
        PR::Failed(_) => {},
    }
}

/// A parsed argument list is well formed, on sound tokens, when what was
/// already gathered is.
proof fn lemma_sound_call_args(toks: Seq<TokenV>, i: int, acc: Seq<ExprV>)
    requires
        all_sound(toks),
        wf_exprs(acc, 0),
    ensures
        sp_call_args(toks, i, acc) matches PR::Parsed { v, .. } ==> wf_exprs(v, 0),
    decreases rem(toks, i), 6int,
{
    if !(0 <= i < toks.len()) {
    } else {
        match sp_expression(toks, i) {
            PR::Parsed { v: e, next: j0 } => {
                lemma_sound_expression(toks, i);
                assert(wf_expr(e));
                let j = nx(i, j0);
                let k = if peek(toks, j) == Some(TokenV::Comma) {
                    j + 1
                } else {
                    j
                };
                lemma_wf_exprs_iff(acc, 0);
                lemma_wf_exprs_iff(acc.push(e), 0);
                assert forall|jj: int| 0 <= jj < acc.push(e).len() implies wf_expr(
                    #[trigger] acc.push(e)[jj],
                ) by {
                    if jj < acc.len() {
                        assert(acc.push(e)[jj] == acc[jj]);
                    } else {
                        assert(acc.push(e)[jj] == e);
                    }
                }
                assert(wf_exprs(acc.push(e), 0));
                if peek(toks, k) == Some(TokenV::RParen) {
                } else {
                    lemma_sound_call_args(toks, k, acc.push(e));
                }
            },
            PR::Failed(_) => {},
        }
    }
}

/// A parsed operator climb is well formed, on sound tokens, from a
/// well-formed left-hand side and a non-negative floor.
proof fn lemma_sound_binop_rhs(toks: Seq<TokenV>, i: int, min_prec: int, lhs: ExprV)
    requires
        all_sound(toks),
        min_prec >= 0,
        wf_expr(lhs),
    ensures
        sp_binop_rhs(toks, i, min_prec, lhs) matches PR::Parsed { v, .. } ==> wf_expr(v),
    decreases rem(toks, i), 3int,
{
    let p = prec_at(toks, i);
    if !(0 <= i < toks.len()) || p < min_prec {
    } else {
        let op = match peek(toks, i) {
            Some(TokenV::Other(c)) => c,
            _ => ' ',
        };
        assert(prec_of_char(op) == p);
        match sp_primary(toks, i + 1) {
            PR::Parsed { v: rhs, next: j0 } => {
                lemma_sound_primary(toks, i + 1);
                assert(wf_expr(rhs));
                let j = nx(i + 1, j0);
                if p < prec_at(toks, j) {
                    match sp_binop_rhs(toks, j, p + 1, rhs) {
                        PR::Parsed { v: rhs2, next: k0 } => {
                            lemma_sound_binop_rhs(toks, j, p + 1, rhs);
                            assert(wf_expr(rhs2));
                            let k = nx(j, k0);
                            lemma_sound_binop_rhs(
                                toks,
                                k,
                                min_prec,
                                ExprV::Binop { op, lhs: Box::new(lhs), rhs: Box::new(rhs2) },
                            );
                        },
                        PR::Failed(_) => {},
                    }
                } else {
                    lemma_sound_binop_rhs(
                        toks,
                        j,
                        min_prec,
                        ExprV::Binop { op, lhs: Box::new(lhs), rhs: Box::new(rhs) },
                    );
                }
            },
            PR::Failed(_) => {},
        }
    }
}

/// A parsed expression is well formed, on sound tokens.
proof fn lemma_sound_expression(toks: Seq<TokenV>, i: int)
    requires
        all_sound(toks),
    ensures
        sp_expression(toks, i) matches PR::Parsed { v, .. } ==> wf_expr(v),
    decreases rem(toks, i), 5int,
{
    match sp_primary(toks, i) {
        PR::Parsed { v: lhs, next: j } => {
            lemma_sound_primary(toks, i);
            lemma_sound_binop_rhs(toks, nx(i, j), 0, lhs);
        },
        PR::Failed(_) => {},
    }
}

/// Parsed parameter names are identifiers, on sound tokens, when the names
/// already gathered are.
proof fn lemma_sound_params(toks: Seq<TokenV>, i: int, acc: Seq<Seq<char>>)
    requires
        all_sound(toks),
        forall|j: int| 0 <= j < acc.len() ==> is_ident_name(#[trigger] acc[j]),
    ensures
        sp_params(toks, i, acc) matches PR::Parsed { v, .. } ==> forall|j: int|
            0 <= j < v.len() ==> is_ident_name(#[trigger] v[j]),
    decreases rem(toks, i),
{
    if peek(toks, i) == Some(TokenV::RParen) {
    } else {
        match sp_expect_id(toks, i) {
            PR::Parsed { v: name, next: j } => {
                assert(sound_token(toks[i]));
                assert(is_ident_name(name));
                assert forall|jj: int| 0 <= jj < acc.push(name).len() implies is_ident_name(
                    #[trigger] acc.push(name)[jj],
                ) by {
                    if jj < acc.len() {
                        assert(acc.push(name)[jj] == acc[jj]);
                    } else {
                        assert(acc.push(name)[jj] == name);
                    }
                }
                lemma_sound_params(toks, j, acc.push(name));
            },
            PR::Failed(_) => {},
        }
    }
}

/// A parsed prototype carries an identifier name and identifier parameters,
/// on sound tokens.
proof fn lemma_sound_prototype(toks: Seq<TokenV>, i: int)
    requires
        all_sound(toks),
    ensures
        sp_prototype(toks, i) matches PR::Parsed { v, .. } ==> is_ident_name(v.name) && (forall|
            j: int,
        |
            0 <= j < v.args.len() ==> is_ident_name(#[trigger] v.args[j])),
{
    match sp_expect_id(toks, i) {
        PR::Parsed { v: name, next: j } => {
            assert(sound_token(toks[i]));
            match sp_expect(toks, j, TokenV::LParen) {
                PR::Parsed { next: k, .. } => {
                    lemma_sound_params(toks, k, Seq::empty());
                },
                PR::Failed(_) => {},
            }
        },
        PR::Failed(_) => {},
    }
}

/// A parsed function of any of the three top-level forms is well formed, on
/// sound tokens.
proof fn lemma_sound_definition(toks: Seq<TokenV>, i: int)
    requires
        all_sound(toks),
    ensures
        sp_definition(toks, i) matches PR::Parsed { v, .. } ==> wf_function(v),
{
    match sp_expect(toks, i, TokenV::Def) {
        PR::Parsed { next: j, .. } => {
            lemma_sound_prototype(toks, j);
            match sp_prototype(toks, j) {
                PR::Parsed { v: proto, next: k } => {
                    lemma_ident_not_anon(proto.name);
                    lemma_sound_expression(toks, k);
                },
                PR::Failed(_) => {},
            }
        },
        PR::Failed(_) => {},
    }
}

proof fn lemma_sound_ext_decl(toks: Seq<TokenV>, i: int)
    requires
        all_sound(toks),
    ensures
        sp_ext_decl(toks, i) matches PR::Parsed { v, .. } ==> wf_function(v),
{
    match sp_expect(toks, i, TokenV::Ext) {
        PR::Parsed { next: j, .. } => {
            lemma_sound_prototype(toks, j);
            match sp_prototype(toks, j) {
                PR::Parsed { v: proto, .. } => {
                    lemma_ident_not_anon(proto.name);
                    lemma_sentinel_wf();
                },
                PR::Failed(_) => {},
            }
        },
        PR::Failed(_) => {},
    }
}

proof fn lemma_sound_top_level_expr(toks: Seq<TokenV>, i: int)
    requires
        all_sound(toks),
    ensures
        sp_top_level_expr(toks, i) matches PR::Parsed { v, .. } ==> wf_function(v),
{
    lemma_sound_expression(toks, i);
}

/// Every function the driver parses is well formed, on sound tokens, when
/// those already gathered are.
proof fn lemma_sound_parse(toks: Seq<TokenV>, i: int, acc: Seq<FunctionV>)
    requires
        all_sound(toks),
        forall|j: int| 0 <= j < acc.len() ==> wf_function(#[trigger] acc[j]),
    ensures
        sp_parse(toks, i, acc) matches Ok(v) ==> forall|j: int|
            0 <= j < v.len() ==> wf_function(#[trigger] v[j]),
    decreases rem(toks, i),
{
    match peek(toks, i) {
        None => {},
        Some(TokenV::Eof) => {},
        Some(TokenV::Semicolon) => {
            lemma_sound_parse(toks, i + 1, acc);
        },
        Some(TokenV::Def) => {
            lemma_sound_definition(toks, i);
            match sp_definition(toks, i) {
                PR::Parsed { v: f, next: j } => {
                    lemma_sound_push(acc, f);
                    lemma_sound_parse(toks, nx(i, j), acc.push(f));
                },
                PR::Failed(_) => {},
            }
        },
        Some(TokenV::Ext) => {
            lemma_sound_ext_decl(toks, i);
            match sp_ext_decl(toks, i) {
                PR::Parsed { v: f, next: j } => {
                    lemma_sound_push(acc, f);
                    lemma_sound_parse(toks, nx(i, j), acc.push(f));
                },
                PR::Failed(_) => {},
            }
        },
        Some(_) => {
            lemma_sound_top_level_expr(toks, i);
            match sp_top_level_expr(toks, i) {
                PR::Parsed { v: f, next: j } => {
                    lemma_sound_push(acc, f);
                    lemma_sound_parse(toks, nx(i, j), acc.push(f));
                },
                PR::Failed(_) => {},
            }
        },
    }
}

proof fn lemma_sound_push(acc: Seq<FunctionV>, f: FunctionV)
    requires
        forall|j: int| 0 <= j < acc.len() ==> wf_function(#[trigger] acc[j]),
        wf_function(f),
    ensures
        forall|j: int| 0 <= j < acc.push(f).len() ==> wf_function(#[trigger] acc.push(f)[j]),
{
    assert forall|j: int| 0 <= j < acc.push(f).len() implies wf_function(
        #[trigger] acc.push(f)[j],
    ) by {
        if j < acc.len() {
            assert(acc.push(f)[j] == acc[j]);
        } else {
            assert(acc.push(f)[j] == f);
        }
    }
}

/// Every syntax tree parsed from lexed input is well formed: the lexer only
/// yields sound tokens, and on sound tokens the parser only builds
/// well-formed functions.
pub proof fn lemma_lexed_parse_wf(s: Seq<char>, ts: Seq<TokenV>, fs: Seq<FunctionV>)
    requires
        lex_from(s, 0) == LexOut::Toks(ts),
        sp_parse(ts, 0, Seq::empty()) == Ok::<Seq<FunctionV>, crate::parser::ParseErrorV>(fs),
    ensures
        forall|k: int| 0 <= k < fs.len() ==> wf_function(#[trigger] fs[k]),
{
    lemma_lex_sound(s, 0);
    assert(all_sound(ts)) by {
        assert forall|j: int| 0 <= j < ts.len() implies sound_token(#[trigger] ts[j]) by {
            assert(lex_from(s, 0)->Toks_0 == ts);
            assert(sound_token(lex_from(s, 0)->Toks_0[j]));
        }
    }
    lemma_sound_parse(ts, 0, Seq::empty());
    assert forall|k: int| 0 <= k < fs.len() implies wf_function(#[trigger] fs[k]) by {
        assert(sp_parse(ts, 0, Seq::empty())->Ok_0 == fs);
        assert(wf_function(sp_parse(ts, 0, Seq::empty())->Ok_0[k]));
    }
}

/// The round trip: the source text a well-formed forest of functions prints
/// to is lexed back to exactly the printed tokens followed by end-of-input,
/// and those tokens are parsed back to exactly the same forest.
pub proof fn lemma_round_trip(fs: Seq<FunctionV>)
    requires
        forall|k: int| 0 <= k < fs.len() ==> wf_function(#[trigger] fs[k]),
    ensures
        lex_from(program_source(fs), 0) == LexOut::Toks(pt_program(fs, 0).push(TokenV::Eof)),
        sp_parse(pt_program(fs, 0).push(TokenV::Eof), 0, Seq::empty()) == Ok::<
            Seq<FunctionV>,
            crate::parser::ParseErrorV,
        >(fs),
{
    let pts = pt_program(fs, 0);
    let src = tokens_chars(pts, 0);
    lemma_pt_program_printable(fs, 0);
    assert(src.subrange(0, src.len() as int) =~= tokens_chars(pts, 0));
    lemma_lex_prints(src, pts, 0, 0);
    assert(pts.subrange(0, pts.len() as int) =~= pts);
    let toks = pts.push(TokenV::Eof);
    assert(toks.subrange(0, toks.len() as int) =~= pts + seq![TokenV::Eof]);
    lemma_rt_program(toks, fs, 0, 0, Seq::empty());
    assert(Seq::empty() + fs.subrange(0, fs.len() as int) =~= fs);
}

/// The round trip for parsed programs, with no side condition: whatever
/// forest came out of lexing and parsing some source text, serializing it
/// and lexing and parsing the result reproduces exactly that forest.
pub proof fn lemma_parse_round_trip(s: Seq<char>, ts: Seq<TokenV>, fs: Seq<FunctionV>)
    requires
        lex_from(s, 0) == LexOut::Toks(ts),
        sp_parse(ts, 0, Seq::empty()) == Ok::<Seq<FunctionV>, crate::parser::ParseErrorV>(fs),
    ensures
        lex_from(program_source(fs), 0) == LexOut::Toks(pt_program(fs, 0).push(TokenV::Eof)),
        sp_parse(pt_program(fs, 0).push(TokenV::Eof), 0, Seq::empty()) == Ok::<
            Seq<FunctionV>,
            crate::parser::ParseErrorV,
        >(fs),
{
    lemma_lexed_parse_wf(s, ts, fs);
    lemma_round_trip(fs);
}

} // verus!