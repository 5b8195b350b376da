//! The lexer: a single left-to-right scan that turns a character sequence
//! into a token sequence ending in exactly one end-of-input token.
//!
//! `lex_from` is the mathematical model; `lex` is the executable scanner,
//! proved to return exactly what the model says. Every maximal-munch scan is
//! bounded by the input length, so a word, a literal or a comment that runs
//! to the end of the input ends cleanly there. The only failure is a
//! malformed numeric literal, reported with its position.

use vstd::prelude::*;
use crate::chars::{is_ws, is_alpha, is_alnum, is_num_char, char_is_ws, char_is_alpha,
    char_is_alnum, char_is_num_char};
use crate::token::{Token, TokenV, tokens_view, is_def_word, is_ext_word, is_number_word,
    dot_count, digit_count, LexError};

verus! {

/// What a scan of the input from a given position yields: the remaining
/// tokens, or the position of a malformed numeric literal.
pub enum LexOut {
    Toks(Seq<TokenV>),
    Fail(nat),
}

/// Prepends a token to a scan result, keeping a failure as it is.
pub open spec fn lex_cons(t: TokenV, rest: LexOut) -> LexOut {
    match rest {
        LexOut::Toks(ts) => LexOut::Toks(seq![t] + ts),
        LexOut::Fail(p) => LexOut::Fail(p),
    }
}

/// Length of the run of letters and digits starting at `i`.
pub open spec fn alnum_run(s: Seq<char>, i: int) -> nat
    decreases s.len() - i,
{
    if 0 <= i < s.len() && is_alnum(s[i]) {
        1 + alnum_run(s, i + 1)
    } else {
        0
    }
}

/// Length of the run of digits and dots starting at `i`.
pub open spec fn num_run(s: Seq<char>, i: int) -> nat
    decreases s.len() - i,
{
    if 0 <= i < s.len() && is_num_char(s[i]) {
        1 + num_run(s, i + 1)
    } else {
        0
    }
}

/// Length of the run of comment characters starting at `i`: everything up to
/// (not including) a line feed or carriage return, bounded by the input end.
pub open spec fn comment_run(s: Seq<char>, i: int) -> nat
    decreases s.len() - i,
{
    if 0 <= i < s.len() && s[i] != '\n' && s[i] != '\r' {
        1 + comment_run(s, i + 1)
    } else {
        0
    }
}

/// A run of letters and digits never reaches past the end of the input.
pub proof fn lemma_alnum_run_bound(s: Seq<char>, i: int)
    requires
        0 <= i <= s.len(),
    ensures
        alnum_run(s, i) <= s.len() - i,
    decreases s.len() - i,
{
    if i < s.len() && is_alnum(s[i]) {
        lemma_alnum_run_bound(s, i + 1);
    }
}

/// A run of digits and dots never reaches past the end of the input.
pub proof fn lemma_num_run_bound(s: Seq<char>, i: int)
    requires
        0 <= i <= s.len(),
    ensures
        num_run(s, i) <= s.len() - i,
    decreases s.len() - i,
{
    if i < s.len() && is_num_char(s[i]) {
        lemma_num_run_bound(s, i + 1);
    }
}

/// A comment never reaches past the end of the input.
pub proof fn lemma_comment_run_bound(s: Seq<char>, i: int)
    requires
        0 <= i <= s.len(),
    ensures
        comment_run(s, i) <= s.len() - i,
    decreases s.len() - i,
{
    if i < s.len() && s[i] != '\n' && s[i] != '\r' {
        lemma_comment_run_bound(s, i + 1);
    }
}

/// A run of letters and digits ends exactly where they stop.
pub proof fn lemma_alnum_run_exact(s: Seq<char>, i: int, n: int)
    requires
        0 <= i,
        0 <= n,
        i + n <= s.len(),
        forall|j: int| i <= j < i + n ==> is_alnum(#[trigger] s[j]),
        i + n == s.len() || !is_alnum(s[i + n]),
    ensures
        alnum_run(s, i) == n,
    decreases n,
{
    if n > 0 {
        lemma_alnum_run_exact(s, i + 1, n - 1);
    }
}

/// A run of digits and dots ends exactly where they stop.
pub proof fn lemma_num_run_exact(s: Seq<char>, i: int, n: int)
    requires
        0 <= i,
        0 <= n,
        i + n <= s.len(),
        forall|j: int| i <= j < i + n ==> is_num_char(#[trigger] s[j]),
        i + n == s.len() || !is_num_char(s[i + n]),
    ensures
        num_run(s, i) == n,
    decreases n,
{
    if n > 0 {
        lemma_num_run_exact(s, i + 1, n - 1);
    }
}

/// Classifies a maximal identifier-like word as a keyword or an identifier.
pub open spec fn word_token(w: Seq<char>) -> TokenV {
    if is_def_word(w) {
        TokenV::Def
    } else if is_ext_word(w) {
        TokenV::Ext
    } else {
        TokenV::Identifier(w)
    }
}

/// The token a single punctuation or operator character stands for.
pub open spec fn punct_token(c: char) -> TokenV {
    if c == '(' {
        TokenV::LParen
    } else if c == ')' {
        TokenV::RParen
    } else if c == ',' {
        TokenV::Comma
    } else if c == ';' {
        TokenV::Semicolon
    } else {
        TokenV::Other(c)
    }
}

/// The model of the scan from position `i`: skip whitespace; a letter opens
/// a maximal letter-and-digit word, classified as keyword or identifier; a
/// digit or dot opens a maximal digit-and-dot literal, which must be well
/// formed; `#` opens a comment running to the end of the line; any other
/// character is a single-character token. The end of the input yields the
/// single end-of-input token.
pub open spec fn lex_from(s: Seq<char>, i: int) -> LexOut
    decreases s.len() - i,
{
    if !(0 <= i < s.len()) {
        LexOut::Toks(seq![TokenV::Eof])
    } else if is_ws(s[i]) {
        lex_from(s, i + 1)
    } else if is_alpha(s[i]) {
        let j = i + 1 + alnum_run(s, i + 1);
        proof {
            lemma_alnum_run_bound(s, i + 1);
        }
        lex_cons(word_token(s.subrange(i, j)), lex_from(s, j))
    } else if is_num_char(s[i]) {
        let j = i + 1 + num_run(s, i + 1);
        proof {
            lemma_num_run_bound(s, i + 1);
        }
        if is_number_word(s.subrange(i, j)) {
            lex_cons(TokenV::Number(s.subrange(i, j)), lex_from(s, j))
        } else {
            LexOut::Fail(i as nat)
        }
    } else if s[i] == '#' {
        proof {
            lemma_comment_run_bound(s, i + 1);
        }
        lex_from(s, i + 1 + comment_run(s, i + 1))
    } else {
        lex_cons(punct_token(s[i]), lex_from(s, i + 1))
    }
}

/// Appends an already-scanned prefix of tokens to the scan of the rest.
pub open spec fn lex_app(pre: Seq<TokenV>, rest: LexOut) -> LexOut {
    match rest {
        LexOut::Toks(ts) => LexOut::Toks(pre + ts),
        LexOut::Fail(p) => LexOut::Fail(p),
    }
}

proof fn lemma_lex_app_cons(pre: Seq<TokenV>, t: TokenV, rest: LexOut)
    ensures
        lex_app(pre, lex_cons(t, rest)) == lex_app(pre.push(t), rest),
{
    match rest {
        LexOut::Toks(ts) => {
            assert(pre + (seq![t] + ts) =~= pre.push(t) + ts);
        },
        LexOut::Fail(_) => {},
    }
}

proof fn lemma_tokens_view_push(ts: Seq<Token>, t: Token)
    ensures
        tokens_view(ts.push(t)) == tokens_view(ts).push(t@),
{
    let a = tokens_view(ts.push(t));
    let b = tokens_view(ts).push(t@);
    assert forall|k: int| 0 <= k < a.len() implies a[k] == b[k] by {
        if k < ts.len() {
            assert(ts.push(t)[k] == ts[k]);
        } else {
            assert(ts.push(t)[k] == t);
        }
    }
    assert(a =~= b);
}

/// A token sequence is well formed when it is not empty, ends with the
/// end-of-input token, and holds the end-of-input token nowhere else.
pub open spec fn wf_tokens(ts: Seq<TokenV>) -> bool {
    &&& ts.len() >= 1
    &&& ts.last() == TokenV::Eof
    &&& forall|k: int| 0 <= k < ts.len() - 1 ==> #[trigger] ts[k] != TokenV::Eof
}

/// Every token sequence the scan yields is well formed: never empty, ending
/// with exactly one end-of-input token, which appears nowhere else.
pub proof fn lemma_lex_wf(s: Seq<char>, i: int)
    ensures
        lex_from(s, i) matches LexOut::Toks(ts) ==> wf_tokens(ts),
    decreases s.len() - i,
{
    if !(0 <= i < s.len()) {
    } else if is_ws(s[i]) {
        lemma_lex_wf(s, i + 1);
    } else if is_alpha(s[i]) {
        let j = i + 1 + alnum_run(s, i + 1);
        lemma_alnum_run_bound(s, i + 1);
        lemma_lex_wf(s, j);
        lemma_cons_wf(word_token(s.subrange(i, j)), lex_from(s, j));
    } else if is_num_char(s[i]) {
        let j = i + 1 + num_run(s, i + 1);
        lemma_num_run_bound(s, i + 1);
        lemma_lex_wf(s, j);
        lemma_cons_wf(TokenV::Number(s.subrange(i, j)), lex_from(s, j));
    } else if s[i] == '#' {
        lemma_comment_run_bound(s, i + 1);
        lemma_lex_wf(s, i + 1 + comment_run(s, i + 1));
    } else {
        lemma_lex_wf(s, i + 1);
        lemma_cons_wf(punct_token(s[i]), lex_from(s, i + 1));
    }
}

proof fn lemma_cons_wf(t: TokenV, rest: LexOut)
    requires
        t != TokenV::Eof,
        rest matches LexOut::Toks(ts) ==> wf_tokens(ts),
    ensures
        lex_cons(t, rest) matches LexOut::Toks(ts) ==> wf_tokens(ts),
{
    match rest {
        LexOut::Toks(ts) => {
            let full = seq![t] + ts;
            assert(full.last() == ts.last());
            assert(forall|k: int| 1 <= k < full.len() ==> #[trigger] full[k] == ts[k - 1]);
        },
        LexOut::Fail(_) => {},
    }
}

proof fn lemma_alnum_run_shift(pre: Seq<char>, s: Seq<char>, i: int)
    requires
        0 <= i,
    ensures
        alnum_run(pre + s, pre.len() + i) == alnum_run(s, i),
    decreases s.len() - i,
{
    if i < s.len() {
        assert((pre + s)[pre.len() + i] == s[i]);
        if is_alnum(s[i]) {
            lemma_alnum_run_shift(pre, s, i + 1);
        }
    }
}

proof fn lemma_num_run_shift(pre: Seq<char>, s: Seq<char>, i: int)
    requires
        0 <= i,
    ensures
        num_run(pre + s, pre.len() + i) == num_run(s, i),
    decreases s.len() - i,
{
    if i < s.len() {
        assert((pre + s)[pre.len() + i] == s[i]);
        if is_num_char(s[i]) {
            lemma_num_run_shift(pre, s, i + 1);
        }
    }
}

proof fn lemma_comment_run_shift(pre: Seq<char>, s: Seq<char>, i: int)
    requires
        0 <= i,
    ensures
        comment_run(pre + s, pre.len() + i) == comment_run(s, i),
    decreases s.len() - i,
{
    if i < s.len() {
        assert((pre + s)[pre.len() + i] == s[i]);
        if s[i] != '\n' && s[i] != '\r' {
            lemma_comment_run_shift(pre, s, i + 1);
        }
    }
}

/// A scan result carried behind a prefix of length `p`: the tokens are the
/// same and a failure position moves by `p`.
pub open spec fn lex_shifted(r: LexOut, p: nat) -> LexOut {
    match r {
        LexOut::Toks(ts) => LexOut::Toks(ts),
        LexOut::Fail(q) => LexOut::Fail(q + p),
    }
}

/// The scan never looks back: scanning `pre + s` from a position inside `s`
/// is scanning `s` from the corresponding position, with a failure position
/// moved by the prefix length.
pub proof fn lemma_lex_shift(pre: Seq<char>, s: Seq<char>, i: int)
    requires
        0 <= i,
    ensures
        lex_from(pre + s, pre.len() + i) == lex_shifted(lex_from(s, i), pre.len()),
    decreases s.len() - i,
{
    let w = pre + s;
    let p = pre.len() as int;
    if !(0 <= i < s.len()) {
    } else {
        assert(w[p + i] == s[i]);
        if is_ws(s[i]) {
            lemma_lex_shift(pre, s, i + 1);
        } else if is_alpha(s[i]) {
            let j = i + 1 + alnum_run(s, i + 1);
            lemma_alnum_run_bound(s, i + 1);
            lemma_alnum_run_shift(pre, s, i + 1);
            lemma_lex_shift(pre, s, j);
            assert(w.subrange(p + i, p + j) =~= s.subrange(i, j));
        } else if is_num_char(s[i]) {
            let j = i + 1 + num_run(s, i + 1);
            lemma_num_run_bound(s, i + 1);
            lemma_num_run_shift(pre, s, i + 1);
            lemma_lex_shift(pre, s, j);
            assert(w.subrange(p + i, p + j) =~= s.subrange(i, j));
        } else if s[i] == '#' {
            lemma_comment_run_bound(s, i + 1);
            lemma_comment_run_shift(pre, s, i + 1);
            lemma_lex_shift(pre, s, i + 1 + comment_run(s, i + 1));
        } else {
            lemma_lex_shift(pre, s, i + 1);
        }
    }
}

/// Leading whitespace never changes the token sequence: scanning any input
/// behind a whitespace prefix yields exactly what scanning the input alone
/// yields, with a failure position moved by the prefix length.
pub proof fn lemma_lex_ws_prefix(ws: Seq<char>, s: Seq<char>)
    requires
        forall|k: int| 0 <= k < ws.len() ==> is_ws(#[trigger] ws[k]),
    ensures
        lex_from(ws + s, 0) == lex_shifted(lex_from(s, 0), ws.len()),
{
    lemma_skip_ws_prefix(ws, s, 0);
    lemma_lex_shift(ws, s, 0);
}

proof fn lemma_skip_ws_prefix(ws: Seq<char>, s: Seq<char>, i: int)
    requires
        0 <= i <= ws.len(),
        forall|k: int| 0 <= k < ws.len() ==> is_ws(#[trigger] ws[k]),
    ensures
        lex_from(ws + s, i) == lex_from(ws + s, ws.len() as int),
    decreases ws.len() - i,
{
    if i < ws.len() {
        assert((ws + s)[i] == ws[i]);
        lemma_skip_ws_prefix(ws, s, i + 1);
    }
}

/// What the scan guarantees of every token it yields: an identifier token
/// holds a well-formed non-keyword identifier, a numeric token a well-formed
/// literal.
pub open spec fn sound_token(t: TokenV) -> bool {
    match t {
        TokenV::Identifier(n) => crate::token::is_ident_name(n),
        TokenV::Number(s) => is_number_word(s),
        _ => true,
    }
}

/// Every character of a run of letters and digits is a letter or a digit.
proof fn lemma_alnum_run_chars(s: Seq<char>, i: int)
    requires
        0 <= i,
    ensures
        forall|k: int| i <= k < i + alnum_run(s, i) ==> is_alnum(#[trigger] s[k]),
    decreases s.len() - i,
{
    if 0 <= i < s.len() && is_alnum(s[i]) {
        lemma_alnum_run_chars(s, i + 1);
    }
}

/// Every token the scan yields is sound: identifier tokens hold well-formed
/// non-keyword identifiers and numeric tokens hold well-formed literals.
pub proof fn lemma_lex_sound(s: Seq<char>, i: int)
    ensures
        lex_from(s, i) matches LexOut::Toks(ts) ==> forall|j: int|
            0 <= j < ts.len() ==> sound_token(#[trigger] ts[j]),
    decreases s.len() - i,
{
    if !(0 <= i < s.len()) {
    } else if is_ws(s[i]) {
        lemma_lex_sound(s, i + 1);
    } else if is_alpha(s[i]) {
        let j = i + 1 + alnum_run(s, i + 1);
        lemma_alnum_run_bound(s, i + 1);
        lemma_lex_sound(s, j);
        let w = s.subrange(i, j);
        lemma_alnum_run_chars(s, i + 1);
        assert(w[0] == s[i]);
        assert forall|k: int| 0 <= k < w.len() implies is_alnum(#[trigger] w[k]) by {
            assert(w[k] == s[i + k]);
            if k > 0 {
                assert(is_alnum(s[i + k]));
            }
        }
        assert(crate::token::is_ident_word(w));
        assert(sound_token(word_token(w)));
        lemma_cons_sound(word_token(w), lex_from(s, j));
    } else if is_num_char(s[i]) {
        let j = i + 1 + num_run(s, i + 1);
        lemma_num_run_bound(s, i + 1);
        lemma_lex_sound(s, j);
        if is_number_word(s.subrange(i, j)) {
            lemma_cons_sound(TokenV::Number(s.subrange(i, j)), lex_from(s, j));
        }
    } else if s[i] == '#' {
        lemma_comment_run_bound(s, i + 1);
        lemma_lex_sound(s, i + 1 + comment_run(s, i + 1));
    } else {
        lemma_lex_sound(s, i + 1);
        lemma_cons_sound(punct_token(s[i]), lex_from(s, i + 1));
    }
}

proof fn lemma_cons_sound(t: TokenV, rest: LexOut)
    requires
        sound_token(t),
        rest matches LexOut::Toks(ts) ==> forall|j: int|
            0 <= j < ts.len() ==> sound_token(#[trigger] ts[j]),
    ensures
        lex_cons(t, rest) matches LexOut::Toks(ts) ==> forall|j: int|
            0 <= j < ts.len() ==> sound_token(#[trigger] ts[j]),
{
    match rest {
        LexOut::Toks(ts) => {
            let full = seq![t] + ts;
            assert forall|j: int| 0 <= j < full.len() implies sound_token(#[trigger] full[j]) by {
                if j == 0 {
                    assert(full[j] == t);
                } else {
                    assert(full[j] == ts[j - 1]);
                    assert(sound_token(ts[j - 1]));
                }
            }
        },
        LexOut::Fail(_) => {},
    }
}

/// For an input consisting only of whitespace the scan yields exactly one
/// token, the end-of-input token.
pub proof fn lemma_lex_all_whitespace(s: Seq<char>, i: int)
    requires
        forall|k: int| 0 <= k < s.len() ==> is_ws(#[trigger] s[k]),
        0 <= i,
    ensures
        lex_from(s, i) == LexOut::Toks(seq![TokenV::Eof]),
    decreases s.len() - i,
{
    if i < s.len() {
        lemma_lex_all_whitespace(s, i + 1);
    }
}

/// The lexer. On success the token sequence is exactly what the model
/// `lex_from` gives for the whole input; on failure the model fails at the
/// reported position, which starts a malformed numeric literal.
pub fn lex(input: &Vec<char>) -> (r: Result<Vec<Token>, LexError>)
    ensures
        match r {
            Ok(tokens) => lex_from(input@, 0) == LexOut::Toks(tokens_view(tokens@)),
            Err(e) => lex_from(input@, 0) == LexOut::Fail(e.pos as nat) && e.pos < input@.len(),
        },
{
    let ghost s = input@;
    let mut idx: usize = 0;
    let mut tokens: Vec<Token> = Vec::new();
    proof {
        assert(tokens_view(tokens@) =~= Seq::<TokenV>::empty());
    }
    while idx < input.len()
        invariant
            idx <= input@.len(),
            s == input@,
            lex_from(s, 0) == lex_app(tokens_view(tokens@), lex_from(s, idx as int)),
        decreases input@.len() - idx,
    {
        let c = input[idx];
        if char_is_ws(c) {
            idx += 1;
        } else if char_is_alpha(c) {
            let ghost i0 = idx as int;
            let mut word: Vec<char> = Vec::new();
            word.push(c);
            idx += 1;
            proof {
                assert(word@ =~= s.subrange(i0, idx as int));
            }
            while idx < input.len() && char_is_alnum(input[idx])
                invariant
                    0 <= i0 < idx <= input@.len(),
                    s == input@,
                    word@ == s.subrange(i0, idx as int),
                    alnum_run(s, i0 + 1) == idx - i0 - 1 + alnum_run(s, idx as int),
                decreases input@.len() - idx,
            {
                word.push(input[idx]);
                idx += 1;
                proof {
                    assert(word@ =~= s.subrange(i0, idx as int));
                }
            }
            proof {
                assert(alnum_run(s, idx as int) == 0);
                assert(i0 + 1 + alnum_run(s, i0 + 1) == idx as int);
            }
            let tok = classify_word(word);
            proof {
                lemma_lex_app_cons(tokens_view(tokens@), tok@, lex_from(s, idx as int));
                lemma_tokens_view_push(tokens@, tok);
            }
            tokens.push(tok);
        } else if char_is_num_char(c) {
            let start = idx;
            let ghost i0 = idx as int;
            let mut lit: Vec<char> = Vec::new();
            let mut dots: usize = 0;
            let mut digits: usize = 0;
            if c == '.' {
                dots = 1;
            } else {
                digits = 1;
            }
            lit.push(c);
            idx += 1;
            proof {
                assert(lit@ =~= s.subrange(i0, idx as int));
                assert(lit@.drop_last() =~= Seq::<char>::empty());
                assert(dot_count(Seq::<char>::empty()) == 0);
                assert(digit_count(Seq::<char>::empty()) == 0);
                assert(lit@.last() == c);
            }
            while idx < input.len() && char_is_num_char(input[idx])
                invariant
                    0 <= i0 < idx <= input@.len(),
                    s == input@,
                    lit@ == s.subrange(i0, idx as int),
                    num_run(s, i0 + 1) == idx - i0 - 1 + num_run(s, idx as int),
                    forall|k: int| i0 <= k < idx ==> is_num_char(#[trigger] s[k]),
                    dots == dot_count(lit@),
                    digits == digit_count(lit@),
                    dots + digits == lit@.len(),
                decreases input@.len() - idx,
            {
                let d = input[idx];
                proof {
                    assert(lit@.len() == idx - i0);
                    assert(input@.len() <= usize::MAX as int);
                }
                if d == '.' {
                    dots += 1;
                } else {
                    digits += 1;
                }
                let ghost old_lit = lit@;
                lit.push(d);
                idx += 1;
                proof {
                    assert(lit@ =~= s.subrange(i0, idx as int));
                    assert(lit@.drop_last() =~= old_lit);
                }
            }
            proof {
                assert(num_run(s, idx as int) == 0);
                assert(i0 + 1 + num_run(s, i0 + 1) == idx as int);
            }
            if digits >= 1 && dots <= 1 {
                proof {
                    assert(is_number_word(lit@)) by {
                        assert(forall|k: int|
                            0 <= k < lit@.len() ==> is_num_char(#[trigger] lit@[k])) by {
                            assert(forall|k: int|
                                0 <= k < lit@.len() ==> lit@[k] == s[i0 + k] && is_num_char(
                                    #[trigger] s[i0 + k]));
                        }
                    }
                }
                let tok = Token::Number(lit);
                proof {
                    lemma_lex_app_cons(tokens_view(tokens@), tok@, lex_from(s, idx as int));
                    assert(tokens_view(tokens@.push(tok)) =~= tokens_view(tokens@).push(tok@));
                }
                tokens.push(tok);
            } else {
                proof {
                    assert(!is_number_word(lit@));
                }
                return Err(LexError { pos: start });
            }
        } else if c == '#' {
            let ghost i0 = idx as int;
            idx += 1;
            while idx < input.len() && input[idx] != '\n' && input[idx] != '\r'
                invariant
                    0 <= i0 < idx <= input@.len(),
                    s == input@,
                    comment_run(s, i0 + 1) == idx - i0 - 1 + comment_run(s, idx as int),
                decreases input@.len() - idx,
            {
                idx += 1;
            }
            proof {
                assert(comment_run(s, idx as int) == 0);
                assert(i0 + 1 + comment_run(s, i0 + 1) == idx as int);
            }
        } else {
            let tok = if c == '(' {
                Token::LParen
            } else if c == ')' {
                Token::RParen
            } else if c == ',' {
                Token::Comma
            } else if c == ';' {
                Token::Semicolon
            } else {
                Token::Other(c)
            };
            proof {
                lemma_lex_app_cons(tokens_view(tokens@), tok@, lex_from(s, idx as int + 1));
                lemma_tokens_view_push(tokens@, tok);
            }
            tokens.push(tok);
            idx += 1;
        }
    }
    proof {
        assert(lex_from(s, idx as int) == LexOut::Toks(seq![TokenV::Eof]));
    }
    let ghost pre = tokens_view(tokens@);
    tokens.push(Token::Eof);
    proof {
        assert(tokens_view(tokens@) =~= pre + seq![TokenV::Eof]);
    }
    Ok(tokens)
}

/// Classifies a scanned word as `def`, the foreign-declaration keyword, or
/// an identifier, by exact, case-sensitive match.
fn classify_word(word: Vec<char>) -> (t: Token)
    ensures
        t@ == word_token(word@),
{
    if word.len() == 3 && word[0] == 'd' && word[1] == 'e' && word[2] == 'f' {
        Token::Def
    } else if word.len() == 6 && word[0] == 'e' && word[1] == 'x' && word[2] == 't' && word[3]
        == 'e' && word[4] == 'r' && word[5] == 'n' {
        Token::Ext
    } else {
        Token::Identifier(word)
    }
}

} // verus!
