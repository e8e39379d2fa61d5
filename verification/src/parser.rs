//! The surface syntax: a tokenizer and an operator-precedence parser
//! that build the abstract syntax tree. Binary operators come in four
//! left-associative tiers (equality, then relational, then additive,
//! then multiplicative); `let <name> = <expr> in <expr> end` binds;
//! `if <cond> then <expr> (elif <cond> then <expr>)* else <expr> end`
//! selects; `fn <expr> end` is a function literal; `(<callee>, <arg>,
//! ...)` invokes; `$<n>` is a positional parameter reference. The
//! token-level grammar is stated as a family of specification functions
//! (`sp_expr` and friends), and each parsing function is proved to
//! return exactly what the grammar denotes — and to fail exactly when
//! the grammar fits nothing. Every expression the parser returns is
//! well formed, so it can be handed to the evaluator directly.

use vstd::prelude::*;

use crate::bin_op::BinaryOp;
use crate::error::Error;
use crate::expr::{
    wf_expr, wf_expr_seq, BinaryExpr, CondExpr, Expr, Invocation, LetBinding, SpecExpr, SpecIndex,
    Variable, VariableIndex,
};
use crate::expr::{lemma_spec_expr_seq_index, lemma_spec_expr_seq_len, spec_expr_seq};
use crate::float;
use crate::float::f64_of_dec;
use crate::value::{spec_value, wf_value, Function, SpecValue, Value};

verus! {

/// Relies on std's `String::push`: it appends exactly the given
/// character to the end of the string.
pub assume_specification[ String::push ](s: &mut String, c: char)
    ensures
        final(s)@ == old(s)@.push(c),
;

/// One lexical token of the surface syntax.
#[derive(Debug)]
pub enum Token {
    Int(i64),
    Float(u64),
    Ident(String),
    Param(usize),
    KwLet,
    KwIn,
    KwEnd,
    KwIf,
    KwThen,
    KwElif,
    KwElse,
    KwFn,
    KwTrue,
    KwFalse,
    LParen,
    RParen,
    Comma,
    Assign,
    Op(BinaryOp),
}

/// Mathematical model of a `Token`: the same shape, with an identifier
/// abstracted to its characters.
pub enum SpecTok {
    Int(i64),
    Float(u64),
    Ident(Seq<char>),
    Param(usize),
    KwLet,
    KwIn,
    KwEnd,
    KwIf,
    KwThen,
    KwElif,
    KwElse,
    KwFn,
    KwTrue,
    KwFalse,
    LParen,
    RParen,
    Comma,
    Assign,
    Op(BinaryOp),
}

pub open spec fn tok_view(t: Token) -> SpecTok {
    match t {
        Token::Int(v) => SpecTok::Int(v),
        Token::Float(bits) => SpecTok::Float(bits),
        Token::Ident(s) => SpecTok::Ident(s@),
        Token::Param(k) => SpecTok::Param(k),
        Token::KwLet => SpecTok::KwLet,
        Token::KwIn => SpecTok::KwIn,
        Token::KwEnd => SpecTok::KwEnd,
        Token::KwIf => SpecTok::KwIf,
        Token::KwThen => SpecTok::KwThen,
        Token::KwElif => SpecTok::KwElif,
        Token::KwElse => SpecTok::KwElse,
        Token::KwFn => SpecTok::KwFn,
        Token::KwTrue => SpecTok::KwTrue,
        Token::KwFalse => SpecTok::KwFalse,
        Token::LParen => SpecTok::LParen,
        Token::RParen => SpecTok::RParen,
        Token::Comma => SpecTok::Comma,
        Token::Assign => SpecTok::Assign,
        Token::Op(op) => SpecTok::Op(op),
    }
}

pub open spec fn tok_views(ts: Seq<Token>) -> Seq<SpecTok> {
    Seq::new(ts.len(), |i: int| tok_view(ts[i]))
}

pub open spec fn is_digit(c: char) -> bool {
    '0' <= c && c <= '9'
}

pub open spec fn digit_val(c: char) -> int {
    c as int - '0' as int
}

/// The value of a digit string read in base ten.
pub open spec fn dec_val(s: Seq<char>) -> int
    decreases s,
{
    if s.len() == 0 {
        0
    } else {
        dec_val(s.drop_last()) * 10 + digit_val(s.last())
    }
}

proof fn lemma_dec_val_nonneg(s: Seq<char>)
    requires
        forall|i: int| 0 <= i < s.len() ==> is_digit(#[trigger] s[i]),
    ensures
        dec_val(s) >= 0,
    decreases s,
{
    if s.len() != 0 {
        lemma_dec_val_nonneg(s.drop_last());
    }
}

proof fn lemma_dec_val_prefix(s: Seq<char>, j: int)
    requires
        forall|i: int| 0 <= i < s.len() ==> is_digit(#[trigger] s[i]),
        0 <= j <= s.len(),
    ensures
        dec_val(s) >= dec_val(s.take(j)),
    decreases s.len() - j,
{
    if j < s.len() {
        lemma_dec_val_prefix(s, j + 1);
        assert(s.take(j + 1).drop_last() =~= s.take(j));
        assert(forall|i: int| 0 <= i < s.take(j).len() ==> is_digit(#[trigger] s.take(j)[i]));
        lemma_dec_val_nonneg(s.take(j));
    } else {
        assert(s.take(j) =~= s);
    }
}

pub open spec fn is_space(c: char) -> bool {
    c == ' ' || c == '\t' || c == '\n' || c == '\r'
}

pub open spec fn is_word_start(c: char) -> bool {
    ('a' <= c && c <= 'z') || ('A' <= c && c <= 'Z') || c == '_'
}

pub open spec fn is_word_char(c: char) -> bool {
    is_word_start(c) || is_digit(c)
}

/// Length of the maximal run of digits beginning at `i`.
pub open spec fn digit_run(chars: Seq<char>, i: int) -> int
    decreases chars.len() - i,
{
    if 0 <= i < chars.len() && is_digit(chars[i]) {
        1 + digit_run(chars, i + 1)
    } else {
        0
    }
}

/// Length of the maximal run of identifier characters beginning at `i`.
pub open spec fn word_run(chars: Seq<char>, i: int) -> int
    decreases chars.len() - i,
{
    if 0 <= i < chars.len() && is_word_char(chars[i]) {
        1 + word_run(chars, i + 1)
    } else {
        0
    }
}

/// A maximal scan that covered `[start, i)` and stopped at `i` read
/// exactly the run the model gives.
pub proof fn lemma_digit_run_exact(chars: Seq<char>, start: int, i: int)
    requires
        0 <= start <= i <= chars.len(),
        forall|k: int| start <= k < i ==> is_digit(#[trigger] chars[k]),
        i == chars.len() || !is_digit(chars[i]),
    ensures
        digit_run(chars, start) == i - start,
    decreases i - start,
{
    if start < i {
        lemma_digit_run_exact(chars, start + 1, i);
    }
}

pub proof fn lemma_word_run_exact(chars: Seq<char>, start: int, i: int)
    requires
        0 <= start <= i <= chars.len(),
        forall|k: int| start <= k < i ==> is_word_char(#[trigger] chars[k]),
        i == chars.len() || !is_word_char(chars[i]),
    ensures
        word_run(chars, start) == i - start,
    decreases i - start,
{
    if start < i {
        lemma_word_run_exact(chars, start + 1, i);
    }
}

/// Which token a completed identifier run denotes: one of the ten
/// keywords, else an identifier.
pub open spec fn keyword_tok(w: Seq<char>) -> SpecTok {
    if w == seq!['l', 'e', 't'] {
        SpecTok::KwLet
    } else if w == seq!['i', 'n'] {
        SpecTok::KwIn
    } else if w == seq!['e', 'n', 'd'] {
        SpecTok::KwEnd
    } else if w == seq!['i', 'f'] {
        SpecTok::KwIf
    } else if w == seq!['t', 'h', 'e', 'n'] {
        SpecTok::KwThen
    } else if w == seq!['e', 'l', 'i', 'f'] {
        SpecTok::KwElif
    } else if w == seq!['e', 'l', 's', 'e'] {
        SpecTok::KwElse
    } else if w == seq!['f', 'n'] {
        SpecTok::KwFn
    } else if w == seq!['t', 'r', 'u', 'e'] {
        SpecTok::KwTrue
    } else if w == seq!['f', 'a', 'l', 's', 'e'] {
        SpecTok::KwFalse
    } else {
        SpecTok::Ident(w)
    }
}

/// The lexical reading of the characters from `i` on: the token list
/// they spell, or nothing when some character belongs to no token, a
/// number is out of range or malformed, or a `!` stands alone.
pub open spec fn st_tokens(chars: Seq<char>, i: int) -> Option<Seq<SpecTok>>
    decreases chars.len() - i,
{
    if i < 0 {
        None
    } else if i >= chars.len() {
        Some(Seq::empty())
    } else {
        let c = chars[i];
        if is_space(c) {
            st_tokens(chars, i + 1)
        } else if is_digit(c) {
            let d = digit_run(chars, i);
            if 1 <= d && i + d <= chars.len() {
                let j = i + d;
                if j < chars.len() && chars[j] == '.' && j + 1 < chars.len() && is_digit(
                    chars[j + 1],
                ) {
                    let d2 = digit_run(chars, j + 1);
                    if 1 <= d2 && j + 1 + d2 <= chars.len() {
                        let k = j + 1 + d2;
                        match f64_of_dec(chars.subrange(i, k)) {
                            Some(bits) => match st_tokens(chars, k) {
                                Some(rest) => Some(seq![SpecTok::Float(bits)] + rest),
                                None => None,
                            },
                            None => None,
                        }
                    } else {
                        None
                    }
                } else {
                    if dec_val(chars.subrange(i, j)) <= i64::MAX {
                        match st_tokens(chars, j) {
                            Some(rest) => Some(
                                seq![SpecTok::Int(dec_val(chars.subrange(i, j)) as i64)] + rest,
                            ),
                            None => None,
                        }
                    } else {
                        None
                    }
                }
            } else {
                None
            }
        } else if is_word_start(c) {
            let w = word_run(chars, i);
            if 1 <= w && i + w <= chars.len() {
                let j = i + w;
                match st_tokens(chars, j) {
                    Some(rest) => Some(seq![keyword_tok(chars.subrange(i, j))] + rest),
                    None => None,
                }
            } else {
                None
            }
        } else if c == '$' {
            let d = digit_run(chars, i + 1);
            if 1 <= d && i + 1 + d <= chars.len() {
                let j = i + 1 + d;
                if dec_val(chars.subrange(i + 1, j)) <= usize::MAX {
                    match st_tokens(chars, j) {
                        Some(rest) => Some(
                            seq![SpecTok::Param(dec_val(chars.subrange(i + 1, j)) as usize)]
                                + rest,
                        ),
                        None => None,
                    }
                } else {
                    None
                }
            } else {
                None
            }
        } else if c == '(' {
            st_cons(SpecTok::LParen, st_tokens(chars, i + 1))
        } else if c == ')' {
            st_cons(SpecTok::RParen, st_tokens(chars, i + 1))
        } else if c == ',' {
            st_cons(SpecTok::Comma, st_tokens(chars, i + 1))
        } else if c == '+' {
            st_cons(SpecTok::Op(BinaryOp::Add), st_tokens(chars, i + 1))
        } else if c == '-' {
            st_cons(SpecTok::Op(BinaryOp::Sub), st_tokens(chars, i + 1))
        } else if c == '*' {
            st_cons(SpecTok::Op(BinaryOp::Mul), st_tokens(chars, i + 1))
        } else if c == '/' {
            st_cons(SpecTok::Op(BinaryOp::Div), st_tokens(chars, i + 1))
        } else if c == '%' {
            st_cons(SpecTok::Op(BinaryOp::Mod), st_tokens(chars, i + 1))
        } else if c == '=' {
            if i + 1 < chars.len() && chars[i + 1] == '=' {
                st_cons(SpecTok::Op(BinaryOp::Eq), st_tokens(chars, i + 2))
            } else {
                st_cons(SpecTok::Assign, st_tokens(chars, i + 1))
            }
        } else if c == '!' {
            if i + 1 < chars.len() && chars[i + 1] == '=' {
                st_cons(SpecTok::Op(BinaryOp::Ne), st_tokens(chars, i + 2))
            } else {
                None
            }
        } else if c == '>' {
            if i + 1 < chars.len() && chars[i + 1] == '=' {
                st_cons(SpecTok::Op(BinaryOp::Ge), st_tokens(chars, i + 2))
            } else {
                st_cons(SpecTok::Op(BinaryOp::Gt), st_tokens(chars, i + 1))
            }
        } else if c == '<' {
            if i + 1 < chars.len() && chars[i + 1] == '=' {
                st_cons(SpecTok::Op(BinaryOp::Le), st_tokens(chars, i + 2))
            } else {
                st_cons(SpecTok::Op(BinaryOp::Lt), st_tokens(chars, i + 1))
            }
        } else {
            None
        }
    }
}

pub open spec fn st_cons(t: SpecTok, rest: Option<Seq<SpecTok>>) -> Option<Seq<SpecTok>> {
    match rest {
        Some(r) => Some(seq![t] + r),
        None => None,
    }
}

/// Reads a base-ten integer literal; absent exactly when the value does
/// not fit in a signed 64-bit integer.
fn parse_i64_digits(s: &Vec<char>) -> (r: Option<i64>)
    requires
        s@.len() >= 1,
        forall|i: int| 0 <= i < s@.len() ==> is_digit(#[trigger] s@[i]),
    ensures
        (match r {
            Some(v) => v == dec_val(s@),
            None => dec_val(s@) > i64::MAX,
        }),
{
    let n = s.len();
    let mut acc: i64 = 0;
    let mut i: usize = 0;
    proof {
        assert(s@.take(0) =~= Seq::<char>::empty());
    }
    while i < n
        invariant
            n == s@.len(),
            i <= n,
            forall|k: int| 0 <= k < s@.len() ==> is_digit(#[trigger] s@[k]),
            0 <= acc,
            acc == dec_val(s@.take(i as int)),
        decreases n - i,
    {
        let c = s[i];
        let d: i64 = (c as u32 as i64) - ('0' as u32 as i64);
        proof {
            assert(s@.take(i as int + 1).drop_last() =~= s@.take(i as int));
            assert(s@.take(i as int + 1).last() == s@[i as int]);
        }
        let shifted = match acc.checked_mul(10) {
            Some(x) => x,
            None => {
                proof {
                    lemma_dec_val_prefix(s@, i as int + 1);
                }
                return None;
            },
        };
        let next = match shifted.checked_add(d) {
            Some(x) => x,
            None => {
                proof {
                    lemma_dec_val_prefix(s@, i as int + 1);
                }
                return None;
            },
        };
        acc = next;
        i = i + 1;
    }
    proof {
        assert(s@.take(n as int) =~= s@);
    }
    Some(acc)
}

/// Reads a base-ten parameter index; absent when it does not fit in the
/// host's pointer-sized integer.
fn parse_usize_digits(s: &Vec<char>) -> (r: Option<usize>)
    requires
        s@.len() >= 1,
        forall|i: int| 0 <= i < s@.len() ==> is_digit(#[trigger] s@[i]),
    ensures
        (match r {
            Some(v) => v == dec_val(s@),
            None => dec_val(s@) > usize::MAX,
        }),
{
    let n = s.len();
    let mut acc: usize = 0;
    let mut i: usize = 0;
    proof {
        assert(s@.take(0) =~= Seq::<char>::empty());
    }
    while i < n
        invariant
            n == s@.len(),
            i <= n,
            forall|k: int| 0 <= k < s@.len() ==> is_digit(#[trigger] s@[k]),
            acc == dec_val(s@.take(i as int)),
        decreases n - i,
    {
        let c = s[i];
        let d: usize = ((c as u32) - ('0' as u32)) as usize;
        proof {
            assert(s@.take(i as int + 1).drop_last() =~= s@.take(i as int));
            assert(s@.take(i as int + 1).last() == s@[i as int]);
        }
        let shifted = match acc.checked_mul(10) {
            Some(x) => x,
            None => {
                proof {
                    lemma_dec_val_prefix(s@, i as int + 1);
                }
                return None;
            },
        };
        let next = match shifted.checked_add(d) {
            Some(x) => x,
            None => {
                proof {
                    lemma_dec_val_prefix(s@, i as int + 1);
                }
                return None;
            },
        };
        acc = next;
        i = i + 1;
    }
    proof {
        assert(s@.take(n as int) =~= s@);
    }
    Some(acc)
}

fn is_digit_char(c: char) -> (r: bool)
    ensures
        r == is_digit(c),
{
    '0' <= c && c <= '9'
}

fn is_ident_start(c: char) -> (r: bool)
    ensures
        r == is_word_start(c),
{
    ('a' <= c && c <= 'z') || ('A' <= c && c <= 'Z') || c == '_'
}

fn is_ident_char(c: char) -> (r: bool)
    ensures
        r == is_word_char(c),
{
    ('a' <= c && c <= 'z') || ('A' <= c && c <= 'Z') || ('0' <= c && c <= '9') || c == '_'
}

fn keyword_of(word: &String) -> (r: Option<Token>)
    ensures
        (match r {
            Some(t) => tok_view(t) == keyword_tok(word@) && !(keyword_tok(word@) is Ident),
            None => (keyword_tok(word@) is Ident),
        }),
{
    proof {
        reveal_strlit("let");
        reveal_strlit("in");
        reveal_strlit("end");
        reveal_strlit("if");
        reveal_strlit("then");
        reveal_strlit("elif");
        reveal_strlit("else");
        reveal_strlit("fn");
        reveal_strlit("true");
        reveal_strlit("false");
        assert("let"@ =~= seq!['l', 'e', 't']);
        assert("in"@ =~= seq!['i', 'n']);
        assert("end"@ =~= seq!['e', 'n', 'd']);
        assert("if"@ =~= seq!['i', 'f']);
        assert("then"@ =~= seq!['t', 'h', 'e', 'n']);
        assert("elif"@ =~= seq!['e', 'l', 'i', 'f']);
        assert("else"@ =~= seq!['e', 'l', 's', 'e']);
        assert("fn"@ =~= seq!['f', 'n']);
        assert("true"@ =~= seq!['t', 'r', 'u', 'e']);
        assert("false"@ =~= seq!['f', 'a', 'l', 's', 'e']);
    }
    if word.eq(&"let".to_owned()) {
        Some(Token::KwLet)
    } else if word.eq(&"in".to_owned()) {
        Some(Token::KwIn)
    } else if word.eq(&"end".to_owned()) {
        Some(Token::KwEnd)
    } else if word.eq(&"if".to_owned()) {
        Some(Token::KwIf)
    } else if word.eq(&"then".to_owned()) {
        Some(Token::KwThen)
    } else if word.eq(&"elif".to_owned()) {
        Some(Token::KwElif)
    } else if word.eq(&"else".to_owned()) {
        Some(Token::KwElse)
    } else if word.eq(&"fn".to_owned()) {
        Some(Token::KwFn)
    } else if word.eq(&"true".to_owned()) {
        Some(Token::KwTrue)
    } else if word.eq(&"false".to_owned()) {
        Some(Token::KwFalse)
    } else {
        None
    }
}

/// Splits a program text into tokens; the result is exactly the
/// lexical reading `st_tokens` gives: absent on any character that
/// belongs to no token, on an out-of-range or malformed number, or on
/// a lone `!`.
#[verifier::loop_isolation(false)]
#[verifier::rlimit(80)]
pub(crate) fn tokenize(chars: &Vec<char>) -> (r: Option<Vec<Token>>)
    ensures
        (match r {
            Some(ts) => st_tokens(chars@, 0) == Some(tok_views(ts@)),
            None => (st_tokens(chars@, 0) is None),
        }),
{
    let n = chars.len();
    let mut out: Vec<Token> = Vec::new();
    let mut i: usize = 0;
    proof {
        assert(tok_views(out@) =~= Seq::<SpecTok>::empty());
        if st_tokens(chars@, 0) is Some {
            assert(tok_views(out@) + st_tokens(chars@, 0)->Some_0 =~= st_tokens(
                chars@,
                0,
            )->Some_0);
        }
    }
    while i < n
        invariant
            n == chars@.len(),
            i <= n,
            st_tokens(chars@, 0) == (match st_tokens(chars@, i as int) {
                Some(rest) => Some(tok_views(out@) + rest),
                None => None::<Seq<SpecTok>>,
            }),
        decreases n - i,
    {
        let ghost iold = i as int;
        let ghost vold = tok_views(out@);
        let c = chars[i];
        if c == ' ' || c == '\t' || c == '\n' || c == '\r' {
            i = i + 1;
            proof {
                assert(st_tokens(chars@, iold) == st_tokens(chars@, i as int));
            }
        } else if is_digit_char(c) {
            let ghost nstart = i as int;
            let mut buf: Vec<char> = Vec::new();
            buf.push(c);
            i = i + 1;
            while i < n && is_digit_char(chars[i])
                invariant
                    nstart < i <= n,
                    buf@ =~= chars@.subrange(nstart, i as int),
                    forall|k: int| nstart <= k < i ==> is_digit(#[trigger] chars@[k]),
                decreases n - i,
            {
                buf.push(chars[i]);
                i = i + 1;
                proof {
                    assert(buf@ =~= chars@.subrange(nstart, i as int));
                }
            }
            proof {
                lemma_digit_run_exact(chars@, nstart, i as int);
            }
            if i < n && chars[i] == '.' && i + 1 < n && is_digit_char(chars[i + 1]) {
                let ghost dot = i as int;
                buf.push('.');
                i = i + 1;
                proof {
                    assert(buf@ =~= chars@.subrange(nstart, i as int));
                }
                while i < n && is_digit_char(chars[i])
                    invariant
                        dot + 1 <= i <= n,
                        buf@ =~= chars@.subrange(nstart, i as int),
                        forall|k: int| dot + 1 <= k < i ==> is_digit(#[trigger] chars@[k]),
                    decreases n - i,
                {
                    buf.push(chars[i]);
                    i = i + 1;
                    proof {
                        assert(buf@ =~= chars@.subrange(nstart, i as int));
                    }
                }
                proof {
                    lemma_digit_run_exact(chars@, dot + 1, i as int);
                }
                match float::parse_f64_bits(buf.as_slice()) {
                    Some(bits) => {
                        out.push(Token::Float(bits));
                        proof {
                            assert(st_tokens(chars@, iold) == st_cons(
                                SpecTok::Float(bits),
                                st_tokens(chars@, i as int),
                            ));
                            assert(tok_views(out@) =~= vold.push(SpecTok::Float(bits)));
                            lemma_views_step(
                                chars@,
                                iold,
                                i as int,
                                vold,
                                SpecTok::Float(bits),
                            );
                        }
                    },
                    None => {
                        proof {
                            assert(st_tokens(chars@, iold) is None);
                        }
                        return None;
                    },
                }
            } else {
                match parse_i64_digits(&buf) {
                    Some(v) => {
                        out.push(Token::Int(v));
                        proof {
                            assert(st_tokens(chars@, iold) == st_cons(
                                SpecTok::Int(v),
                                st_tokens(chars@, i as int),
                            ));
                            assert(tok_views(out@) =~= vold.push(SpecTok::Int(v)));
                            lemma_views_step(chars@, iold, i as int, vold, SpecTok::Int(v));
                        }
                    },
                    None => {
                        proof {
                            assert(st_tokens(chars@, iold) is None);
                        }
                        return None;
                    },
                }
            }
        } else if is_ident_start(c) {
            let ghost wstart = i as int;
            let mut word = String::new();
            word.push(c);
            i = i + 1;
            proof {
                assert(word@ =~= chars@.subrange(wstart, i as int));
            }
            while i < n && is_ident_char(chars[i])
                invariant
                    wstart < i <= n,
                    word@ =~= chars@.subrange(wstart, i as int),
                    forall|k: int| wstart <= k < i ==> is_word_char(#[trigger] chars@[k]),
                decreases n - i,
            {
                word.push(chars[i]);
                i = i + 1;
                proof {
                    assert(word@ =~= chars@.subrange(wstart, i as int));
                }
            }
            proof {
                lemma_word_run_exact(chars@, wstart, i as int);
            }
            let ghost kt = keyword_tok(word@);
            match keyword_of(&word) {
                Some(t) => {
                    let ghost gt = t;
                    out.push(t);
                    proof {
                        assert(st_tokens(chars@, iold) == st_cons(
                            kt,
                            st_tokens(chars@, i as int),
                        ));
                        assert(tok_views(out@) =~= vold.push(tok_view(gt)));
                        lemma_views_step(chars@, iold, i as int, vold, kt);
                    }
                },
                None => {
                    let ghost gw = word;
                    out.push(Token::Ident(word));
                    proof {
                        assert(st_tokens(chars@, iold) == st_cons(
                            kt,
                            st_tokens(chars@, i as int),
                        ));
                        assert(tok_views(out@) =~= vold.push(SpecTok::Ident(gw@)));
                        lemma_views_step(chars@, iold, i as int, vold, kt);
                    }
                },
            }
        } else if c == '$' {
            i = i + 1;
            let ghost pstart = i as int;
            let mut buf: Vec<char> = Vec::new();
            while i < n && is_digit_char(chars[i])
                invariant
                    pstart <= i <= n,
                    buf@ =~= chars@.subrange(pstart, i as int),
                    forall|k: int| pstart <= k < i ==> is_digit(#[trigger] chars@[k]),
                decreases n - i,
            {
                buf.push(chars[i]);
                i = i + 1;
                proof {
                    assert(buf@ =~= chars@.subrange(pstart, i as int));
                }
            }
            proof {
                lemma_digit_run_exact(chars@, pstart, i as int);
            }
            if buf.len() == 0 {
                proof {
                    assert(st_tokens(chars@, iold) is None);
                }
                return None;
            }
            match parse_usize_digits(&buf) {
                Some(v) => {
                    out.push(Token::Param(v));
                    proof {
                        assert(st_tokens(chars@, iold) == st_cons(
                            SpecTok::Param(v),
                            st_tokens(chars@, i as int),
                        ));
                        assert(tok_views(out@) =~= vold.push(SpecTok::Param(v)));
                        lemma_views_step(chars@, iold, i as int, vold, SpecTok::Param(v));
                    }
                },
                None => {
                    proof {
                        assert(st_tokens(chars@, iold) is None);
                    }
                    return None;
                },
            }
        } else if c == '(' {
            out.push(Token::LParen);
            i = i + 1;
            proof {
                lemma_views_step(chars@, iold, i as int, vold, SpecTok::LParen);
            }
        } else if c == ')' {
            out.push(Token::RParen);
            i = i + 1;
            proof {
                lemma_views_step(chars@, iold, i as int, vold, SpecTok::RParen);
            }
        } else if c == ',' {
            out.push(Token::Comma);
            i = i + 1;
            proof {
                lemma_views_step(chars@, iold, i as int, vold, SpecTok::Comma);
            }
        } else if c == '+' {
            out.push(Token::Op(BinaryOp::Add));
            i = i + 1;
            proof {
                lemma_views_step(chars@, iold, i as int, vold, SpecTok::Op(BinaryOp::Add));
            }
        } else if c == '-' {
            out.push(Token::Op(BinaryOp::Sub));
            i = i + 1;
            proof {
                lemma_views_step(chars@, iold, i as int, vold, SpecTok::Op(BinaryOp::Sub));
            }
        } else if c == '*' {
            out.push(Token::Op(BinaryOp::Mul));
            i = i + 1;
            proof {
                lemma_views_step(chars@, iold, i as int, vold, SpecTok::Op(BinaryOp::Mul));
            }
        } else if c == '/' {
            out.push(Token::Op(BinaryOp::Div));
            i = i + 1;
            proof {
                lemma_views_step(chars@, iold, i as int, vold, SpecTok::Op(BinaryOp::Div));
            }
        } else if c == '%' {
            out.push(Token::Op(BinaryOp::Mod));
            i = i + 1;
            proof {
                lemma_views_step(chars@, iold, i as int, vold, SpecTok::Op(BinaryOp::Mod));
            }
        } else if c == '=' {
            if i + 1 < n && chars[i + 1] == '=' {
                out.push(Token::Op(BinaryOp::Eq));
                i = i + 2;
                proof {
                    lemma_views_step(chars@, iold, i as int, vold, SpecTok::Op(BinaryOp::Eq));
                }
            } else {
                out.push(Token::Assign);
                i = i + 1;
                proof {
                    lemma_views_step(chars@, iold, i as int, vold, SpecTok::Assign);
                }
            }
        } else if c == '!' {
            if i + 1 < n && chars[i + 1] == '=' {
                out.push(Token::Op(BinaryOp::Ne));
                i = i + 2;
                proof {
                    lemma_views_step(chars@, iold, i as int, vold, SpecTok::Op(BinaryOp::Ne));
                }
            } else {
                proof {
                    assert(st_tokens(chars@, iold) is None);
                }
                return None;
            }
        } else if c == '>' {
            if i + 1 < n && chars[i + 1] == '=' {
                out.push(Token::Op(BinaryOp::Ge));
                i = i + 2;
                proof {
                    lemma_views_step(chars@, iold, i as int, vold, SpecTok::Op(BinaryOp::Ge));
                }
            } else {
                out.push(Token::Op(BinaryOp::Gt));
                i = i + 1;
                proof {
                    lemma_views_step(chars@, iold, i as int, vold, SpecTok::Op(BinaryOp::Gt));
                }
            }
        } else if c == '<' {
            if i + 1 < n && chars[i + 1] == '=' {
                out.push(Token::Op(BinaryOp::Le));
                i = i + 2;
                proof {
                    lemma_views_step(chars@, iold, i as int, vold, SpecTok::Op(BinaryOp::Le));
                }
            } else {
                out.push(Token::Op(BinaryOp::Lt));
                i = i + 1;
                proof {
                    lemma_views_step(chars@, iold, i as int, vold, SpecTok::Op(BinaryOp::Lt));
                }
            }
        } else {
            proof {
                assert(st_tokens(chars@, iold) is None);
            }
            return None;
        }
    }
    proof {
        assert(st_tokens(chars@, n as int) == Some(Seq::<SpecTok>::empty()));
        if st_tokens(chars@, 0) is Some {
            assert(tok_views(out@) + Seq::<SpecTok>::empty() =~= tok_views(out@));
        }
    }
    Some(out)
}

/// One step of the reading: the remaining text spells one more token,
/// so the collected prefix grows by exactly it.
proof fn lemma_views_step(
    chars: Seq<char>,
    iold: int,
    inew: int,
    vold: Seq<SpecTok>,
    t: SpecTok,
)
    requires
        st_tokens(chars, iold) == st_cons(t, st_tokens(chars, inew)),
    ensures
        (match st_tokens(chars, iold) {
            Some(rest) => Some(vold + rest),
            None => None::<Seq<SpecTok>>,
        }) == (match st_tokens(chars, inew) {
            Some(rest) => Some(vold.push(t) + rest),
            None => None::<Seq<SpecTok>>,
        }),
{
    match st_tokens(chars, inew) {
        Some(r) => {
            assert(vold + (seq![t] + r) =~= vold.push(t) + r);
        },
        None => {},
    }
}

/// Precedence tier of an operator: equality binds loosest, then the
/// relational family, then additive, then multiplicative. All tiers are
/// left-associative.
pub open spec fn spec_prec(op: BinaryOp) -> int {
    match op {
        BinaryOp::Eq | BinaryOp::Ne => 1,
        BinaryOp::Gt | BinaryOp::Lt | BinaryOp::Ge | BinaryOp::Le => 2,
        BinaryOp::Add | BinaryOp::Sub => 3,
        BinaryOp::Mul | BinaryOp::Div | BinaryOp::Mod => 4,
    }
}

fn op_prec(op: BinaryOp) -> (r: u32)
    ensures
        1 <= r <= 4,
        r as int == spec_prec(op),
{
    match op {
        BinaryOp::Eq | BinaryOp::Ne => 1,
        BinaryOp::Gt | BinaryOp::Lt | BinaryOp::Ge | BinaryOp::Le => 2,
        BinaryOp::Add | BinaryOp::Sub => 3,
        BinaryOp::Mul | BinaryOp::Div | BinaryOp::Mod => 4,
    }
}

/// The token-level grammar, as a total specification the parser is
/// proved equivalent to. Each function reads from `pos`, and yields the
/// denoted node together with the position just after it, or nothing
/// when the tokens do not fit its form. Positions only move forward;
/// the guards on returned positions make the definitions total.
pub open spec fn sp_expr(toks: Seq<Token>, pos: int) -> Option<(SpecExpr, int)>
    decreases toks.len() - pos, 3int,
{
    if 0 <= pos <= toks.len() {
        sp_binary(toks, pos, 0)
    } else {
        None
    }
}

/// Precedence climbing: a primary operand, then every operator of
/// precedence at least `min_prec` folded in left-associatively.
pub open spec fn sp_binary(toks: Seq<Token>, pos: int, min_prec: int) -> Option<(SpecExpr, int)>
    decreases toks.len() - pos, 2int,
{
    if 0 <= pos <= toks.len() {
        match sp_primary(toks, pos) {
            Some((lhs, p1)) => if pos < p1 <= toks.len() {
                sp_binary_rest(toks, p1, lhs, min_prec)
            } else {
                None
            },
            None => None,
        }
    } else {
        None
    }
}

/// The left-associative fold: while the next token is an operator that
/// binds at least as tightly as `min_prec`, its right operand is parsed
/// one tier tighter and joined onto `lhs`.
pub open spec fn sp_binary_rest(
    toks: Seq<Token>,
    pos: int,
    lhs: SpecExpr,
    min_prec: int,
) -> Option<(SpecExpr, int)>
    decreases toks.len() - pos, 2int,
{
    if 0 <= pos < toks.len() {
        match toks[pos] {
            Token::Op(op) => if spec_prec(op) >= min_prec {
                match sp_binary(toks, pos + 1, spec_prec(op) + 1) {
                    Some((rhs, p2)) => if pos < p2 <= toks.len() {
                        sp_binary_rest(
                            toks,
                            p2,
                            SpecExpr::Binary { op, lhs: Box::new(lhs), rhs: Box::new(rhs) },
                            min_prec,
                        )
                    } else {
                        None
                    },
                    None => None,
                }
            } else {
                Some((lhs, pos))
            },
            _ => Some((lhs, pos)),
        }
    } else if 0 <= pos <= toks.len() {
        Some((lhs, pos))
    } else {
        None
    }
}

/// One operand: a literal, a variable or parameter reference, a
/// function literal, an invocation, a binding or a conditional.
pub open spec fn sp_primary(toks: Seq<Token>, pos: int) -> Option<(SpecExpr, int)>
    decreases toks.len() - pos, 1int,
{
    if 0 <= pos < toks.len() {
        match toks[pos] {
            Token::Int(v) => Some((SpecExpr::Literal(SpecValue::Int64(v)), pos + 1)),
            Token::Float(bits) => Some((SpecExpr::Literal(SpecValue::Float64(bits)), pos + 1)),
            Token::KwTrue => Some((SpecExpr::Literal(SpecValue::Bool(true)), pos + 1)),
            Token::KwFalse => Some((SpecExpr::Literal(SpecValue::Bool(false)), pos + 1)),
            Token::Ident(s) => Some((SpecExpr::Var(SpecIndex::Name(s@)), pos + 1)),
            Token::Param(k) => Some((SpecExpr::Var(SpecIndex::ParamIndex(k)), pos + 1)),
            Token::KwFn => match sp_function(toks, pos) {
                Some((f, p)) => Some((SpecExpr::Literal(f), p)),
                None => None,
            },
            Token::LParen => sp_invocation(toks, pos),
            Token::KwLet => sp_let(toks, pos),
            Token::KwIf => sp_cond(toks, pos),
            _ => None,
        }
    } else {
        None
    }
}

/// `let <name> = <expr> in <expr> end`.
pub open spec fn sp_let(toks: Seq<Token>, pos: int) -> Option<(SpecExpr, int)>
    decreases toks.len() - pos, 0int,
{
    if 0 <= pos && pos + 2 < toks.len() && toks[pos] is KwLet {
        match toks[pos + 1] {
            Token::Ident(s) => if toks[pos + 2] is Assign {
                match sp_expr(toks, pos + 3) {
                    Some((bind, p1)) => if pos < p1 && p1 < toks.len() && toks[p1] is KwIn {
                        match sp_expr(toks, p1 + 1) {
                            Some((inx, p2)) => if p2 < toks.len() && toks[p2] is KwEnd {
                                Some(
                                    (
                                        SpecExpr::Let {
                                            identifier: s@,
                                            bind_expr: Box::new(bind),
                                            in_expr: Box::new(inx),
                                        },
                                        p2 + 1,
                                    ),
                                )
                            } else {
                                None
                            },
                            None => None,
                        }
                    } else {
                        None
                    },
                    None => None,
                }
            } else {
                None
            },
            _ => None,
        }
    } else {
        None
    }
}

/// `fn <expr> end`: a function literal with an empty parameter-type
/// list.
pub open spec fn sp_function(toks: Seq<Token>, pos: int) -> Option<(SpecValue, int)>
    decreases toks.len() - pos, 0int,
{
    if 0 <= pos < toks.len() && toks[pos] is KwFn {
        match sp_expr(toks, pos + 1) {
            Some((body, p1)) => if p1 < toks.len() && toks[p1] is KwEnd {
                Some(
                    (
                        SpecValue::Function { type_: Seq::empty(), body: Box::new(body) },
                        p1 + 1,
                    ),
                )
            } else {
                None
            },
            None => None,
        }
    } else {
        None
    }
}

/// `(<callee>, <arg>, ...)`: the operand list of an invocation.
pub open spec fn sp_invocation(toks: Seq<Token>, pos: int) -> Option<(SpecExpr, int)>
    decreases toks.len() - pos, 0int,
{
    if 0 <= pos < toks.len() && toks[pos] is LParen {
        match sp_expr(toks, pos + 1) {
            Some((first, p1)) => if pos < p1 <= toks.len() {
                match sp_args_rest(toks, p1, seq![first]) {
                    Some((args, p2)) => if p2 < toks.len() && toks[p2] is RParen {
                        Some((SpecExpr::Invoke(args), p2 + 1))
                    } else {
                        None
                    },
                    None => None,
                }
            } else {
                None
            },
            None => None,
        }
    } else {
        None
    }
}

/// The comma-led tail of an operand list.
pub open spec fn sp_args_rest(toks: Seq<Token>, pos: int, acc: Seq<SpecExpr>) -> Option<
    (Seq<SpecExpr>, int),
>
    decreases toks.len() - pos, 0int,
{
    if 0 <= pos < toks.len() && toks[pos] is Comma {
        match sp_expr(toks, pos + 1) {
            Some((e, p1)) => if pos < p1 <= toks.len() {
                sp_args_rest(toks, p1, acc.push(e))
            } else {
                None
            },
            None => None,
        }
    } else if 0 <= pos <= toks.len() {
        Some((acc, pos))
    } else {
        None
    }
}

/// `if <cond> then <expr> (elif <cond> then <expr>)* else <expr> end`,
/// flattened to the odd-length branch list the conditional holds.
pub open spec fn sp_cond(toks: Seq<Token>, pos: int) -> Option<(SpecExpr, int)>
    decreases toks.len() - pos, 0int,
{
    if 0 <= pos < toks.len() && toks[pos] is KwIf {
        match sp_expr(toks, pos + 1) {
            Some((c, p1)) => if pos < p1 && p1 < toks.len() && toks[p1] is KwThen {
                match sp_expr(toks, p1 + 1) {
                    Some((t, p2)) => if pos < p2 <= toks.len() {
                        match sp_elifs(toks, p2, seq![c, t]) {
                            Some((acc, p3)) => if pos < p3 && p3 < toks.len() && toks[p3]
                                is KwElse {
                                match sp_expr(toks, p3 + 1) {
                                    Some((d, p4)) => if p4 < toks.len() && toks[p4] is KwEnd {
                                        Some((SpecExpr::Cond(acc.push(d)), p4 + 1))
                                    } else {
                                        None
                                    },
                                    None => None,
                                }
                            } else {
                                None
                            },
                            None => None,
                        }
                    } else {
                        None
                    },
                    None => None,
                }
            } else {
                None
            },
            None => None,
        }
    } else {
        None
    }
}

/// The `elif <cond> then <expr>` repetitions, appended pairwise.
pub open spec fn sp_elifs(toks: Seq<Token>, pos: int, acc: Seq<SpecExpr>) -> Option<
    (Seq<SpecExpr>, int),
>
    decreases toks.len() - pos, 0int,
{
    if 0 <= pos < toks.len() && toks[pos] is KwElif {
        match sp_expr(toks, pos + 1) {
            Some((c, p1)) => if pos < p1 && p1 < toks.len() && toks[p1] is KwThen {
                match sp_expr(toks, p1 + 1) {
                    Some((t, p2)) => if pos < p2 <= toks.len() {
                        sp_elifs(toks, p2, acc + seq![c, t])
                    } else {
                        None
                    },
                    None => None,
                }
            } else {
                None
            },
            None => None,
        }
    } else if 0 <= pos <= toks.len() {
        Some((acc, pos))
    } else {
        None
    }
}

/// The operator-precedence parser: a token stream and a cursor.
pub struct AstParser {
    pub tokens: Vec<Token>,
    pub pos: usize,
}

impl AstParser {
    pub open spec fn wf(self) -> bool {
        self.pos <= self.tokens@.len()
    }

    pub open spec fn remaining(self) -> int {
        self.tokens@.len() - self.pos
    }

    /// A parser at the start of the given token stream.
    pub fn new(tokens: Vec<Token>) -> (p: AstParser)
        ensures
            p.wf(),
            p.tokens@ == tokens@,
            p.pos == 0,
    {
        AstParser { tokens, pos: 0 }
    }

    /// Parses `let <name> = <expr> in <expr> end`, the leading `let`
    /// still unconsumed.
    fn parse_let_bind(&mut self) -> (r: Result<LetBinding, Error>)
        requires
            old(self).wf(),
            old(self).pos < old(self).tokens@.len(),
            (old(self).tokens@[old(self).pos as int] is KwLet),
        ensures
            final(self).wf(),
            final(self).tokens@ == old(self).tokens@,
            (match r {
                Ok(l) => sp_let(old(self).tokens@, old(self).pos as int) == Some(
                    (l@, final(self).pos as int),
                ) && final(self).pos > old(self).pos && wf_expr(l@),
                Err(_) => (sp_let(old(self).tokens@, old(self).pos as int) is None),
            }),
        decreases old(self).remaining(), 0int,
    {
        let toklen = self.tokens.len();
        proof {
            assert(self.pos < toklen);
        }
        self.pos = self.pos + 1;  // the `let` keyword
        let name: String = if self.pos < self.tokens.len() {
            match &self.tokens[self.pos] {
                Token::Ident(s) => {
                    let owned = s.clone();
                    self.pos = self.pos + 1;
                    owned
                },
                _ => {
                    return Err(Error::ParseError());
                },
            }
        } else {
            return Err(Error::ParseError());
        };
        if !(self.pos < self.tokens.len() && matches!(&self.tokens[self.pos], Token::Assign)) {
            return Err(Error::ParseError());
        }
        self.pos = self.pos + 1;
        let bind_expr = match self.parse_expr() {
            Ok(e) => e,
            Err(e) => {
                return Err(e);
            },
        };
        if !(self.pos < self.tokens.len() && matches!(&self.tokens[self.pos], Token::KwIn)) {
            return Err(Error::ParseError());
        }
        self.pos = self.pos + 1;
        let in_expr = match self.parse_expr() {
            Ok(e) => e,
            Err(e) => {
                return Err(e);
            },
        };
        if !(self.pos < self.tokens.len() && matches!(&self.tokens[self.pos], Token::KwEnd)) {
            return Err(Error::ParseError());
        }
        self.pos = self.pos + 1;
        Ok(
            LetBinding {
                identifier: name,
                bind_expr: Box::new(bind_expr),
                in_expr: Box::new(in_expr),
            },
        )
    }

    /// Parses `(<callee>, <arg>, ...)`, the `(` still unconsumed: an
    /// ordered operand list whose first element is the callee.
    #[verifier::loop_isolation(false)]
    fn parse_invocation(&mut self) -> (r: Result<Invocation, Error>)
        requires
            old(self).wf(),
            old(self).pos < old(self).tokens@.len(),
            (old(self).tokens@[old(self).pos as int] is LParen),
        ensures
            final(self).wf(),
            final(self).tokens@ == old(self).tokens@,
            (match r {
                Ok(iv) => sp_invocation(old(self).tokens@, old(self).pos as int) == Some(
                    (iv@, final(self).pos as int),
                ) && final(self).pos > old(self).pos && wf_expr(iv@),
                Err(_) => (sp_invocation(old(self).tokens@, old(self).pos as int) is None),
            }),
        decreases old(self).remaining(), 0int,
    {
        let ghost gtoks = self.tokens@;
        let ghost p0 = self.pos as int;
        let toklen = self.tokens.len();
        proof {
            assert(self.pos < toklen);
        }
        self.pos = self.pos + 1;  // the `(`
        let mut params: Vec<Expr> = Vec::new();
        proof {
            assert(params@ =~= Seq::<Expr>::empty());
        }
        let first = match self.parse_expr() {
            Ok(e) => e,
            Err(e) => {
                return Err(e);
            },
        };
        let ghost before0 = params@;
        let ghost gfirst = first;
        let ghost gp1 = self.pos as int;
        params.push(first);
        proof {
            lemma_push_wf(before0, gfirst);
            lemma_spec_expr_seq_push(before0, gfirst);
            assert(spec_expr_seq(params@) =~= seq![crate::expr::spec_expr(gfirst)]);
        }
        while self.pos < self.tokens.len() && matches!(&self.tokens[self.pos], Token::Comma)
            invariant
                self.wf(),
                self.tokens@ == gtoks,
                self.pos > p0,
                gp1 <= self.pos as int,
                params@.len() >= 1,
                wf_expr_seq(spec_expr_seq(params@)),
                sp_args_rest(gtoks, gp1, seq![crate::expr::spec_expr(gfirst)])
                    == sp_args_rest(gtoks, self.pos as int, spec_expr_seq(params@)),
            decreases self.remaining(),
        {
            let ghost cpos = self.pos as int;
            let ghost acc = spec_expr_seq(params@);
            self.pos = self.pos + 1;
            let ghost before = params@;
            let next = match self.parse_expr() {
                Ok(e) => e,
                Err(e) => {
                    proof {
                        assert(sp_args_rest(gtoks, cpos, acc) is None);
                        assert(sp_invocation(gtoks, p0) is None);
                    }
                    return Err(e);
                },
            };
            let ghost gnext = next;
            let ghost np = self.pos as int;
            params.push(next);
            proof {
                lemma_push_wf(before, gnext);
                lemma_spec_expr_seq_push(before, gnext);
                assert(sp_args_rest(gtoks, cpos, acc) == sp_args_rest(
                    gtoks,
                    np,
                    acc.push(crate::expr::spec_expr(gnext)),
                ));
            }
        }
        proof {
            assert(sp_args_rest(gtoks, self.pos as int, spec_expr_seq(params@)) == Some(
                (spec_expr_seq(params@), self.pos as int),
            ));
        }
        if !(self.pos < self.tokens.len() && matches!(&self.tokens[self.pos], Token::RParen)) {
            proof {
                assert(sp_invocation(gtoks, p0) is None);
            }
            return Err(Error::ParseError());
        }
        self.pos = self.pos + 1;
        proof {
            lemma_spec_expr_seq_len(params@);
        }
        Ok(Invocation { params })
    }

    /// Parses `fn <expr> end`, the `fn` still unconsumed: a function
    /// literal with an empty parameter-type list and the given body.
    fn parse_function(&mut self) -> (r: Result<Function, Error>)
        requires
            old(self).wf(),
            old(self).pos < old(self).tokens@.len(),
            (old(self).tokens@[old(self).pos as int] is KwFn),
        ensures
            final(self).wf(),
            final(self).tokens@ == old(self).tokens@,
            (match r {
                Ok(f) => sp_function(old(self).tokens@, old(self).pos as int) == Some(
                    (f@, final(self).pos as int),
                ) && final(self).pos > old(self).pos && wf_value(f@),
                Err(_) => (sp_function(old(self).tokens@, old(self).pos as int) is None),
            }),
        decreases old(self).remaining(), 0int,
    {
        let toklen = self.tokens.len();
        proof {
            assert(self.pos < toklen);
        }
        self.pos = self.pos + 1;  // the `fn` keyword
        let body = match self.parse_expr() {
            Ok(e) => e,
            Err(e) => {
                return Err(e);
            },
        };
        if !(self.pos < self.tokens.len() && matches!(&self.tokens[self.pos], Token::KwEnd)) {
            return Err(Error::ParseError());
        }
        self.pos = self.pos + 1;
        Ok(Function { type_: Vec::new(), expr: std::rc::Rc::new(body) })
    }

    /// Parses `if <cond> then <expr> (elif <cond> then <expr>)* else
    /// <expr> end`, the `if` still unconsumed, into the flat odd-length
    /// branch list the conditional holds.
    #[verifier::loop_isolation(false)]
    fn parse_cond_expr(&mut self) -> (r: Result<CondExpr, Error>)
        requires
            old(self).wf(),
            old(self).pos < old(self).tokens@.len(),
            (old(self).tokens@[old(self).pos as int] is KwIf),
        ensures
            final(self).wf(),
            final(self).tokens@ == old(self).tokens@,
            (match r {
                Ok(c) => sp_cond(old(self).tokens@, old(self).pos as int) == Some(
                    (c@, final(self).pos as int),
                ) && final(self).pos > old(self).pos && wf_expr(c@),
                Err(_) => (sp_cond(old(self).tokens@, old(self).pos as int) is None),
            }),
        decreases old(self).remaining(), 0int,
    {
        let ghost gtoks = self.tokens@;
        let ghost p0 = self.pos as int;
        let toklen = self.tokens.len();
        proof {
            assert(self.pos < toklen);
        }
        self.pos = self.pos + 1;  // the `if` keyword
        let mut inner: Vec<Expr> = Vec::new();
        proof {
            assert(inner@ =~= Seq::<Expr>::empty());
        }
        let cond = match self.parse_expr() {
            Ok(e) => e,
            Err(e) => {
                return Err(e);
            },
        };
        let ghost before0 = inner@;
        let ghost gcond = cond;
        let ghost gp1 = self.pos as int;
        inner.push(cond);
        proof {
            lemma_push_wf(before0, gcond);
            lemma_spec_expr_seq_push(before0, gcond);
        }
        if !(self.pos < self.tokens.len() && matches!(&self.tokens[self.pos], Token::KwThen)) {
            return Err(Error::ParseError());
        }
        self.pos = self.pos + 1;
        let taken = match self.parse_expr() {
            Ok(e) => e,
            Err(e) => {
                return Err(e);
            },
        };
        let ghost before1 = inner@;
        let ghost gtaken = taken;
        let ghost gp2 = self.pos as int;
        let ghost first_pair = seq![
            crate::expr::spec_expr(gcond),
            crate::expr::spec_expr(gtaken),
        ];
        inner.push(taken);
        proof {
            lemma_push_wf(before1, gtaken);
            lemma_spec_expr_seq_push(before1, gtaken);
            assert(spec_expr_seq(inner@) =~= first_pair);
        }
        while self.pos < self.tokens.len() && matches!(&self.tokens[self.pos], Token::KwElif)
            invariant
                self.wf(),
                self.tokens@ == gtoks,
                self.pos > p0,
                gp2 <= self.pos as int,
                inner@.len() % 2 == 0,
                wf_expr_seq(spec_expr_seq(inner@)),
                sp_elifs(gtoks, gp2, first_pair) == sp_elifs(
                    gtoks,
                    self.pos as int,
                    spec_expr_seq(inner@),
                ),
            decreases self.remaining(),
        {
            let ghost epos = self.pos as int;
            let ghost acc = spec_expr_seq(inner@);
            self.pos = self.pos + 1;
            let ghost beforec = inner@;
            let c = match self.parse_expr() {
                Ok(e) => e,
                Err(e) => {
                    proof {
                        assert(sp_elifs(gtoks, epos, acc) is None);
                        assert(sp_cond(gtoks, p0) is None);
                    }
                    return Err(e);
                },
            };
            let ghost gc = c;
            inner.push(c);
            proof {
                lemma_push_wf(beforec, gc);
                lemma_spec_expr_seq_push(beforec, gc);
            }
            if !(self.pos < self.tokens.len() && matches!(&self.tokens[self.pos], Token::KwThen)) {
                proof {
                    assert(sp_elifs(gtoks, epos, acc) is None);
                    assert(sp_cond(gtoks, p0) is None);
                }
                return Err(Error::ParseError());
            }
            self.pos = self.pos + 1;
            let ghost beforet = inner@;
            let t = match self.parse_expr() {
                Ok(e) => e,
                Err(e) => {
                    proof {
                        assert(sp_elifs(gtoks, epos, acc) is None);
                        assert(sp_cond(gtoks, p0) is None);
                    }
                    return Err(e);
                },
            };
            let ghost gt = t;
            let ghost gq2 = self.pos as int;
            inner.push(t);
            proof {
                lemma_push_wf(beforet, gt);
                lemma_spec_expr_seq_push(beforet, gt);
                assert(spec_expr_seq(inner@) =~= acc + seq![
                    crate::expr::spec_expr(gc),
                    crate::expr::spec_expr(gt),
                ]);
                assert(sp_elifs(gtoks, epos, acc) == sp_elifs(
                    gtoks,
                    gq2,
                    acc + seq![crate::expr::spec_expr(gc), crate::expr::spec_expr(gt)],
                ));
            }
        }
        let ghost gp3 = self.pos as int;
        let ghost gacc = spec_expr_seq(inner@);
        proof {
            assert(sp_elifs(gtoks, gp3, gacc) == Some((gacc, gp3)));
        }
        if !(self.pos < self.tokens.len() && matches!(&self.tokens[self.pos], Token::KwElse)) {
            proof {
                assert(sp_cond(gtoks, p0) is None);
            }
            return Err(Error::ParseError());
        }
        self.pos = self.pos + 1;
        let ghost befored = inner@;
        let default = match self.parse_expr() {
            Ok(e) => e,
            Err(e) => {
                proof {
                    assert(sp_cond(gtoks, p0) is None);
                }
                return Err(e);
            },
        };
        let ghost gd = default;
        let ghost gp4 = self.pos as int;
        inner.push(default);
        proof {
            lemma_push_wf(befored, gd);
            lemma_spec_expr_seq_push(befored, gd);
        }
        if !(self.pos < self.tokens.len() && matches!(&self.tokens[self.pos], Token::KwEnd)) {
            proof {
                assert(sp_cond(gtoks, p0) is None);
            }
            return Err(Error::ParseError());
        }
        self.pos = self.pos + 1;
        proof {
            lemma_spec_expr_seq_len(inner@);
            assert(spec_expr_seq(inner@) =~= gacc.push(crate::expr::spec_expr(gd)));
            assert(sp_cond(gtoks, p0) == Some(
                (SpecExpr::Cond(gacc.push(crate::expr::spec_expr(gd))), gp4 + 1),
            ));
        }
        Ok(CondExpr { inner })
    }

    /// Parses one operand: a literal, a variable or parameter
    /// reference, a function literal, an invocation, a binding or a
    /// conditional.
    fn parse_primary(&mut self) -> (r: Result<Expr, Error>)
        requires
            old(self).wf(),
        ensures
            final(self).wf(),
            final(self).tokens@ == old(self).tokens@,
            (match r {
                Ok(e) => sp_primary(old(self).tokens@, old(self).pos as int) == Some(
                    (e@, final(self).pos as int),
                ) && final(self).pos > old(self).pos && wf_expr(e@),
                Err(_) => (sp_primary(old(self).tokens@, old(self).pos as int) is None),
            }),
        decreases old(self).remaining(), 1int,
    {
        if !(self.pos < self.tokens.len()) {
            return Err(Error::ParseError());
        }
        match &self.tokens[self.pos] {
            Token::Int(v) => {
                let owned: i64 = *v;
                self.pos = self.pos + 1;
                proof {
                    assert(spec_value(Value::Int64(owned)) == SpecValue::Int64(owned));
                    assert(wf_value(SpecValue::Int64(owned)));
                }
                Ok(Expr::Literal(Value::Int64(owned)))
            },
            Token::Float(bits) => {
                let owned: u64 = *bits;
                self.pos = self.pos + 1;
                proof {
                    assert(spec_value(Value::Float64(owned)) == SpecValue::Float64(owned));
                    assert(wf_value(SpecValue::Float64(owned)));
                }
                Ok(Expr::Literal(Value::Float64(owned)))
            },
            Token::KwTrue => {
                self.pos = self.pos + 1;
                proof {
                    assert(spec_value(Value::Bool(true)) == SpecValue::Bool(true));
                    assert(wf_value(SpecValue::Bool(true)));
                }
                Ok(Expr::Literal(Value::Bool(true)))
            },
            Token::KwFalse => {
                self.pos = self.pos + 1;
                proof {
                    assert(spec_value(Value::Bool(false)) == SpecValue::Bool(false));
                    assert(wf_value(SpecValue::Bool(false)));
                }
                Ok(Expr::Literal(Value::Bool(false)))
            },
            Token::Ident(s) => {
                let owned = s.clone();
                self.pos = self.pos + 1;
                Ok(Expr::Var(Variable { index: VariableIndex::Name(owned) }))
            },
            Token::Param(k) => {
                let owned: usize = *k;
                self.pos = self.pos + 1;
                Ok(Expr::Var(Variable { index: VariableIndex::ParamIndex(owned) }))
            },
            Token::KwFn => match self.parse_function() {
                Ok(f) => {
                    let ghost gf = f;
                    proof {
                        assert(spec_value(Value::Function(gf)) == gf@);
                    }
                    Ok(Expr::Literal(Value::Function(f)))
                },
                Err(e) => Err(e),
            },
            Token::LParen => match self.parse_invocation() {
                Ok(iv) => Ok(Expr::Invoke(iv)),
                Err(e) => Err(e),
            },
            Token::KwLet => match self.parse_let_bind() {
                Ok(l) => Ok(Expr::Let(l)),
                Err(e) => Err(e),
            },
            Token::KwIf => match self.parse_cond_expr() {
                Ok(c) => Ok(Expr::Cond(c)),
                Err(e) => Err(e),
            },
            _ => Err(Error::ParseError()),
        }
    }

    /// Precedence climbing over the four operator tiers: parses a
    /// primary, then while the next operator binds at least as tightly
    /// as `min_prec`, folds it left-associatively.
    fn parse_binary_expr(&mut self, min_prec: u32) -> (r: Result<Expr, Error>)
        requires
            old(self).wf(),
        ensures
            final(self).wf(),
            final(self).tokens@ == old(self).tokens@,
            (match r {
                Ok(e) => sp_binary(old(self).tokens@, old(self).pos as int, min_prec as int)
                    == Some((e@, final(self).pos as int)) && final(self).pos > old(self).pos
                    && wf_expr(e@),
                Err(_) => (sp_binary(old(self).tokens@, old(self).pos as int, min_prec as int)
                    is None),
            }),
        decreases old(self).remaining(), 2int,
    {
        let ghost gtoks = self.tokens@;
        let ghost p0 = self.pos as int;
        let ghost gmin = min_prec as int;
        let mut lhs = match self.parse_primary() {
            Ok(e) => e,
            Err(e) => {
                return Err(e);
            },
        };
        proof {
            assert(sp_binary(gtoks, p0, gmin) == sp_binary_rest(
                gtoks,
                self.pos as int,
                lhs@,
                gmin,
            ));
        }
        loop
            invariant_except_break
                gtoks == old(self).tokens@,
                p0 == old(self).pos as int,
                gmin == min_prec as int,
                self.wf(),
                self.tokens@ == gtoks,
                self.pos > p0,
                wf_expr(lhs@),
                sp_binary(gtoks, p0, gmin) == sp_binary_rest(
                    gtoks,
                    self.pos as int,
                    lhs@,
                    gmin,
                ),
            ensures
                self.wf(),
                self.tokens@ == gtoks,
                self.pos > p0,
                wf_expr(lhs@),
                sp_binary(gtoks, p0, gmin) == Some((lhs@, self.pos as int)),
            decreases self.remaining(),
        {
            let op: BinaryOp = if self.pos < self.tokens.len() {
                match &self.tokens[self.pos] {
                    Token::Op(op) => {
                        if op_prec(*op) >= min_prec {
                            *op
                        } else {
                            proof {
                                assert(sp_binary_rest(gtoks, self.pos as int, lhs@, gmin)
                                    == Some((lhs@, self.pos as int)));
                            }
                            break ;
                        }
                    },
                    _ => {
                        proof {
                            assert(sp_binary_rest(gtoks, self.pos as int, lhs@, gmin) == Some(
                                (lhs@, self.pos as int),
                            ));
                        }
                        break ;
                    },
                }
            } else {
                proof {
                    assert(sp_binary_rest(gtoks, self.pos as int, lhs@, gmin) == Some(
                        (lhs@, self.pos as int),
                    ));
                }
                break ;
            };
            let ghost opos = self.pos as int;
            self.pos = self.pos + 1;
            let rhs = match self.parse_binary_expr(op_prec(op) + 1) {
                Ok(e) => e,
                Err(e) => {
                    proof {
                        assert(sp_binary_rest(gtoks, opos, lhs@, gmin) is None);
                    }
                    return Err(e);
                },
            };
            let ghost glhs = lhs@;
            lhs = Expr::Binary(
                BinaryExpr { lhs: Box::new(lhs), op, rhs: Box::new(rhs) },
            );
            proof {
                assert(lhs@ == SpecExpr::Binary {
                    op,
                    lhs: Box::new(glhs),
                    rhs: Box::new(rhs@),
                });
                assert(sp_binary_rest(gtoks, opos, glhs, gmin) == sp_binary_rest(
                    gtoks,
                    self.pos as int,
                    lhs@,
                    gmin,
                ));
            }
        }
        Ok(lhs)
    }

    /// Parses one whole expression.
    pub fn parse_expr(&mut self) -> (r: Result<Expr, Error>)
        requires
            old(self).wf(),
        ensures
            final(self).wf(),
            final(self).tokens@ == old(self).tokens@,
            (match r {
                Ok(e) => sp_expr(old(self).tokens@, old(self).pos as int) == Some(
                    (e@, final(self).pos as int),
                ) && final(self).pos > old(self).pos && wf_expr(e@),
                Err(_) => (sp_expr(old(self).tokens@, old(self).pos as int) is None),
            }),
        decreases old(self).remaining(), 3int,
    {
        self.parse_binary_expr(0)
    }
}

proof fn lemma_spec_expr_seq_push(es: Seq<Expr>, x: Expr)
    ensures
        spec_expr_seq(es.push(x)) == spec_expr_seq(es).push(crate::expr::spec_expr(x)),
    decreases es,
{
    if es.len() == 0 {
        assert(es.push(x)[0] == x);
        assert(es.push(x).drop_first() =~= Seq::<Expr>::empty());
        assert(spec_expr_seq(Seq::<Expr>::empty()) == Seq::<SpecExpr>::empty());
        assert(spec_expr_seq(es.push(x)) == seq![crate::expr::spec_expr(x)] + spec_expr_seq(
            Seq::<Expr>::empty(),
        ));
        assert(spec_expr_seq(es.push(x)) =~= spec_expr_seq(es).push(crate::expr::spec_expr(x)));
    } else {
        assert(es.push(x)[0] == es[0]);
        assert(es.push(x).drop_first() =~= es.drop_first().push(x));
        lemma_spec_expr_seq_push(es.drop_first(), x);
        assert(spec_expr_seq(es.push(x)) == seq![crate::expr::spec_expr(es[0])] + spec_expr_seq(
            es.drop_first().push(x),
        ));
        assert(spec_expr_seq(es) == seq![crate::expr::spec_expr(es[0])] + spec_expr_seq(
            es.drop_first(),
        ));
        assert(spec_expr_seq(es.push(x)) =~= spec_expr_seq(es).push(crate::expr::spec_expr(x)));
    }
}

proof fn lemma_push_wf(es: Seq<Expr>, x: Expr)
    requires
        wf_expr_seq(spec_expr_seq(es)),
        wf_expr(crate::expr::spec_expr(x)),
    ensures
        wf_expr_seq(spec_expr_seq(es.push(x))),
{
    lemma_spec_expr_seq_push(es, x);
    lemma_wf_seq_push_spec(spec_expr_seq(es), crate::expr::spec_expr(x));
}

proof fn lemma_wf_seq_push_spec(es: Seq<SpecExpr>, e: SpecExpr)
    requires
        wf_expr_seq(es),
        wf_expr(e),
    ensures
        wf_expr_seq(es.push(e)),
    decreases es,
{
    if es.len() == 0 {
        assert(es.push(e)[0] == e);
        assert(es.push(e).drop_first() =~= Seq::<SpecExpr>::empty());
        assert(wf_expr_seq(es.push(e).drop_first()));
        assert(wf_expr(es.push(e)[0]));
    } else {
        assert(es.push(e)[0] == es[0]);
        assert(wf_expr(es[0]));
        assert(es.push(e).drop_first() =~= es.drop_first().push(e));
        lemma_wf_seq_push_spec(es.drop_first(), e);
        assert(wf_expr_seq(es.push(e).drop_first()));
        assert(wf_expr(es.push(e)[0]));
    }
}

/// Parses a whole program text into its expression. Success yields a
/// well-formed expression that is exactly the grammar's denotation of
/// the input's lexical reading, with every token consumed.
pub fn parse(input: &str) -> (r: Result<Expr, Error>)
    ensures
        (match r {
            Ok(e) => wf_expr(e@) && (exists|ts: Seq<Token>|
                st_tokens(input@, 0) == Some(tok_views(ts)) && #[trigger] sp_expr(ts, 0)
                    == Some((e@, ts.len() as int))),
            Err(_) => true,
        }),
{
    let mut chars: Vec<char> = Vec::new();
    for c in it: input.chars()
        invariant
            chars@ == it.seq().take(it.index() as int),
            it.seq() == input@,
    {
        chars.push(c);
    }
    proof {
        assert(chars@ =~= input@);
    }
    let tokens = match tokenize(&chars) {
        Some(ts) => ts,
        None => {
            return Err(Error::ParseError());
        },
    };
    let mut parser = AstParser::new(tokens);
    let expr = match parser.parse_expr() {
        Ok(e) => e,
        Err(e) => {
            return Err(e);
        },
    };
    if parser.pos < parser.tokens.len() {
        return Err(Error::ParseError());
    }
    proof {
        let ts = parser.tokens@;
        assert(st_tokens(input@, 0) == Some(tok_views(ts)) && sp_expr(ts, 0) == Some(
            (expr@, ts.len() as int),
        ));
    }
    Ok(expr)
}


/// Left associativity: two operators of the same precedence tier fold
/// the left pair first, whatever the tier and the operands.
pub proof fn lemma_parse_left_associative(a: i64, b: i64, c: i64, op1: BinaryOp, op2: BinaryOp)
    requires
        spec_prec(op1) == spec_prec(op2),
    ensures
        ({
            let toks = seq![
                Token::Int(a),
                Token::Op(op1),
                Token::Int(b),
                Token::Op(op2),
                Token::Int(c),
            ];
            let la = SpecExpr::Literal(SpecValue::Int64(a));
            let lb = SpecExpr::Literal(SpecValue::Int64(b));
            let lc = SpecExpr::Literal(SpecValue::Int64(c));
            let ab = SpecExpr::Binary { op: op1, lhs: Box::new(la), rhs: Box::new(lb) };
            sp_expr(toks, 0) == Some(
                (
                    SpecExpr::Binary { op: op2, lhs: Box::new(ab), rhs: Box::new(lc) },
                    5int,
                ),
            )
        }),
{
    let toks = seq![
        Token::Int(a),
        Token::Op(op1),
        Token::Int(b),
        Token::Op(op2),
        Token::Int(c),
    ];
    let la = SpecExpr::Literal(SpecValue::Int64(a));
    let lb = SpecExpr::Literal(SpecValue::Int64(b));
    let lc = SpecExpr::Literal(SpecValue::Int64(c));
    let ab = SpecExpr::Binary { op: op1, lhs: Box::new(la), rhs: Box::new(lb) };
    let abc = SpecExpr::Binary { op: op2, lhs: Box::new(ab), rhs: Box::new(lc) };
    assert(toks.len() == 5);
    assert(sp_primary(toks, 0) == Some((la, 1int)));
    assert(sp_primary(toks, 2) == Some((lb, 3int)));
    assert(sp_primary(toks, 4) == Some((lc, 5int)));
    assert(sp_binary_rest(toks, 3, lb, spec_prec(op1) + 1) == Some((lb, 3int)));
    assert(sp_binary(toks, 2, spec_prec(op1) + 1) == Some((lb, 3int)));
    assert(sp_binary_rest(toks, 5, lc, spec_prec(op2) + 1) == Some((lc, 5int)));
    assert(sp_binary(toks, 4, spec_prec(op2) + 1) == Some((lc, 5int)));
    assert(sp_binary_rest(toks, 5, abc, 0) == Some((abc, 5int)));
    assert(sp_binary_rest(toks, 3, ab, 0) == Some((abc, 5int)));
    assert(sp_binary_rest(toks, 1, la, 0) == Some((abc, 5int)));
    assert(sp_binary(toks, 0, 0) == Some((abc, 5int)));
}

/// Precedence: a tighter-binding operator takes its operands before a
/// looser one does, whatever the tiers and the operands.
pub proof fn lemma_parse_precedence(a: i64, b: i64, c: i64, op1: BinaryOp, op2: BinaryOp)
    requires
        spec_prec(op1) < spec_prec(op2),
    ensures
        ({
            let toks = seq![
                Token::Int(a),
                Token::Op(op1),
                Token::Int(b),
                Token::Op(op2),
                Token::Int(c),
            ];
            let la = SpecExpr::Literal(SpecValue::Int64(a));
            let lb = SpecExpr::Literal(SpecValue::Int64(b));
            let lc = SpecExpr::Literal(SpecValue::Int64(c));
            let bc = SpecExpr::Binary { op: op2, lhs: Box::new(lb), rhs: Box::new(lc) };
            sp_expr(toks, 0) == Some(
                (
                    SpecExpr::Binary { op: op1, lhs: Box::new(la), rhs: Box::new(bc) },
                    5int,
                ),
            )
        }),
{
    let toks = seq![
        Token::Int(a),
        Token::Op(op1),
        Token::Int(b),
        Token::Op(op2),
        Token::Int(c),
    ];
    let la = SpecExpr::Literal(SpecValue::Int64(a));
    let lb = SpecExpr::Literal(SpecValue::Int64(b));
    let lc = SpecExpr::Literal(SpecValue::Int64(c));
    let bc = SpecExpr::Binary { op: op2, lhs: Box::new(lb), rhs: Box::new(lc) };
    let abc = SpecExpr::Binary { op: op1, lhs: Box::new(la), rhs: Box::new(bc) };
    assert(toks.len() == 5);
    assert(sp_primary(toks, 0) == Some((la, 1int)));
    assert(sp_primary(toks, 2) == Some((lb, 3int)));
    assert(sp_primary(toks, 4) == Some((lc, 5int)));
    assert(sp_binary_rest(toks, 5, lc, spec_prec(op2) + 1) == Some((lc, 5int)));
    assert(sp_binary(toks, 4, spec_prec(op2) + 1) == Some((lc, 5int)));
    assert(sp_binary_rest(toks, 5, bc, spec_prec(op1) + 1) == Some((bc, 5int)));
    assert(sp_binary_rest(toks, 3, lb, spec_prec(op1) + 1) == Some((bc, 5int)));
    assert(sp_binary(toks, 2, spec_prec(op1) + 1) == Some((bc, 5int)));
    assert(sp_binary_rest(toks, 5, abc, 0) == Some((abc, 5int)));
    assert(sp_binary_rest(toks, 1, la, 0) == Some((abc, 5int)));
    assert(sp_binary(toks, 0, 0) == Some((abc, 5int)));
}

} // verus!
