//! Grammar of code regions: a recursive-descent parser from span text to
//! the tree in `ast`.
//!
//! Precedence, high to low: primary (numbers, identifiers, calls,
//! parenthesized expressions), then `*` `/` (left-associative), then `+` `-`
//! (left-associative), then `==` (non-associative). Assignment is a
//! statement form only. Every parsing function is an exact mirror of a spec
//! function; the contracts state that the two agree. Parsing is bounded by a
//! descent budget proportional to the span length, so a pathological
//! nesting fails with a syntax error instead of overflowing the stack.
use vstd::prelude::*;

use crate::ast::{Assign, Binary, Expression, InlineStatement, Statement, StatementBlock};
use crate::ast::{expr_view, exprs_view, stmt_view, stmts_view, block_view, inline_view};
use crate::ast::{ExprView, InlineView, StmtView};
use crate::float::{digit_run, is_digit, literal_bits, literal_bits_of, spec_is_numeral};
use crate::parser::{ident_end, is_ident_char};

verus! {

/// A grammar failure: the position of the first character that could not be
/// derived, and a description.
#[derive(Debug, PartialEq)]
pub struct SyntaxError {
    pub position: usize,
    pub message: String,
}

pub open spec fn is_ws(c: char) -> bool {
    c == ' ' || c == '\t' || c == '\n' || c == '\r'
}

pub open spec fn is_ident_start(c: char) -> bool {
    is_ident_char(c) && !is_digit(c)
}

pub open spec fn skip_ws(s: Seq<char>, i: int) -> int
    decreases s.len() - i,
{
    if i < 0 || i >= s.len() {
        i
    } else if is_ws(s[i]) {
        skip_ws(s, i + 1)
    } else {
        i
    }
}

pub proof fn lemma_digit_run(s: Seq<char>, i: int)
    requires
        0 <= i <= s.len(),
    ensures
        i <= digit_run(s, i) <= s.len(),
        forall|m: int| i <= m < digit_run(s, i) ==> is_digit(s[m]),
        digit_run(s, i) < s.len() ==> !is_digit(s[digit_run(s, i)]),
    decreases s.len() - i,
{
    if i < s.len() && is_digit(s[i]) {
        lemma_digit_run(s, i + 1);
    }
}

/// End of the numeral beginning at `i`: a digit run, optionally a point
/// followed by a further digit run.
pub open spec fn numeral_end(s: Seq<char>, i: int) -> int {
    let d = digit_run(s, i);
    if d < s.len() && s[d] == '.' && d + 1 < s.len() && is_digit(s[d + 1]) {
        digit_run(s, d + 1)
    } else {
        d
    }
}

/// Spec mirror of the primary parser: number, identifier, call, or
/// parenthesized expression. `Err` carries the failure position.
pub open spec fn sp_primary(s: Seq<char>, i: int, fuel: nat) -> Result<(ExprView, int), int>
    decreases fuel,
{
    if fuel == 0 {
        Err(i)
    } else {
        let j = skip_ws(s, i);
        if j < s.len() && s[j] == '(' {
            match sp_expr(s, j + 1, (fuel - 1) as nat) {
                Err(p) => Err(p),
                Ok((e, j2)) => {
                    let j3 = skip_ws(s, j2);
                    if j3 < s.len() && s[j3] == ')' {
                        Ok((e, j3 + 1))
                    } else {
                        Err(j3)
                    }
                },
            }
        } else if j < s.len() && is_digit(s[j]) {
            let end = numeral_end(s, j);
            Ok((ExprView::Number(literal_bits_of(s.subrange(j, end))), end))
        } else if j < s.len() && is_ident_start(s[j]) {
            let k = ident_end(s, j);
            let name = s.subrange(j, k);
            if k < s.len() && s[k] == '(' {
                match sp_args(s, k + 1, (fuel - 1) as nat) {
                    Err(p) => Err(p),
                    Ok((args, j2)) => Ok((ExprView::FunctionCall(name, args), j2)),
                }
            } else {
                Ok((ExprView::Identifier(name), k))
            }
        } else {
            Err(j)
        }
    }
}

/// Spec mirror of the argument-list parser; enters just after `(` and
/// consumes the closing `)`.
pub open spec fn sp_args(s: Seq<char>, i: int, fuel: nat) -> Result<(Seq<ExprView>, int), int>
    decreases fuel,
{
    if fuel == 0 {
        Err(i)
    } else {
        let j = skip_ws(s, i);
        if j < s.len() && s[j] == ')' {
            Ok((Seq::empty(), j + 1))
        } else {
            match sp_expr(s, j, (fuel - 1) as nat) {
                Err(p) => Err(p),
                Ok((e, j2)) => sp_args_rest(s, j2, seq![e], (fuel - 1) as nat),
            }
        }
    }
}

pub open spec fn sp_args_rest(s: Seq<char>, i: int, acc: Seq<ExprView>, fuel: nat) -> Result<
    (Seq<ExprView>, int),
    int,
>
    decreases fuel,
{
    if fuel == 0 {
        Err(i)
    } else {
        let j = skip_ws(s, i);
        if j < s.len() && s[j] == ')' {
            Ok((acc, j + 1))
        } else if j < s.len() && s[j] == ',' {
            match sp_expr(s, j + 1, (fuel - 1) as nat) {
                Err(p) => Err(p),
                Ok((e, j2)) => sp_args_rest(s, j2, acc.push(e), (fuel - 1) as nat),
            }
        } else {
            Err(j)
        }
    }
}

/// Spec mirror of the `*` `/` level, left-associative.
pub open spec fn sp_mul(s: Seq<char>, i: int, fuel: nat) -> Result<(ExprView, int), int>
    decreases fuel,
{
    if fuel == 0 {
        Err(i)
    } else {
        match sp_primary(s, i, (fuel - 1) as nat) {
            Err(p) => Err(p),
            Ok((e, j)) => sp_mul_rest(s, j, e, (fuel - 1) as nat),
        }
    }
}

pub open spec fn sp_mul_rest(s: Seq<char>, i: int, left: ExprView, fuel: nat) -> Result<
    (ExprView, int),
    int,
>
    decreases fuel,
{
    if fuel == 0 {
        Err(i)
    } else {
        let j = skip_ws(s, i);
        if j < s.len() && (s[j] == '*' || s[j] == '/') {
            let op = if s[j] == '*' {
                Binary::Mul
            } else {
                Binary::Div
            };
            match sp_primary(s, j + 1, (fuel - 1) as nat) {
                Err(p) => Err(p),
                Ok((r, j2)) => sp_mul_rest(
                    s,
                    j2,
                    ExprView::BinaryOp(Box::new(left), op, Box::new(r)),
                    (fuel - 1) as nat,
                ),
            }
        } else {
            Ok((left, i))
        }
    }
}

/// Spec mirror of the `+` `-` level, left-associative.
pub open spec fn sp_add(s: Seq<char>, i: int, fuel: nat) -> Result<(ExprView, int), int>
    decreases fuel,
{
    if fuel == 0 {
        Err(i)
    } else {
        match sp_mul(s, i, (fuel - 1) as nat) {
            Err(p) => Err(p),
            Ok((e, j)) => sp_add_rest(s, j, e, (fuel - 1) as nat),
        }
    }
}

pub open spec fn sp_add_rest(s: Seq<char>, i: int, left: ExprView, fuel: nat) -> Result<
    (ExprView, int),
    int,
>
    decreases fuel,
{
    if fuel == 0 {
        Err(i)
    } else {
        let j = skip_ws(s, i);
        if j < s.len() && (s[j] == '+' || s[j] == '-') {
            let op = if s[j] == '+' {
                Binary::Add
            } else {
                Binary::Sub
            };
            match sp_mul(s, j + 1, (fuel - 1) as nat) {
                Err(p) => Err(p),
                Ok((r, j2)) => sp_add_rest(
                    s,
                    j2,
                    ExprView::BinaryOp(Box::new(left), op, Box::new(r)),
                    (fuel - 1) as nat,
                ),
            }
        } else {
            Ok((left, i))
        }
    }
}

/// Spec mirror of the whole expression grammar: `==` is the lowest level
/// and does not associate.
pub open spec fn sp_expr(s: Seq<char>, i: int, fuel: nat) -> Result<(ExprView, int), int>
    decreases fuel,
{
    if fuel == 0 {
        Err(i)
    } else {
        match sp_add(s, i, (fuel - 1) as nat) {
            Err(p) => Err(p),
            Ok((l, j)) => {
                let j2 = skip_ws(s, j);
                if j2 + 1 < s.len() && s[j2] == '=' && s[j2 + 1] == '=' {
                    match sp_add(s, j2 + 2, (fuel - 1) as nat) {
                        Err(p) => Err(p),
                        Ok((r, j3)) => Ok(
                            (ExprView::BinaryOp(Box::new(l), Binary::Eq, Box::new(r)), j3),
                        ),
                    }
                } else {
                    Ok((l, j))
                }
            },
        }
    }
}

/// Spec mirror of the statement parser: `name op expr ;` or `expr ;`.
pub open spec fn sp_statement(s: Seq<char>, i: int, fuel: nat) -> Result<(StmtView, int), int>
    decreases fuel,
{
    if fuel == 0 {
        Err(i)
    } else {
        let j = skip_ws(s, i);
        let k = ident_end(s, j);
        let m = skip_ws(s, k);
        let assign_op: Option<(Assign, int)> = if j < s.len() && is_ident_start(s[j]) && m
            < s.len() {
            if s[m] == '=' && !(m + 1 < s.len() && s[m + 1] == '=') {
                Some((Assign::Eq, m + 1))
            } else if m + 1 < s.len() && s[m + 1] == '=' && s[m] == '+' {
                Some((Assign::Add, m + 2))
            } else if m + 1 < s.len() && s[m + 1] == '=' && s[m] == '-' {
                Some((Assign::Sub, m + 2))
            } else if m + 1 < s.len() && s[m + 1] == '=' && s[m] == '*' {
                Some((Assign::Mul, m + 2))
            } else if m + 1 < s.len() && s[m + 1] == '=' && s[m] == '/' {
                Some((Assign::Div, m + 2))
            } else {
                None
            }
        } else {
            None
        };
        match assign_op {
            Some((op, start)) => match sp_expr(s, start, (fuel - 1) as nat) {
                Err(p) => Err(p),
                Ok((e, j2)) => {
                    let j3 = skip_ws(s, j2);
                    if j3 < s.len() && s[j3] == ';' {
                        Ok((StmtView::Assign(s.subrange(j, k), op, Box::new(e)), j3 + 1))
                    } else {
                        Err(j3)
                    }
                },
            },
            None => match sp_expr(s, j, (fuel - 1) as nat) {
                Err(p) => Err(p),
                Ok((e, j2)) => {
                    let j3 = skip_ws(s, j2);
                    if j3 < s.len() && s[j3] == ';' {
                        Ok((StmtView::Expression(Box::new(e)), j3 + 1))
                    } else {
                        Err(j3)
                    }
                },
            },
        }
    }
}

/// Spec mirror of a statement list, running until `}` or the end of the
/// span (neither is consumed).
pub open spec fn sp_statements(s: Seq<char>, i: int, acc: Seq<StmtView>, fuel: nat) -> Result<
    (Seq<StmtView>, int),
    int,
>
    decreases fuel,
{
    if fuel == 0 {
        Err(i)
    } else {
        let j = skip_ws(s, i);
        if j >= s.len() || s[j] == '}' {
            Ok((acc, j))
        } else {
            match sp_statement(s, j, (fuel - 1) as nat) {
                Err(p) => Err(p),
                Ok((st, j2)) => sp_statements(s, j2, acc.push(st), (fuel - 1) as nat),
            }
        }
    }
}

/// The descent budget for a span of `n` characters.
pub open spec fn spec_budget(n: nat) -> nat {
    8 * n + 32
}

/// Spec mirror of `parse_expression`: a whole span holding one expression.
pub open spec fn sp_parse_expression(s: Seq<char>) -> Result<ExprView, int> {
    if s.len() > span_len_limit() {
        Err(0)
    } else {
        sp_parse_expression_in(s)
    }
}

pub open spec fn sp_parse_expression_in(s: Seq<char>) -> Result<ExprView, int> {
    match sp_expr(s, 0, spec_budget(s.len())) {
        Err(p) => Err(p),
        Ok((e, j)) => {
            let j2 = skip_ws(s, j);
            if j2 == s.len() {
                Ok(e)
            } else {
                Err(j2)
            }
        },
    }
}

/// Spec mirror of `parse_statement`: a whole span holding one statement.
pub open spec fn sp_parse_statement(s: Seq<char>) -> Result<StmtView, int> {
    if s.len() > span_len_limit() {
        Err(0)
    } else {
        sp_parse_statement_in(s)
    }
}

pub open spec fn sp_parse_statement_in(s: Seq<char>) -> Result<StmtView, int> {
    match sp_statement(s, 0, spec_budget(s.len())) {
        Err(p) => Err(p),
        Ok((st, j)) => {
            let j2 = skip_ws(s, j);
            if j2 == s.len() {
                Ok(st)
            } else {
                Err(j2)
            }
        },
    }
}

/// Spec mirror of `parse_statement_block`: a whole `={ ... }` span.
pub open spec fn sp_parse_statement_block(s: Seq<char>) -> Result<Seq<StmtView>, int> {
    if s.len() > span_len_limit() {
        Err(0)
    } else {
        sp_parse_statement_block_in(s)
    }
}

pub open spec fn sp_parse_statement_block_in(s: Seq<char>) -> Result<Seq<StmtView>, int> {
    if s.len() < 2 || s[0] != '=' || s[1] != '{' {
        Err(0)
    } else {
        match sp_statements(s, 2, Seq::empty(), spec_budget(s.len())) {
            Err(p) => Err(p),
            Ok((stmts, j)) => {
                if j < s.len() && s[j] == '}' && j + 1 == s.len() {
                    Ok(stmts)
                } else {
                    Err(j)
                }
            },
        }
    }
}

/// Spec mirror of `parse_inline`: a whole inline span, either a bare
/// identifier or `name(args)`.
pub open spec fn sp_parse_inline(s: Seq<char>) -> Result<InlineView, int> {
    if s.len() > span_len_limit() {
        Err(0)
    } else {
        sp_parse_inline_in(s)
    }
}

pub open spec fn sp_parse_inline_in(s: Seq<char>) -> Result<InlineView, int> {
    if !(s.len() > 0 && is_ident_start(s[0])) {
        Err(0)
    } else {
        let k = ident_end(s, 0);
        if k == s.len() {
            Ok(InlineView::VariableCall(s))
        } else if s[k] == '(' {
            match sp_args(s, k + 1, spec_budget(s.len())) {
                Err(p) => Err(p),
                Ok((args, j)) => {
                    if j == s.len() {
                        Ok(InlineView::FunctionCall(s.subrange(0, k), args))
                    } else {
                        Err(j)
                    }
                },
            }
        } else {
            Err(k)
        }
    }
}

proof fn lemma_exprs_view_prefix(s: Seq<Box<Expression>>, t: Seq<Box<Expression>>, n: int)
    requires
        n <= s.len(),
        n <= t.len(),
        forall|k: int| 0 <= k < n ==> s[k] == t[k],
    ensures
        exprs_view(s, n) == exprs_view(t, n),
    decreases n,
{
    if n > 0 {
        lemma_exprs_view_prefix(s, t, n - 1);
    }
}

proof fn lemma_exprs_view_push(s: Seq<Box<Expression>>, b: Box<Expression>)
    ensures
        exprs_view(s.push(b), s.len() as int + 1) == exprs_view(s, s.len() as int).push(
            expr_view(&b),
        ),
{
    lemma_exprs_view_prefix(s.push(b), s, s.len() as int);
    assert(s.push(b)[s.len() as int] == b);
}

proof fn lemma_stmts_view_prefix(s: Seq<Box<Statement>>, t: Seq<Box<Statement>>, n: int)
    requires
        n <= s.len(),
        n <= t.len(),
        forall|k: int| 0 <= k < n ==> s[k] == t[k],
    ensures
        stmts_view(s, n) == stmts_view(t, n),
    decreases n,
{
    if n > 0 {
        lemma_stmts_view_prefix(s, t, n - 1);
    }
}

proof fn lemma_stmts_view_push(s: Seq<Box<Statement>>, b: Box<Statement>)
    ensures
        stmts_view(s.push(b), s.len() as int + 1) == stmts_view(s, s.len() as int).push(
            stmt_view(&b),
        ),
{
    lemma_stmts_view_prefix(s.push(b), s, s.len() as int);
    assert(s.push(b)[s.len() as int] == b);
}

proof fn lemma_digit_run_exact(s: Seq<char>, i: int, k: int)
    requires
        0 <= i <= k <= s.len(),
        forall|m: int| i <= m < k ==> #[trigger] is_digit(s[m]),
        k == s.len() || !is_digit(s[k]),
    ensures
        digit_run(s, i) == k,
    decreases k - i,
{
    if i < k {
        lemma_digit_run_exact(s, i + 1, k);
    }
}

proof fn lemma_numeral_shape(s: Seq<char>, j: int)
    requires
        0 <= j < s.len(),
        is_digit(s[j]),
    ensures
        j < numeral_end(s, j) <= s.len(),
        spec_is_numeral(s.subrange(j, numeral_end(s, j))),
{
    lemma_digit_run(s, j);
    let d = digit_run(s, j);
    let end = numeral_end(s, j);
    let sub = s.subrange(j, end);
    let k = d - j;
    assert(!is_digit('.'));
    if d < s.len() && s[d] == '.' && d + 1 < s.len() && is_digit(s[d + 1]) {
        lemma_digit_run(s, d + 1);
        assert(end == digit_run(s, d + 1));
        assert(end >= d + 2);
        assert(forall|m: int| 0 <= m < k ==> #[trigger] is_digit(sub[m]));
        assert(sub[k] == '.');
        lemma_digit_run_exact(sub, 0, k);
        assert(forall|m: int| k + 1 <= m < sub.len() ==> #[trigger] is_digit(sub[m]));
        lemma_digit_run_exact(sub, k + 1, sub.len() as int);
        assert(digit_run(sub, k + 1) == sub.len()) by {
            assert(digit_run(sub, k + 1) == digit_run(sub, 0 + (k + 1)));
        }
    } else {
        assert(end == d);
        assert(forall|m: int| 0 <= m < k ==> #[trigger] is_digit(sub[m]));
        lemma_digit_run_exact(sub, 0, k);
        assert(k == sub.len());
    }
}

fn ws_exec(s: &str, len: usize, i: usize) -> (r: usize)
    requires
        len == s@.len(),
        i <= len,
    ensures
        r == skip_ws(s@, i as int),
        i <= r <= len,
    decreases len - i,
{
    if i < len {
        let c = s.get_char(i);
        if c == ' ' || c == '\t' || c == '\n' || c == '\r' {
            return ws_exec(s, len, i + 1);
        }
    }
    i
}

fn digit_run_exec(s: &str, len: usize, i: usize) -> (r: usize)
    requires
        len == s@.len(),
        i <= len,
    ensures
        r == digit_run(s@, i as int),
        i <= r <= len,
    decreases len - i,
{
    if i < len {
        let c = s.get_char(i);
        if c as u32 >= '0' as u32 && c as u32 <= '9' as u32 {
            return digit_run_exec(s, len, i + 1);
        }
    }
    i
}

fn is_digit_exec(c: char) -> (r: bool)
    ensures
        r == is_digit(c),
{
    c as u32 >= '0' as u32 && c as u32 <= '9' as u32
}

fn is_ident_start_exec(c: char) -> (r: bool)
    ensures
        r == is_ident_start(c),
{
    (c as u32 >= 'a' as u32 && c as u32 <= 'z' as u32) || (c as u32 >= 'A' as u32 && c as u32 <= 'Z'
        as u32) || c == '_'
}

fn primary_exec(s: &str, len: usize, i: usize, fuel: usize) -> (r: Result<
    (Expression, usize),
    usize,
>)
    requires
        len == s@.len(),
        i <= len,
    ensures
        match r {
            Ok((e, j)) => sp_primary(s@, i as int, fuel as nat) == Ok::<_, int>(
                (expr_view(&e), j as int),
            ) && j <= len,
            Err(p) => sp_primary(s@, i as int, fuel as nat) == Err::<(ExprView, int), _>(p as int),
        },
    decreases fuel,
{
    if fuel == 0 {
        return Err(i);
    }
    let j = ws_exec(s, len, i);
    if j < len && s.get_char(j) == '(' {
        match expr_exec(s, len, j + 1, fuel - 1) {
            Err(p) => Err(p),
            Ok((e, j2)) => {
                let j3 = ws_exec(s, len, j2);
                if j3 < len && s.get_char(j3) == ')' {
                    Ok((e, j3 + 1))
                } else {
                    Err(j3)
                }
            },
        }
    } else if j < len && is_digit_exec(s.get_char(j)) {
        proof {
            lemma_numeral_shape(s@, j as int);
        }
        let d = digit_run_exec(s, len, j);
        let end: usize = if d < len && s.get_char(d) == '.' && d + 1 < len && is_digit_exec(
            s.get_char(d + 1),
        ) {
            digit_run_exec(s, len, d + 1)
        } else {
            d
        };
        let lit = s.substring_char(j, end);
        let bits = literal_bits(lit);
        Ok((Expression::Number(bits), end))
    } else if j < len && is_ident_start_exec(s.get_char(j)) {
        let k = crate::parser::ident_end_exec(s, len, j);
        let name = s.substring_char(j, k).to_owned();
        if k < len && s.get_char(k) == '(' {
            match args_exec(s, len, k + 1, fuel - 1) {
                Err(p) => Err(p),
                Ok((args, j2)) => Ok((Expression::FunctionCall(name, args), j2)),
            }
        } else {
            Ok((Expression::Identifier(name), k))
        }
    } else {
        Err(j)
    }
}

fn args_exec(s: &str, len: usize, i: usize, fuel: usize) -> (r: Result<
    (Vec<Box<Expression>>, usize),
    usize,
>)
    requires
        len == s@.len(),
        i <= len,
    ensures
        match r {
            Ok((v, j)) => sp_args(s@, i as int, fuel as nat) == Ok::<_, int>(
                (exprs_view(v@, v@.len() as int), j as int),
            ) && j <= len,
            Err(p) => sp_args(s@, i as int, fuel as nat) == Err::<(Seq<ExprView>, int), _>(
                p as int,
            ),
        },
    decreases fuel,
{
    if fuel == 0 {
        return Err(i);
    }
    let j = ws_exec(s, len, i);
    if j < len && s.get_char(j) == ')' {
        let v: Vec<Box<Expression>> = Vec::new();
        proof {
            assert(exprs_view(v@, 0) =~= Seq::<ExprView>::empty());
        }
        Ok((v, j + 1))
    } else {
        match expr_exec(s, len, j, fuel - 1) {
            Err(p) => Err(p),
            Ok((e, j2)) => {
                let mut v: Vec<Box<Expression>> = Vec::new();
                let ghost v0 = v@;
                v.push(Box::new(e));
                proof {
                    lemma_exprs_view_push(v0, v@[0]);
                    assert(exprs_view(v@, 1) =~= seq![expr_view(&v@[0])]);
                }
                args_rest_exec(s, len, j2, v, fuel - 1)
            },
        }
    }
}

fn args_rest_exec(s: &str, len: usize, i: usize, acc: Vec<Box<Expression>>, fuel: usize) -> (r:
    Result<(Vec<Box<Expression>>, usize), usize>)
    requires
        len == s@.len(),
        i <= len,
    ensures
        match r {
            Ok((v, j)) => sp_args_rest(
                s@,
                i as int,
                exprs_view(acc@, acc@.len() as int),
                fuel as nat,
            ) == Ok::<_, int>((exprs_view(v@, v@.len() as int), j as int)) && j <= len,
            Err(p) => sp_args_rest(s@, i as int, exprs_view(acc@, acc@.len() as int), fuel as nat)
                == Err::<(Seq<ExprView>, int), _>(p as int),
        },
    decreases fuel,
{
    if fuel == 0 {
        return Err(i);
    }
    let j = ws_exec(s, len, i);
    if j < len && s.get_char(j) == ')' {
        Ok((acc, j + 1))
    } else if j < len && s.get_char(j) == ',' {
        match expr_exec(s, len, j + 1, fuel - 1) {
            Err(p) => Err(p),
            Ok((e, j2)) => {
                let mut acc2 = acc;
                let ghost a0 = acc2@;
                acc2.push(Box::new(e));
                proof {
                    lemma_exprs_view_push(a0, acc2@[a0.len() as int]);
                }
                args_rest_exec(s, len, j2, acc2, fuel - 1)
            },
        }
    } else {
        Err(j)
    }
}

fn mul_exec(s: &str, len: usize, i: usize, fuel: usize) -> (r: Result<(Expression, usize), usize>)
    requires
        len == s@.len(),
        i <= len,
    ensures
        match r {
            Ok((e, j)) => sp_mul(s@, i as int, fuel as nat) == Ok::<_, int>(
                (expr_view(&e), j as int),
            ) && j <= len,
            Err(p) => sp_mul(s@, i as int, fuel as nat) == Err::<(ExprView, int), _>(p as int),
        },
    decreases fuel,
{
    if fuel == 0 {
        return Err(i);
    }
    match primary_exec(s, len, i, fuel - 1) {
        Err(p) => Err(p),
        Ok((e, j)) => mul_rest_exec(s, len, j, e, fuel - 1),
    }
}

fn mul_rest_exec(s: &str, len: usize, i: usize, left: Expression, fuel: usize) -> (r: Result<
    (Expression, usize),
    usize,
>)
    requires
        len == s@.len(),
        i <= len,
    ensures
        match r {
            Ok((e, j)) => sp_mul_rest(s@, i as int, expr_view(&left), fuel as nat) == Ok::<_, int>(
                (expr_view(&e), j as int),
            ) && j <= len,
            Err(p) => sp_mul_rest(s@, i as int, expr_view(&left), fuel as nat) == Err::<
                (ExprView, int),
                _,
            >(p as int),
        },
    decreases fuel,
{
    if fuel == 0 {
        return Err(i);
    }
    let j = ws_exec(s, len, i);
    if j < len && (s.get_char(j) == '*' || s.get_char(j) == '/') {
        let op = if s.get_char(j) == '*' {
            Binary::Mul
        } else {
            Binary::Div
        };
        match primary_exec(s, len, j + 1, fuel - 1) {
            Err(p) => Err(p),
            Ok((rr, j2)) => mul_rest_exec(
                s,
                len,
                j2,
                Expression::BinaryOp(Box::new(left), op, Box::new(rr)),
                fuel - 1,
            ),
        }
    } else {
        Ok((left, i))
    }
}

fn add_exec(s: &str, len: usize, i: usize, fuel: usize) -> (r: Result<(Expression, usize), usize>)
    requires
        len == s@.len(),
        i <= len,
    ensures
        match r {
            Ok((e, j)) => sp_add(s@, i as int, fuel as nat) == Ok::<_, int>(
                (expr_view(&e), j as int),
            ) && j <= len,
            Err(p) => sp_add(s@, i as int, fuel as nat) == Err::<(ExprView, int), _>(p as int),
        },
    decreases fuel,
{
    if fuel == 0 {
        return Err(i);
    }
    match mul_exec(s, len, i, fuel - 1) {
        Err(p) => Err(p),
        Ok((e, j)) => add_rest_exec(s, len, j, e, fuel - 1),
    }
}

fn add_rest_exec(s: &str, len: usize, i: usize, left: Expression, fuel: usize) -> (r: Result<
    (Expression, usize),
    usize,
>)
    requires
        len == s@.len(),
        i <= len,
    ensures
        match r {
            Ok((e, j)) => sp_add_rest(s@, i as int, expr_view(&left), fuel as nat) == Ok::<_, int>(
                (expr_view(&e), j as int),
            ) && j <= len,
            Err(p) => sp_add_rest(s@, i as int, expr_view(&left), fuel as nat) == Err::<
                (ExprView, int),
                _,
            >(p as int),
        },
    decreases fuel,
{
    if fuel == 0 {
        return Err(i);
    }
    let j = ws_exec(s, len, i);
    if j < len && (s.get_char(j) == '+' || s.get_char(j) == '-') {
        let op = if s.get_char(j) == '+' {
            Binary::Add
        } else {
            Binary::Sub
        };
        match mul_exec(s, len, j + 1, fuel - 1) {
            Err(p) => Err(p),
            Ok((rr, j2)) => add_rest_exec(
                s,
                len,
                j2,
                Expression::BinaryOp(Box::new(left), op, Box::new(rr)),
                fuel - 1,
            ),
        }
    } else {
        Ok((left, i))
    }
}

fn expr_exec(s: &str, len: usize, i: usize, fuel: usize) -> (r: Result<(Expression, usize), usize>)
    requires
        len == s@.len(),
        i <= len,
    ensures
        match r {
            Ok((e, j)) => sp_expr(s@, i as int, fuel as nat) == Ok::<_, int>(
                (expr_view(&e), j as int),
            ) && j <= len,
            Err(p) => sp_expr(s@, i as int, fuel as nat) == Err::<(ExprView, int), _>(p as int),
        },
    decreases fuel,
{
    if fuel == 0 {
        return Err(i);
    }
    match add_exec(s, len, i, fuel - 1) {
        Err(p) => Err(p),
        Ok((l, j)) => {
            let j2 = ws_exec(s, len, j);
            if j2 < len && j2 + 1 < len && s.get_char(j2) == '=' && s.get_char(j2 + 1) == '=' {
                match add_exec(s, len, j2 + 2, fuel - 1) {
                    Err(p) => Err(p),
                    Ok((rr, j3)) => Ok(
                        (Expression::BinaryOp(Box::new(l), Binary::Eq, Box::new(rr)), j3),
                    ),
                }
            } else {
                Ok((l, j))
            }
        },
    }
}

fn statement_exec(s: &str, len: usize, i: usize, fuel: usize) -> (r: Result<
    (Statement, usize),
    usize,
>)
    requires
        len == s@.len(),
        i <= len,
    ensures
        match r {
            Ok((st, j)) => sp_statement(s@, i as int, fuel as nat) == Ok::<_, int>(
                (stmt_view(&st), j as int),
            ) && j <= len,
            Err(p) => sp_statement(s@, i as int, fuel as nat) == Err::<(StmtView, int), _>(
                p as int,
            ),
        },
    decreases fuel,
{
    if fuel == 0 {
        return Err(i);
    }
    let j = ws_exec(s, len, i);
    let k = crate::parser::ident_end_exec(s, len, j);
    let m = ws_exec(s, len, k);
    let mut op: Option<(Assign, usize)> = Option::None;
    if j < len && is_ident_start_exec(s.get_char(j)) && m < len {
        let c = s.get_char(m);
        let has2 = m + 1 < len;
        let c2 = if has2 {
            s.get_char(m + 1)
        } else {
            '\0'
        };
        if c == '=' && !(has2 && c2 == '=') {
            op = Option::Some((Assign::Eq, m + 1));
        } else if has2 && c2 == '=' && c == '+' {
            op = Option::Some((Assign::Add, m + 2));
        } else if has2 && c2 == '=' && c == '-' {
            op = Option::Some((Assign::Sub, m + 2));
        } else if has2 && c2 == '=' && c == '*' {
            op = Option::Some((Assign::Mul, m + 2));
        } else if has2 && c2 == '=' && c == '/' {
            op = Option::Some((Assign::Div, m + 2));
        }
    }
    match op {
        Option::Some((aop, start)) => {
            match expr_exec(s, len, start, fuel - 1) {
                Err(p) => Err(p),
                Ok((e, j2)) => {
                    let j3 = ws_exec(s, len, j2);
                    if j3 < len && s.get_char(j3) == ';' {
                        let name = s.substring_char(j, k).to_owned();
                        Ok((Statement::Assign(name, aop, Box::new(e)), j3 + 1))
                    } else {
                        Err(j3)
                    }
                },
            }
        },
        Option::None => {
            match expr_exec(s, len, j, fuel - 1) {
                Err(p) => Err(p),
                Ok((e, j2)) => {
                    let j3 = ws_exec(s, len, j2);
                    if j3 < len && s.get_char(j3) == ';' {
                        Ok((Statement::Expression(Box::new(e)), j3 + 1))
                    } else {
                        Err(j3)
                    }
                },
            }
        },
    }
}

fn statements_exec(s: &str, len: usize, i: usize, acc: Vec<Box<Statement>>, fuel: usize) -> (r:
    Result<(Vec<Box<Statement>>, usize), usize>)
    requires
        len == s@.len(),
        i <= len,
    ensures
        match r {
            Ok((v, j)) => sp_statements(
                s@,
                i as int,
                stmts_view(acc@, acc@.len() as int),
                fuel as nat,
            ) == Ok::<_, int>((stmts_view(v@, v@.len() as int), j as int)) && j <= len,
            Err(p) => sp_statements(s@, i as int, stmts_view(acc@, acc@.len() as int), fuel as nat)
                == Err::<(Seq<StmtView>, int), _>(p as int),
        },
    decreases fuel,
{
    if fuel == 0 {
        return Err(i);
    }
    let j = ws_exec(s, len, i);
    if j >= len || s.get_char(j) == '}' {
        Ok((acc, j))
    } else {
        match statement_exec(s, len, j, fuel - 1) {
            Err(p) => Err(p),
            Ok((st, j2)) => {
                let mut acc2 = acc;
                let ghost a0 = acc2@;
                acc2.push(Box::new(st));
                proof {
                    lemma_stmts_view_push(a0, acc2@[a0.len() as int]);
                }
                statements_exec(s, len, j2, acc2, fuel - 1)
            },
        }
    }
}

/// Largest span length the parser accepts, so that its descent budget
/// fits the machine word.
pub open spec fn span_len_limit() -> nat {
    (usize::MAX / 8 - 4) as nat
}

fn budget_exec(len: usize) -> (r: usize)
    requires
        len <= usize::MAX / 8 - 4,
    ensures
        r == spec_budget(len as nat),
{
    8 * len + 32
}

fn syntax_error(position: usize) -> (r: SyntaxError)
    ensures
        r.position == position,
{
    SyntaxError { position, message: String::from_str("could not parse this code region") }
}

/// Parses a whole span as one expression.
pub fn parse_expression(s: &str) -> (r: Result<Expression, SyntaxError>)
    ensures
        match r {
            Ok(e) => sp_parse_expression(s@) == Ok::<_, int>(expr_view(&e)),
            Err(er) => sp_parse_expression(s@) == Err::<ExprView, _>(er.position as int),
        },
{
    let len = s.unicode_len();
    if len > usize::MAX / 8 - 4 {
        return Err(syntax_error(0));
    }
    match expr_exec(s, len, 0, budget_exec(len)) {
        Err(p) => Err(syntax_error(p)),
        Ok((e, j)) => {
            let j2 = ws_exec(s, len, j);
            if j2 == len {
                Ok(e)
            } else {
                Err(syntax_error(j2))
            }
        },
    }
}

/// Parses a whole span as one statement.
pub fn parse_statement(s: &str) -> (r: Result<Statement, SyntaxError>)
    ensures
        match r {
            Ok(st) => sp_parse_statement(s@) == Ok::<_, int>(stmt_view(&st)),
            Err(er) => sp_parse_statement(s@) == Err::<StmtView, _>(er.position as int),
        },
{
    let len = s.unicode_len();
    if len > usize::MAX / 8 - 4 {
        return Err(syntax_error(0));
    }
    match statement_exec(s, len, 0, budget_exec(len)) {
        Err(p) => Err(syntax_error(p)),
        Ok((st, j)) => {
            let j2 = ws_exec(s, len, j);
            if j2 == len {
                Ok(st)
            } else {
                Err(syntax_error(j2))
            }
        },
    }
}

/// Parses a whole `={ ... }` span as a statement block.
pub fn parse_statement_block(s: &str) -> (r: Result<StatementBlock, SyntaxError>)
    ensures
        match r {
            Ok(b) => sp_parse_statement_block(s@) == Ok::<_, int>(block_view(&b)),
            Err(er) => sp_parse_statement_block(s@) == Err::<Seq<StmtView>, _>(er.position as int),
        },
{
    let len = s.unicode_len();
    if len > usize::MAX / 8 - 4 {
        return Err(syntax_error(0));
    }
    if !(len >= 2 && s.get_char(0) == '=' && s.get_char(1) == '{') {
        return Err(syntax_error(0));
    }
    let acc: Vec<Box<Statement>> = Vec::new();
    proof {
        assert(stmts_view(acc@, 0) =~= Seq::<StmtView>::empty());
    }
    match statements_exec(s, len, 2, acc, budget_exec(len)) {
        Err(p) => Err(syntax_error(p)),
        Ok((v, j)) => {
            if j < len && s.get_char(j) == '}' && j + 1 == len {
                Ok(StatementBlock { stmts: v })
            } else {
                Err(syntax_error(j))
            }
        },
    }
}

/// Parses a whole inline span: a bare identifier, or `name(args)`.
pub fn parse_inline(s: &str) -> (r: Result<InlineStatement, SyntaxError>)
    ensures
        match r {
            Ok(i) => sp_parse_inline(s@) == Ok::<_, int>(inline_view(&i)),
            Err(er) => sp_parse_inline(s@) == Err::<InlineView, _>(er.position as int),
        },
{
    let len = s.unicode_len();
    if len > usize::MAX / 8 - 4 {
        return Err(syntax_error(0));
    }
    if !(len > 0 && is_ident_start_exec(s.get_char(0))) {
        return Err(syntax_error(0));
    }
    let k = crate::parser::ident_end_exec(s, len, 0);
    if k == len {
        let name = s.to_owned();
        return Ok(InlineStatement::VariableCall(name));
    }
    if s.get_char(k) == '(' {
        match args_exec(s, len, k + 1, budget_exec(len)) {
            Err(p) => Err(syntax_error(p)),
            Ok((args, j)) => {
                if j == len {
                    let name = s.substring_char(0, k).to_owned();
                    Ok(InlineStatement::FunctionCall(name, args))
                } else {
                    Err(syntax_error(j))
                }
            },
        }
    } else {
        Err(syntax_error(k))
    }
}

} // verus!
