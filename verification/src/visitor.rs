//! The evaluator: values, the environment, and the walk over the document
//! tree.
//!
//! Evaluation threads one mutable environment through the document in
//! order. Statement blocks run for their side effects; text blocks render
//! literal fragments verbatim and splice in the rendered value of each
//! inline statement. A user-defined function call binds its parameters in a
//! child environment whose writes do not escape; the nesting depth of such
//! calls is bounded, and exceeding the bound is an error rather than a
//! stack overflow. Every evaluation function mirrors a spec function
//! exactly.
use vstd::prelude::*;

use crate::ast::{Assign, Binary, Expression, InlineStatement, Statement, StatementBlock};
use crate::ast::{block_view, expr_view, exprs_view, inline_view, stmt_view, stmts_view};
use crate::ast::{texts_view, topnode_view, toplevel_view, tops_view};
use crate::ast::{ev_size, evs_size, sv_size, svs_size};
use crate::ast::{ExprView, InlineView, StmtView, TextView, TopView};
use crate::ast::{Text, TextBlock, TopLevel, TopNode};
use crate::float::{ONE_BITS, ZERO_BITS};
use crate::float::{add_bits, div_bits, eq_bits, mul_bits, sub_bits};
use crate::float::{add_bits_of, div_bits_of, eq_bits_of, mul_bits_of, sub_bits_of};
use crate::float::{cos_bits, format_bits, format_bits_of, sin_bits, spec_cos_bits, spec_sin_bits};

verus! {

/// A runtime value: text or an IEEE binary64 number, carried as its bit
/// pattern.
#[derive(Debug, PartialEq)]
pub enum Value {
    Text(String),
    Number(u64),
}

/// Ghost mirror of `Value`.
pub enum ValueView {
    Text(Seq<char>),
    Number(u64),
}

pub open spec fn value_view(v: &Value) -> ValueView {
    match v {
        Value::Text(s) => ValueView::Text(s@),
        Value::Number(b) => ValueView::Number(*b),
    }
}

/// A built-in function: numeric sine or cosine, or one that takes no
/// arguments and returns a fixed text.
#[derive(Debug, PartialEq)]
pub enum Builtin {
    Sin,
    Cos,
    ConstText(String),
}

/// Ghost mirror of `Builtin`.
pub enum BuiltinView {
    Sin,
    Cos,
    ConstText(Seq<char>),
}

pub open spec fn builtin_view(b: &Builtin) -> BuiltinView {
    match b {
        Builtin::Sin => BuiltinView::Sin,
        Builtin::Cos => BuiltinView::Cos,
        Builtin::ConstText(s) => BuiltinView::ConstText(s@),
    }
}

/// An evaluation failure; the first one aborts the whole render.
#[derive(Debug, PartialEq)]
pub enum EvalError {
    UndefinedVariable(String),
    UndefinedFunction(String),
    ArityMismatch { name: String, expected: usize, got: usize },
    TypeMismatch { operation: String },
    NoReturnValue(String),
    RecursionLimitExceeded,
}

/// Ghost mirror of `EvalError`.
pub enum ErrView {
    UndefinedVariable(Seq<char>),
    UndefinedFunction(Seq<char>),
    ArityMismatch(Seq<char>, int, int),
    TypeMismatch(Seq<char>),
    NoReturnValue(Seq<char>),
    RecursionLimitExceeded,
}

pub open spec fn err_view(e: &EvalError) -> ErrView {
    match e {
        EvalError::UndefinedVariable(n) => ErrView::UndefinedVariable(n@),
        EvalError::UndefinedFunction(n) => ErrView::UndefinedFunction(n@),
        EvalError::ArityMismatch { name, expected, got } => ErrView::ArityMismatch(
            name@,
            *expected as int,
            *got as int,
        ),
        EvalError::TypeMismatch { operation } => ErrView::TypeMismatch(operation@),
        EvalError::NoReturnValue(n) => ErrView::NoReturnValue(n@),
        EvalError::RecursionLimitExceeded => ErrView::RecursionLimitExceeded,
    }
}

/// The environment: variable bindings, user-defined functions, and
/// built-ins. The newest binding for a name stands last in its list;
/// earlier entries for the same name are dead.
#[derive(Debug, PartialEq)]
pub struct Visitor {
    pub variables: Vec<(String, Value)>,
    pub functions: Vec<(String, (Vec<String>, StatementBlock))>,
    pub builtins: Vec<(String, Builtin)>,
}

pub open spec fn vars_map(s: Seq<(String, Value)>) -> Map<Seq<char>, ValueView>
    decreases s.len(),
{
    if s.len() == 0 {
        Map::empty()
    } else {
        vars_map(s.drop_last()).insert(s.last().0@, value_view(&s.last().1))
    }
}

pub open spec fn names_view(s: Seq<String>, n: int) -> Seq<Seq<char>>
    decreases n,
{
    if n <= 0 || n > s.len() {
        Seq::empty()
    } else {
        names_view(s, n - 1).push(s[n - 1]@)
    }
}

pub open spec fn funcs_map(s: Seq<(String, (Vec<String>, StatementBlock))>) -> Map<
    Seq<char>,
    (Seq<Seq<char>>, Seq<StmtView>),
>
    decreases s.len(),
{
    if s.len() == 0 {
        Map::empty()
    } else {
        funcs_map(s.drop_last()).insert(
            s.last().0@,
            (names_view(s.last().1.0@, s.last().1.0@.len() as int), block_view(&s.last().1.1)),
        )
    }
}

pub open spec fn builtins_map(s: Seq<(String, Builtin)>) -> Map<Seq<char>, BuiltinView>
    decreases s.len(),
{
    if s.len() == 0 {
        Map::empty()
    } else {
        builtins_map(s.drop_last()).insert(s.last().0@, builtin_view(&s.last().1))
    }
}

/// Ghost mirror of the whole environment.
pub struct EnvView {
    pub vars: Map<Seq<char>, ValueView>,
    pub funcs: Map<Seq<char>, (Seq<Seq<char>>, Seq<StmtView>)>,
    pub builtins: Map<Seq<char>, BuiltinView>,
}

pub open spec fn visitor_view(v: &Visitor) -> EnvView {
    EnvView {
        vars: vars_map(v.variables@),
        funcs: funcs_map(v.functions@),
        builtins: builtins_map(v.builtins@),
    }
}

/// The built-ins every fresh environment carries.
pub open spec fn default_builtins() -> Map<Seq<char>, BuiltinView> {
    Map::empty().insert("sin"@, BuiltinView::Sin).insert("cos"@, BuiltinView::Cos)
}

impl Visitor {
    /// A fresh environment: no variables, no user functions, the numeric
    /// built-ins registered.
    pub fn new() -> (r: Self)
        ensures
            visitor_view(&r).vars == Map::<Seq<char>, ValueView>::empty(),
            visitor_view(&r).funcs == Map::<Seq<char>, (Seq<Seq<char>>, Seq<StmtView>)>::empty(),
            visitor_view(&r).builtins == default_builtins(),
    {
        let mut builtins: Vec<(String, Builtin)> = Vec::new();
        builtins.push((String::from_str("sin"), Builtin::Sin));
        let ghost b1 = builtins@;
        builtins.push((String::from_str("cos"), Builtin::Cos));
        proof {
            assert(b1.drop_last() =~= Seq::<(String, Builtin)>::empty());
            assert(builtins@.drop_last() =~= b1);
            assert(builtins_map(Seq::<(String, Builtin)>::empty()) == Map::<
                Seq<char>,
                BuiltinView,
            >::empty());
            assert(builtins_map(b1) == builtins_map(b1.drop_last()).insert(
                b1.last().0@,
                builtin_view(&b1.last().1),
            ));
            assert(builtins_map(builtins@) == builtins_map(builtins@.drop_last()).insert(
                builtins@.last().0@,
                builtin_view(&builtins@.last().1),
            ));
            assert(builtins_map(builtins@) =~= default_builtins());
        }
        Visitor { variables: Vec::new(), functions: Vec::new(), builtins }
    }

    /// Defines (or redefines) a user function. The grammar has no surface
    /// form for definitions; a host registers them here, as with the
    /// built-ins.
    pub fn assign_function(&mut self, name: String, args: Vec<String>, body: StatementBlock)
        ensures
            visitor_view(final(self)).funcs == visitor_view(old(self)).funcs.insert(
                name@,
                (names_view(args@, args@.len() as int), block_view(&body)),
            ),
            visitor_view(final(self)).vars == visitor_view(old(self)).vars,
            visitor_view(final(self)).builtins == visitor_view(old(self)).builtins,
    {
        let ghost f0 = self.functions@;
        self.functions.push((name, (args, body)));
        proof {
            assert(self.functions@.drop_last() =~= f0);
        }
    }

    /// Binds (or rebinds) a variable.
    pub fn assign_variable(&mut self, name: String, value: Value)
        ensures
            visitor_view(final(self)).vars == visitor_view(old(self)).vars.insert(
                name@,
                value_view(&value),
            ),
            visitor_view(final(self)).funcs == visitor_view(old(self)).funcs,
            visitor_view(final(self)).builtins == visitor_view(old(self)).builtins,
    {
        let ghost v0 = self.variables@;
        self.variables.push((name, value));
        proof {
            assert(self.variables@.drop_last() =~= v0);
        }
    }

    /// Registers (or replaces) a built-in.
    pub fn assign_builtin(&mut self, name: String, b: Builtin)
        ensures
            visitor_view(final(self)).builtins == visitor_view(old(self)).builtins.insert(
                name@,
                builtin_view(&b),
            ),
            visitor_view(final(self)).vars == visitor_view(old(self)).vars,
            visitor_view(final(self)).funcs == visitor_view(old(self)).funcs,
    {
        let ghost b0 = self.builtins@;
        self.builtins.push((name, b));
        proof {
            assert(self.builtins@.drop_last() =~= b0);
        }
    }
}

fn clone_value(v: &Value) -> (r: Value)
    ensures
        value_view(&r) == value_view(v),
{
    match v {
        Value::Text(s) => Value::Text(s.clone()),
        Value::Number(b) => Value::Number(*b),
    }
}

fn lookup_var_in(vars: &Vec<(String, Value)>, name: &String, n: usize) -> (r: Option<Value>)
    requires
        n <= vars@.len(),
    ensures
        match r {
            Some(v) => vars_map(vars@.take(n as int)).contains_key(name@) && vars_map(
                vars@.take(n as int),
            )[name@] == value_view(&v),
            None => !vars_map(vars@.take(n as int)).contains_key(name@),
        },
    decreases n,
{
    if n == 0 {
        proof {
            assert(vars@.take(0) =~= Seq::<(String, Value)>::empty());
        }
        return Option::None;
    }
    let ghost pre = vars@.take(n as int);
    proof {
        assert(pre.drop_last() =~= vars@.take(n as int - 1));
        assert(pre.last() == vars@[n as int - 1]);
    }
    if vars[n - 1].0.eq(name) {
        Option::Some(clone_value(&vars[n - 1].1))
    } else {
        lookup_var_in(vars, name, n - 1)
    }
}

fn lookup_var(vars: &Vec<(String, Value)>, name: &String) -> (r: Option<Value>)
    ensures
        match r {
            Some(v) => vars_map(vars@).contains_key(name@) && vars_map(vars@)[name@] == value_view(
                &v,
            ),
            None => !vars_map(vars@).contains_key(name@),
        },
{
    let n = vars.len();
    proof {
        assert(vars@.take(n as int) =~= vars@);
    }
    lookup_var_in(vars, name, n)
}

fn lookup_fn_in(fns: &Vec<(String, (Vec<String>, StatementBlock))>, name: &String, n: usize) -> (r:
    Option<usize>)
    requires
        n <= fns@.len(),
    ensures
        match r {
            Some(i) => i < fns@.len() && funcs_map(fns@.take(n as int)).contains_key(name@)
                && funcs_map(fns@.take(n as int))[name@] == (
                names_view(fns@[i as int].1.0@, fns@[i as int].1.0@.len() as int),
                block_view(&fns@[i as int].1.1),
            ),
            None => !funcs_map(fns@.take(n as int)).contains_key(name@),
        },
    decreases n,
{
    if n == 0 {
        proof {
            assert(fns@.take(0) =~= Seq::<(String, (Vec<String>, StatementBlock))>::empty());
        }
        return Option::None;
    }
    let ghost pre = fns@.take(n as int);
    proof {
        assert(pre.drop_last() =~= fns@.take(n as int - 1));
        assert(pre.last() == fns@[n as int - 1]);
    }
    if fns[n - 1].0.eq(name) {
        Option::Some(n - 1)
    } else {
        lookup_fn_in(fns, name, n - 1)
    }
}

pub open spec fn bool_bits(b: bool) -> u64 {
    if b {
        ONE_BITS
    } else {
        ZERO_BITS
    }
}

pub open spec fn assign_op_name(op: Assign) -> Seq<char> {
    match op {
        Assign::Eq => ("=")@,
        Assign::Add => ("+=")@,
        Assign::Sub => ("-=")@,
        Assign::Mul => ("*=")@,
        Assign::Div => ("/=")@,
    }
}

pub open spec fn compound_bits(op: Assign, a: u64, b: u64) -> u64 {
    match op {
        Assign::Eq => b,
        Assign::Add => add_bits_of(a, b),
        Assign::Sub => sub_bits_of(a, b),
        Assign::Mul => mul_bits_of(a, b),
        Assign::Div => div_bits_of(a, b),
    }
}

/// What a binary operator yields: numeric arithmetic on numbers; `+` also
/// concatenates, rendering a numeric operand beside text; `==` compares
/// kind-aware and yields numeric one or zero, never an error.
pub open spec fn sp_binary(op: Binary, a: ValueView, b: ValueView) -> Result<ValueView, ErrView> {
    match op {
        Binary::Add => match (a, b) {
            (ValueView::Number(x), ValueView::Number(y)) => Ok(ValueView::Number(add_bits_of(x, y))),
            (ValueView::Text(x), ValueView::Text(y)) => Ok(ValueView::Text(x + y)),
            (ValueView::Text(x), ValueView::Number(y)) => Ok(
                ValueView::Text(x + format_bits_of(y)),
            ),
            (ValueView::Number(x), ValueView::Text(y)) => Ok(
                ValueView::Text(format_bits_of(x) + y),
            ),
        },
        Binary::Sub => match (a, b) {
            (ValueView::Number(x), ValueView::Number(y)) => Ok(ValueView::Number(sub_bits_of(x, y))),
            _ => Err(ErrView::TypeMismatch(("-")@)),
        },
        Binary::Mul => match (a, b) {
            (ValueView::Number(x), ValueView::Number(y)) => Ok(ValueView::Number(mul_bits_of(x, y))),
            _ => Err(ErrView::TypeMismatch(("*")@)),
        },
        Binary::Div => match (a, b) {
            (ValueView::Number(x), ValueView::Number(y)) => Ok(ValueView::Number(div_bits_of(x, y))),
            _ => Err(ErrView::TypeMismatch(("/")@)),
        },
        Binary::Eq => match (a, b) {
            (ValueView::Number(x), ValueView::Number(y)) => Ok(
                ValueView::Number(bool_bits(eq_bits_of(x, y))),
            ),
            (ValueView::Text(x), ValueView::Text(y)) => Ok(ValueView::Number(bool_bits(x == y))),
            _ => Ok(ValueView::Number(ZERO_BITS)),
        },
    }
}

/// What a built-in yields on already-evaluated arguments.
pub open spec fn sp_builtin(b: BuiltinView, name: Seq<char>, vals: Seq<ValueView>) -> Result<
    ValueView,
    ErrView,
> {
    match b {
        BuiltinView::Sin => if vals.len() != 1 {
            Err(ErrView::ArityMismatch(name, 1, vals.len() as int))
        } else {
            match vals[0] {
                ValueView::Number(x) => Ok(ValueView::Number(spec_sin_bits(x))),
                ValueView::Text(_) => Err(ErrView::TypeMismatch(("sin")@)),
            }
        },
        BuiltinView::Cos => if vals.len() != 1 {
            Err(ErrView::ArityMismatch(name, 1, vals.len() as int))
        } else {
            match vals[0] {
                ValueView::Number(x) => Ok(ValueView::Number(spec_cos_bits(x))),
                ValueView::Text(_) => Err(ErrView::TypeMismatch(("cos")@)),
            }
        },
        BuiltinView::ConstText(t) => if vals.len() != 0 {
            Err(ErrView::ArityMismatch(name, 0, vals.len() as int))
        } else {
            Ok(ValueView::Text(t))
        },
    }
}

/// The parameter bindings of a call, laid over the caller's variables.
pub open spec fn bind_params(
    vars: Map<Seq<char>, ValueView>,
    params: Seq<Seq<char>>,
    vals: Seq<ValueView>,
    n: int,
) -> Map<Seq<char>, ValueView>
    decreases n,
{
    if n <= 0 || n > params.len() || n > vals.len() {
        vars
    } else {
        bind_params(vars, params, vals, n - 1).insert(params[n - 1], vals[n - 1])
    }
}

/// How many user-function calls may nest before evaluation fails with the
/// recursion-limit error.
pub open spec fn recursion_limit() -> nat {
    64
}

/// What an expression evaluates to. Expressions never change the
/// environment: a call binds its parameters in a child environment whose
/// writes are discarded.
pub open spec fn sp_eval_expr(env: EnvView, e: ExprView, fuel: nat) -> Result<ValueView, ErrView>
    decreases fuel, ev_size(e), 0int,
{
    match e {
        ExprView::Number(b) => Ok(ValueView::Number(b)),
        ExprView::Identifier(n) => if env.vars.contains_key(n) {
            Ok(env.vars[n])
        } else {
            Err(ErrView::UndefinedVariable(n))
        },
        ExprView::BinaryOp(l, op, r) => match sp_eval_expr(env, *l, fuel) {
            Err(er) => Err(er),
            Ok(a) => match sp_eval_expr(env, *r, fuel) {
                Err(er) => Err(er),
                Ok(b) => sp_binary(op, a, b),
            },
        },
        ExprView::FunctionCall(name, args) => sp_eval_call(env, name, args, fuel),
    }
}

/// What a call evaluates to: arguments left to right, then the user
/// function of that name if one exists, else the built-in, else an error.
pub open spec fn sp_eval_call(env: EnvView, name: Seq<char>, args: Seq<ExprView>, fuel: nat) -> Result<
    ValueView,
    ErrView,
>
    decreases fuel, 1 + evs_size(args, args.len() as int), 0int,
{
    match sp_eval_args(env, args, args.len() as int, fuel) {
        Err(er) => Err(er),
        Ok(vals) => {
            if env.funcs.contains_key(name) {
                let params = env.funcs[name].0;
                let body = env.funcs[name].1;
                if params.len() != vals.len() {
                    Err(ErrView::ArityMismatch(name, params.len() as int, vals.len() as int))
                } else if fuel == 0 {
                    Err(ErrView::RecursionLimitExceeded)
                } else {
                    let child = EnvView {
                        vars: bind_params(env.vars, params, vals, params.len() as int),
                        ..env
                    };
                    match sp_eval_block(child, body, body.len() as int, (fuel - 1) as nat) {
                        Err(er) => Err(er),
                        Ok((_vs, Some(v))) => Ok(v),
                        Ok((_vs, None)) => Err(ErrView::NoReturnValue(name)),
                    }
                }
            } else if env.builtins.contains_key(name) {
                sp_builtin(env.builtins[name], name, vals)
            } else {
                Err(ErrView::UndefinedFunction(name))
            }
        },
    }
}

/// The first `n` arguments, evaluated left to right; the leftmost error
/// wins.
pub open spec fn sp_eval_args(env: EnvView, args: Seq<ExprView>, n: int, fuel: nat) -> Result<
    Seq<ValueView>,
    ErrView,
>
    decreases fuel, evs_size(args, n), 1int,
{
    if n <= 0 || n > args.len() {
        Ok(Seq::empty())
    } else {
        proof {
            vstd::seq::axiom_seq_index_decreases(args, n - 1);
            crate::ast::lemma_ev_size_pos(args[n - 1]);
        }
        match sp_eval_args(env, args, n - 1, fuel) {
            Err(er) => Err(er),
            Ok(vs) => {
                match sp_eval_expr(env, args[n - 1], fuel) {
                    Err(er) => Err(er),
                    Ok(v) => Ok(vs.push(v)),
                }
            },
        }
    }
}

/// What a statement does: the new variable bindings, and the value the
/// statement leaves for a function body's result (a bare expression leaves
/// its value; an assignment leaves none).
pub open spec fn sp_eval_stmt(env: EnvView, st: StmtView, fuel: nat) -> Result<
    (Map<Seq<char>, ValueView>, Option<ValueView>),
    ErrView,
>
    decreases fuel, sv_size(st), 0int,
{
    match st {
        StmtView::Assign(name, op, e) => match sp_eval_expr(env, *e, fuel) {
            Err(er) => Err(er),
            Ok(v) => match op {
                Assign::Eq => Ok((env.vars.insert(name, v), Option::None)),
                _ => {
                    if !env.vars.contains_key(name) {
                        Err(ErrView::UndefinedVariable(name))
                    } else {
                        match (env.vars[name], v) {
                            (ValueView::Number(a), ValueView::Number(b)) => Ok(
                                (
                                    env.vars.insert(name, ValueView::Number(compound_bits(op, a, b))),
                                    Option::None,
                                ),
                            ),
                            _ => Err(ErrView::TypeMismatch(assign_op_name(op))),
                        }
                    }
                },
            },
        },
        StmtView::Expression(e) => match sp_eval_expr(env, *e, fuel) {
            Err(er) => Err(er),
            Ok(v) => Ok((env.vars, Option::Some(v))),
        },
    }
}

/// The first `n` statements of a block, run in order.
pub open spec fn sp_eval_block(env: EnvView, stmts: Seq<StmtView>, n: int, fuel: nat) -> Result<
    (Map<Seq<char>, ValueView>, Option<ValueView>),
    ErrView,
>
    decreases fuel, svs_size(stmts, n), 1int,
{
    if n <= 0 || n > stmts.len() {
        Ok((env.vars, Option::None))
    } else {
        proof {
            vstd::seq::axiom_seq_index_decreases(stmts, n - 1);
        }
        match sp_eval_block(env, stmts, n - 1, fuel) {
            Err(er) => Err(er),
            Ok((vars1, _v1)) => sp_eval_stmt(EnvView { vars: vars1, ..env }, stmts[n - 1], fuel),
        }
    }
}

/// How a value is spliced into the output text.
pub open spec fn sp_render(v: ValueView) -> Seq<char> {
    match v {
        ValueView::Text(t) => t,
        ValueView::Number(b) => format_bits_of(b),
    }
}

/// What an inline statement evaluates to: a bare name is looked up among
/// the variables; a call evaluates as in an expression.
pub open spec fn sp_eval_inline(env: EnvView, il: InlineView, fuel: nat) -> Result<
    ValueView,
    ErrView,
> {
    match il {
        InlineView::VariableCall(n) => if env.vars.contains_key(n) {
            Ok(env.vars[n])
        } else {
            Err(ErrView::UndefinedVariable(n))
        },
        InlineView::FunctionCall(name, args) => sp_eval_call(env, name, args, fuel),
    }
}

/// The rendering of the first `n` pieces of a text block: literal
/// fragments verbatim, inline statements evaluated and spliced. The
/// environment does not change.
pub open spec fn sp_eval_texts(env: EnvView, ts: Seq<TextView>, n: int, fuel: nat) -> Result<
    Seq<char>,
    ErrView,
>
    decreases n,
{
    if n <= 0 || n > ts.len() {
        Ok(Seq::empty())
    } else {
        match sp_eval_texts(env, ts, n - 1, fuel) {
            Err(er) => Err(er),
            Ok(out) => match ts[n - 1] {
                TextView::Text(t) => Ok(out + t),
                TextView::InlineStatement(il) => match sp_eval_inline(env, il, fuel) {
                    Err(er) => Err(er),
                    Ok(v) => Ok(out + sp_render(v)),
                },
            },
        }
    }
}

/// The first `n` top-level units: text blocks render and append, statement
/// blocks run for their side effects alone.
pub open spec fn sp_eval_tops(env: EnvView, tops: Seq<TopView>, n: int, fuel: nat) -> Result<
    (Map<Seq<char>, ValueView>, Seq<char>),
    ErrView,
>
    decreases n,
{
    if n <= 0 || n > tops.len() {
        Ok((env.vars, Seq::empty()))
    } else {
        match sp_eval_tops(env, tops, n - 1, fuel) {
            Err(er) => Err(er),
            Ok((vars1, out)) => {
                let env1 = EnvView { vars: vars1, ..env };
                match tops[n - 1] {
                    TopView::TextBlock(ts) => match sp_eval_texts(env1, ts, ts.len() as int, fuel) {
                        Err(er) => Err(er),
                        Ok(t) => Ok((vars1, out + t)),
                    },
                    TopView::StatementBlock(stmts) => match sp_eval_block(
                        env1,
                        stmts,
                        stmts.len() as int,
                        fuel,
                    ) {
                        Err(er) => Err(er),
                        Ok((vars2, _v)) => Ok((vars2, out)),
                    },
                }
            },
        }
    }
}

/// What evaluating a whole document yields: the final variable bindings
/// and the rendered text.
pub open spec fn sp_eval_document(env: EnvView, tops: Seq<TopView>) -> Result<
    (Map<Seq<char>, ValueView>, Seq<char>),
    ErrView,
> {
    sp_eval_tops(env, tops, tops.len() as int, recursion_limit())
}

proof fn lemma_names_len(s: Seq<String>, n: int)
    requires
        0 <= n <= s.len(),
    ensures
        names_view(s, n).len() == n,
    decreases n,
{
    if n > 0 {
        lemma_names_len(s, n - 1);
    }
}

proof fn lemma_names_index(s: Seq<String>, n: int, i: int)
    requires
        0 <= i < n <= s.len(),
    ensures
        names_view(s, n).len() == n,
        names_view(s, n)[i] == s[i]@,
    decreases n,
{
    lemma_names_len(s, n);
    if i < n - 1 {
        lemma_names_index(s, n - 1, i);
    }
}

pub open spec fn res_view(r: &Result<Value, EvalError>) -> Result<ValueView, ErrView> {
    match r {
        Ok(v) => Ok(value_view(v)),
        Err(e) => Err(err_view(e)),
    }
}

pub open spec fn opt_value_view(o: &Option<Value>) -> Option<ValueView> {
    match o {
        Option::Some(v) => Option::Some(value_view(v)),
        Option::None => Option::None,
    }
}

pub open spec fn values_view(s: Seq<Value>, n: int) -> Seq<ValueView>
    decreases n,
{
    if n <= 0 || n > s.len() {
        Seq::empty()
    } else {
        values_view(s, n - 1).push(value_view(&s[n - 1]))
    }
}

proof fn lemma_values_view_index(s: Seq<Value>, n: int, i: int)
    requires
        0 <= i < n <= s.len(),
    ensures
        values_view(s, n).len() == n,
        values_view(s, n)[i] == value_view(&s[i]),
    decreases n,
{
    lemma_values_view_len(s, n);
    if i < n - 1 {
        lemma_values_view_index(s, n - 1, i);
    }
}

proof fn lemma_values_view_len(s: Seq<Value>, n: int)
    requires
        0 <= n <= s.len(),
    ensures
        values_view(s, n).len() == n,
    decreases n,
{
    if n > 0 {
        lemma_values_view_len(s, n - 1);
    }
}

/// The environment as its three tables.
pub open spec fn env_of(
    fns: Seq<(String, (Vec<String>, StatementBlock))>,
    bis: Seq<(String, Builtin)>,
    vars: Seq<(String, Value)>,
) -> EnvView {
    EnvView { vars: vars_map(vars), funcs: funcs_map(fns), builtins: builtins_map(bis) }
}

fn assign_op_string(op: &Assign) -> (r: String)
    ensures
        r@ == assign_op_name(*op),
{
    match op {
        Assign::Eq => String::from_str("="),
        Assign::Add => String::from_str("+="),
        Assign::Sub => String::from_str("-="),
        Assign::Mul => String::from_str("*="),
        Assign::Div => String::from_str("/="),
    }
}

fn apply_binary(op: &Binary, a: Value, b: Value) -> (r: Result<Value, EvalError>)
    ensures
        res_view(&r) == sp_binary(*op, value_view(&a), value_view(&b)),
{
    match op {
        Binary::Add => match (a, b) {
            (Value::Number(x), Value::Number(y)) => Ok(Value::Number(add_bits(x, y))),
            (Value::Text(x), Value::Text(y)) => Ok(Value::Text(x.concat(y.as_str()))),
            (Value::Text(x), Value::Number(y)) => Ok(
                Value::Text(x.concat(format_bits(y).as_str())),
            ),
            (Value::Number(x), Value::Text(y)) => Ok(
                Value::Text(format_bits(x).concat(y.as_str())),
            ),
        },
        Binary::Sub => match (a, b) {
            (Value::Number(x), Value::Number(y)) => Ok(Value::Number(sub_bits(x, y))),
            _ => Err(EvalError::TypeMismatch { operation: String::from_str("-") }),
        },
        Binary::Mul => match (a, b) {
            (Value::Number(x), Value::Number(y)) => Ok(Value::Number(mul_bits(x, y))),
            _ => Err(EvalError::TypeMismatch { operation: String::from_str("*") }),
        },
        Binary::Div => match (a, b) {
            (Value::Number(x), Value::Number(y)) => Ok(Value::Number(div_bits(x, y))),
            _ => Err(EvalError::TypeMismatch { operation: String::from_str("/") }),
        },
        Binary::Eq => match (a, b) {
            (Value::Number(x), Value::Number(y)) => {
                let e = eq_bits(x, y);
                Ok(Value::Number(if e { ONE_BITS } else { ZERO_BITS }))
            },
            (Value::Text(x), Value::Text(y)) => {
                let e = x.eq(&y);
                Ok(Value::Number(if e { ONE_BITS } else { ZERO_BITS }))
            },
            _ => Ok(Value::Number(ZERO_BITS)),
        },
    }
}

fn apply_builtin(b: &Builtin, name: &String, vals: Vec<Value>) -> (r: Result<Value, EvalError>)
    ensures
        res_view(&r) == sp_builtin(builtin_view(b), name@, values_view(vals@, vals@.len() as int)),
{
    proof {
        if vals@.len() > 0 {
            lemma_values_view_index(vals@, vals@.len() as int, 0);
        } else {
            assert(values_view(vals@, 0) =~= Seq::<ValueView>::empty());
        }
        lemma_values_view_len(vals@, vals@.len() as int);
    }
    match b {
        Builtin::Sin => {
            if vals.len() != 1 {
                Err(
                    EvalError::ArityMismatch {
                        name: name.clone(),
                        expected: 1,
                        got: vals.len(),
                    },
                )
            } else {
                match &vals[0] {
                    Value::Number(x) => Ok(Value::Number(sin_bits(*x))),
                    Value::Text(_) => Err(
                        EvalError::TypeMismatch { operation: String::from_str("sin") },
                    ),
                }
            }
        },
        Builtin::Cos => {
            if vals.len() != 1 {
                Err(
                    EvalError::ArityMismatch {
                        name: name.clone(),
                        expected: 1,
                        got: vals.len(),
                    },
                )
            } else {
                match &vals[0] {
                    Value::Number(x) => Ok(Value::Number(cos_bits(*x))),
                    Value::Text(_) => Err(
                        EvalError::TypeMismatch { operation: String::from_str("cos") },
                    ),
                }
            }
        },
        Builtin::ConstText(t) => {
            if vals.len() != 0 {
                Err(
                    EvalError::ArityMismatch {
                        name: name.clone(),
                        expected: 0,
                        got: vals.len(),
                    },
                )
            } else {
                Ok(Value::Text(t.clone()))
            }
        },
    }
}

proof fn lemma_vars_map_congruent(s: Seq<(String, Value)>, t: Seq<(String, Value)>)
    requires
        s.len() == t.len(),
        forall|i: int|
            0 <= i < s.len() ==> (#[trigger] s[i]).0@ == t[i].0@ && value_view(&s[i].1)
                == value_view(&t[i].1),
    ensures
        vars_map(s) == vars_map(t),
    decreases s.len(),
{
    if s.len() > 0 {
        lemma_vars_map_congruent(s.drop_last(), t.drop_last());
        assert(s.last() == s[s.len() - 1]);
        assert(t.last() == t[t.len() - 1]);
    }
}

fn clone_vars(vars: &Vec<(String, Value)>) -> (r: Vec<(String, Value)>)
    ensures
        vars_map(r@) == vars_map(vars@),
{
    let mut out: Vec<(String, Value)> = Vec::new();
    let n = vars.len();
    let mut i: usize = 0;
    while i < n
        invariant
            n == vars@.len(),
            i <= n,
            out@.len() == i,
            forall|k: int|
                0 <= k < i ==> (#[trigger] out@[k]).0@ == vars@[k].0@ && value_view(&out@[k].1)
                    == value_view(&vars@[k].1),
        decreases n - i,
    {
        out.push((vars[i].0.clone(), clone_value(&vars[i].1)));
        i = i + 1;
    }
    proof {
        lemma_vars_map_congruent(out@, vars@);
    }
    out
}

fn eval_expr(
    fns: &Vec<(String, (Vec<String>, StatementBlock))>,
    bis: &Vec<(String, Builtin)>,
    vars: &Vec<(String, Value)>,
    e: &Expression,
    fuel: u64,
) -> (r: Result<Value, EvalError>)
    ensures
        res_view(&r) == sp_eval_expr(env_of(fns@, bis@, vars@), expr_view(e), fuel as nat),
    decreases fuel, ev_size(expr_view(e)), 0int,
{
    match e {
        Expression::Number(b) => Ok(Value::Number(*b)),
        Expression::Identifier(n) => match lookup_var(vars, n) {
            Option::Some(v) => Ok(v),
            Option::None => Err(EvalError::UndefinedVariable(n.clone())),
        },
        Expression::BinaryOp(l, op, rr) => match eval_expr(fns, bis, vars, l, fuel) {
            Err(er) => Err(er),
            Ok(a) => match eval_expr(fns, bis, vars, rr, fuel) {
                Err(er) => Err(er),
                Ok(b) => apply_binary(op, a, b),
            },
        },
        Expression::FunctionCall(name, args) => eval_call(fns, bis, vars, name, args, fuel),
    }
}

fn eval_call(
    fns: &Vec<(String, (Vec<String>, StatementBlock))>,
    bis: &Vec<(String, Builtin)>,
    vars: &Vec<(String, Value)>,
    name: &String,
    args: &Vec<Box<Expression>>,
    fuel: u64,
) -> (r: Result<Value, EvalError>)
    ensures
        res_view(&r) == sp_eval_call(
            env_of(fns@, bis@, vars@),
            name@,
            exprs_view(args@, args@.len() as int),
            fuel as nat,
        ),
    decreases fuel, 1 + evs_size(
        exprs_view(args@, args@.len() as int),
        exprs_view(args@, args@.len() as int).len() as int,
    ), 0int,
{
    let ghost argsv = exprs_view(args@, args@.len() as int);
    proof {
        crate::ast::lemma_exprs_view_len(args@, args@.len() as int);
    }
    match eval_args(fns, bis, vars, args, args.len(), fuel) {
        Err(er) => Err(er),
        Ok(vals) => {
            match lookup_fn_in(fns, name, fns.len()) {
                Option::Some(fi) => {
                    proof {
                        assert(fns@.take(fns@.len() as int) =~= fns@);
                    }
                    let params = &fns[fi].1.0;
                    if params.len() != vals.len() {
                        proof {
                            lemma_values_view_len(vals@, vals@.len() as int);
                            lemma_names_len(params@, params@.len() as int);
                        }
                        Err(
                            EvalError::ArityMismatch {
                                name: name.clone(),
                                expected: params.len(),
                                got: vals.len(),
                            },
                        )
                    } else if fuel == 0 {
                        proof {
                            lemma_values_view_len(vals@, vals@.len() as int);
                            lemma_names_len(params@, params@.len() as int);
                        }
                        Err(EvalError::RecursionLimitExceeded)
                    } else {
                        let mut child = clone_vars(vars);
                        let np = params.len();
                        let mut k: usize = 0;
                        proof {
                            lemma_values_view_len(vals@, vals@.len() as int);
                            lemma_names_len(params@, params@.len() as int);
                        }
                        while k < np
                            invariant
                                np == params@.len(),
                                np == vals@.len(),
                                k <= np,
                                vars_map(child@) == bind_params(
                                    vars_map(vars@),
                                    names_view(params@, params@.len() as int),
                                    values_view(vals@, vals@.len() as int),
                                    k as int,
                                ),
                            decreases np - k,
                        {
                            let ghost c0 = child@;
                            child.push((params[k].clone(), clone_value(&vals[k])));
                            proof {
                                assert(child@.drop_last() =~= c0);
                                lemma_names_index(params@, params@.len() as int, k as int);
                                lemma_values_view_index(vals@, vals@.len() as int, k as int);
                            }
                            k = k + 1;
                        }
                        let body = &fns[fi].1.1;
                        proof {
                            crate::ast::lemma_stmts_view_len(
                                body.stmts@,
                                body.stmts@.len() as int,
                            );
                            let env = env_of(fns@, bis@, vars@);
                            assert(env_of(fns@, bis@, child@) == EnvView {
                                vars: bind_params(
                                    env.vars,
                                    names_view(params@, params@.len() as int),
                                    values_view(vals@, vals@.len() as int),
                                    params@.len() as int,
                                ),
                                ..env
                            });
                        }
                        match eval_block(fns, bis, &mut child, &body.stmts, fuel - 1) {
                            Err(er) => Err(er),
                            Ok(Option::Some(v)) => Ok(v),
                            Ok(Option::None) => Err(EvalError::NoReturnValue(name.clone())),
                        }
                    }
                },
                Option::None => {
                    proof {
                        assert(fns@.take(fns@.len() as int) =~= fns@);
                        assert(bis@.take(bis@.len() as int) =~= bis@);
                    }
                    match lookup_builtin_in(bis, name, bis.len()) {
                        Option::Some(bi) => apply_builtin(&bis[bi].1, name, vals),
                        Option::None => Err(EvalError::UndefinedFunction(name.clone())),
                    }
                },
            }
        },
    }
}

fn eval_args(
    fns: &Vec<(String, (Vec<String>, StatementBlock))>,
    bis: &Vec<(String, Builtin)>,
    vars: &Vec<(String, Value)>,
    args: &Vec<Box<Expression>>,
    n: usize,
    fuel: u64,
) -> (r: Result<Vec<Value>, EvalError>)
    requires
        n <= args@.len(),
    ensures
        match r {
            Ok(vs) => sp_eval_args(
                env_of(fns@, bis@, vars@),
                exprs_view(args@, args@.len() as int),
                n as int,
                fuel as nat,
            ) == Ok::<_, ErrView>(values_view(vs@, vs@.len() as int)),
            Err(er) => sp_eval_args(
                env_of(fns@, bis@, vars@),
                exprs_view(args@, args@.len() as int),
                n as int,
                fuel as nat,
            ) == Err::<Seq<ValueView>, _>(err_view(&er)),
        },
    decreases fuel, evs_size(exprs_view(args@, args@.len() as int), n as int), 1int,
{
    let ghost argsv = exprs_view(args@, args@.len() as int);
    proof {
        crate::ast::lemma_exprs_view_len(args@, args@.len() as int);
    }
    if n == 0 {
        let vs: Vec<Value> = Vec::new();
        proof {
            assert(values_view(vs@, 0) =~= Seq::<ValueView>::empty());
        }
        return Ok(vs);
    }
    proof {
        vstd::seq::axiom_seq_index_decreases(argsv, n as int - 1);
        crate::ast::lemma_ev_size_pos(argsv[n as int - 1]);
        crate::ast::lemma_exprs_view_index(args@, args@.len() as int, n as int - 1);
    }
    match eval_args(fns, bis, vars, args, n - 1, fuel) {
        Err(er) => Err(er),
        Ok(mut vs) => {
            match eval_expr(fns, bis, vars, &args[n - 1], fuel) {
                Err(er) => Err(er),
                Ok(v) => {
                    let ghost v0 = vs@;
                    proof {
                        lemma_values_view_len(v0, v0.len() as int);
                    }
                    vs.push(v);
                    proof {
                        assert(vs@.drop_last() =~= v0);
                        lemma_values_view_len(vs@, vs@.len() as int);
                        assert(values_view(vs@, vs@.len() as int) == values_view(
                            vs@,
                            vs@.len() as int - 1,
                        ).push(value_view(&vs@[vs@.len() as int - 1])));
                        lemma_values_view_prefix(vs@, v0, v0.len() as int);
                    }
                    Ok(vs)
                },
            }
        },
    }
}

proof fn lemma_values_view_prefix(s: Seq<Value>, t: Seq<Value>, n: int)
    requires
        n <= s.len(),
        n <= t.len(),
        forall|k: int| 0 <= k < n ==> s[k] == t[k],
    ensures
        values_view(s, n) == values_view(t, n),
    decreases n,
{
    if n > 0 {
        lemma_values_view_prefix(s, t, n - 1);
    }
}

fn eval_stmt(
    fns: &Vec<(String, (Vec<String>, StatementBlock))>,
    bis: &Vec<(String, Builtin)>,
    vars: &mut Vec<(String, Value)>,
    st: &Statement,
    fuel: u64,
) -> (r: Result<Option<Value>, EvalError>)
    ensures
        match r {
            Ok(ov) => sp_eval_stmt(env_of(fns@, bis@, old(vars)@), stmt_view(st), fuel as nat)
                == Ok::<_, ErrView>((vars_map(final(vars)@), opt_value_view(&ov))),
            Err(er) => sp_eval_stmt(env_of(fns@, bis@, old(vars)@), stmt_view(st), fuel as nat)
                == Err::<(Map<Seq<char>, ValueView>, Option<ValueView>), _>(err_view(&er))
                && final(vars)@ == old(vars)@,
        },
    decreases fuel, sv_size(stmt_view(st)), 0int,
{
    match st {
        Statement::Assign(name, op, e) => {
            match eval_expr(fns, bis, vars, e, fuel) {
                Err(er) => Err(er),
                Ok(v) => {
                    match op {
                        Assign::Eq => {
                            let ghost v0 = vars@;
                            vars.push((name.clone(), v));
                            proof {
                                assert(vars@.drop_last() =~= v0);
                            }
                            Ok(Option::None)
                        },
                        _ => {
                            match lookup_var(vars, name) {
                                Option::None => Err(EvalError::UndefinedVariable(name.clone())),
                                Option::Some(old_v) => {
                                    match (old_v, v) {
                                        (Value::Number(a), Value::Number(b)) => {
                                            let nb = match op {
                                                Assign::Eq => b,
                                                Assign::Add => add_bits(a, b),
                                                Assign::Sub => sub_bits(a, b),
                                                Assign::Mul => mul_bits(a, b),
                                                Assign::Div => div_bits(a, b),
                                            };
                                            let ghost v0 = vars@;
                                            vars.push((name.clone(), Value::Number(nb)));
                                            proof {
                                                assert(vars@.drop_last() =~= v0);
                                            }
                                            Ok(Option::None)
                                        },
                                        _ => Err(
                                            EvalError::TypeMismatch {
                                                operation: assign_op_string(op),
                                            },
                                        ),
                                    }
                                },
                            }
                        },
                    }
                },
            }
        },
        Statement::Expression(e) => match eval_expr(fns, bis, vars, e, fuel) {
            Err(er) => Err(er),
            Ok(v) => Ok(Option::Some(v)),
        },
    }
}

proof fn lemma_sv_size_bound(s: Seq<StmtView>, n: int, i: int)
    requires
        0 <= i < n <= s.len(),
    ensures
        sv_size(s[i]) <= svs_size(s, n),
    decreases n,
{
    if i < n - 1 {
        lemma_sv_size_bound(s, n - 1, i);
    }
}

proof fn lemma_block_err_prop(env: EnvView, s: Seq<StmtView>, j: int, n: int, fuel: nat)
    requires
        0 <= j <= n <= s.len(),
        sp_eval_block(env, s, j, fuel) is Err,
    ensures
        sp_eval_block(env, s, n, fuel) == sp_eval_block(env, s, j, fuel),
    decreases n - j,
{
    if n > j {
        lemma_block_err_prop(env, s, j, n - 1, fuel);
    }
}

fn eval_block(
    fns: &Vec<(String, (Vec<String>, StatementBlock))>,
    bis: &Vec<(String, Builtin)>,
    vars: &mut Vec<(String, Value)>,
    stmts: &Vec<Box<Statement>>,
    fuel: u64,
) -> (r: Result<Option<Value>, EvalError>)
    ensures
        match r {
            Ok(ov) => sp_eval_block(
                env_of(fns@, bis@, old(vars)@),
                stmts_view(stmts@, stmts@.len() as int),
                stmts@.len() as int,
                fuel as nat,
            ) == Ok::<_, ErrView>((vars_map(final(vars)@), opt_value_view(&ov))),
            Err(er) => sp_eval_block(
                env_of(fns@, bis@, old(vars)@),
                stmts_view(stmts@, stmts@.len() as int),
                stmts@.len() as int,
                fuel as nat,
            ) == Err::<(Map<Seq<char>, ValueView>, Option<ValueView>), _>(err_view(&er)),
        },
    decreases fuel, svs_size(stmts_view(stmts@, stmts@.len() as int), stmts@.len() as int), 1int,
{
    let ghost env0 = env_of(fns@, bis@, vars@);
    let ghost sv = stmts_view(stmts@, stmts@.len() as int);
    proof {
        crate::ast::lemma_stmts_view_len(stmts@, stmts@.len() as int);
    }
    let n = stmts.len();
    let mut k: usize = 0;
    let mut cur: Option<Value> = Option::None;
    while k < n
        invariant
            n == stmts@.len(),
            k <= n,
            sv == stmts_view(stmts@, stmts@.len() as int),
            sv.len() == n,
            env0 == env_of(fns@, bis@, old(vars)@),
            sp_eval_block(env0, sv, k as int, fuel as nat) == Ok::<_, ErrView>(
                (vars_map(vars@), opt_value_view(&cur)),
            ),
        decreases n - k,
    {
        proof {
            crate::ast::lemma_stmts_view_index(stmts@, stmts@.len() as int, k as int);
            lemma_sv_size_bound(sv, n as int, k as int);
        }
        let ghost pre_vars = vars@;
        match eval_stmt(fns, bis, vars, &stmts[k], fuel) {
            Err(er) => {
                proof {
                    assert(env_of(fns@, bis@, pre_vars) == EnvView {
                        vars: vars_map(pre_vars),
                        ..env0
                    });
                    assert(sp_eval_block(env0, sv, k as int + 1, fuel as nat) == Err::<
                        (Map<Seq<char>, ValueView>, Option<ValueView>),
                        ErrView,
                    >(err_view(&er)));
                    lemma_block_err_prop(env0, sv, k as int + 1, n as int, fuel as nat);
                }
                return Err(er);
            },
            Ok(ov) => {
                proof {
                    assert(env_of(fns@, bis@, pre_vars) == EnvView {
                        vars: vars_map(pre_vars),
                        ..env0
                    });
                    assert(sp_eval_block(env0, sv, k as int + 1, fuel as nat) == Ok::<
                        _,
                        ErrView,
                    >((vars_map(vars@), opt_value_view(&ov))));
                }
                cur = ov;
            },
        }
        k = k + 1;
    }
    Ok(cur)
}

fn lookup_builtin_in(bis: &Vec<(String, Builtin)>, name: &String, n: usize) -> (r: Option<usize>)
    requires
        n <= bis@.len(),
    ensures
        match r {
            Some(i) => i < bis@.len() && builtins_map(bis@.take(n as int)).contains_key(name@)
                && builtins_map(bis@.take(n as int))[name@] == builtin_view(&bis@[i as int].1),
            None => !builtins_map(bis@.take(n as int)).contains_key(name@),
        },
    decreases n,
{
    if n == 0 {
        proof {
            assert(bis@.take(0) =~= Seq::<(String, Builtin)>::empty());
        }
        return Option::None;
    }
    let ghost pre = bis@.take(n as int);
    proof {
        assert(pre.drop_last() =~= bis@.take(n as int - 1));
        assert(pre.last() == bis@[n as int - 1]);
    }
    if bis[n - 1].0.eq(name) {
        Option::Some(n - 1)
    } else {
        lookup_builtin_in(bis, name, n - 1)
    }
}

fn render_value(v: &Value) -> (r: String)
    ensures
        r@ == sp_render(value_view(v)),
{
    match v {
        Value::Text(s) => s.clone(),
        Value::Number(b) => format_bits(*b),
    }
}

fn eval_inline(
    fns: &Vec<(String, (Vec<String>, StatementBlock))>,
    bis: &Vec<(String, Builtin)>,
    vars: &Vec<(String, Value)>,
    il: &InlineStatement,
    fuel: u64,
) -> (r: Result<Value, EvalError>)
    ensures
        res_view(&r) == sp_eval_inline(env_of(fns@, bis@, vars@), inline_view(il), fuel as nat),
{
    match il {
        InlineStatement::VariableCall(n) => match lookup_var(vars, n) {
            Option::Some(v) => Ok(v),
            Option::None => Err(EvalError::UndefinedVariable(n.clone())),
        },
        InlineStatement::FunctionCall(name, args) => eval_call(fns, bis, vars, name, args, fuel),
    }
}

fn eval_texts(
    fns: &Vec<(String, (Vec<String>, StatementBlock))>,
    bis: &Vec<(String, Builtin)>,
    vars: &Vec<(String, Value)>,
    texts: &Vec<Text>,
    fuel: u64,
) -> (r: Result<String, EvalError>)
    ensures
        match r {
            Ok(out) => sp_eval_texts(
                env_of(fns@, bis@, vars@),
                texts_view(texts@, texts@.len() as int),
                texts@.len() as int,
                fuel as nat,
            ) == Ok::<_, ErrView>(out@),
            Err(er) => sp_eval_texts(
                env_of(fns@, bis@, vars@),
                texts_view(texts@, texts@.len() as int),
                texts@.len() as int,
                fuel as nat,
            ) == Err::<Seq<char>, _>(err_view(&er)),
        },
{
    let ghost env = env_of(fns@, bis@, vars@);
    let ghost tv = texts_view(texts@, texts@.len() as int);
    proof {
        crate::ast::lemma_texts_view_len(texts@, texts@.len() as int);
    }
    let n = texts.len();
    let mut out = String::new();
    let mut k: usize = 0;
    while k < n
        invariant
            n == texts@.len(),
            k <= n,
            tv == texts_view(texts@, texts@.len() as int),
            tv.len() == n,
            env == env_of(fns@, bis@, vars@),
            sp_eval_texts(env, tv, k as int, fuel as nat) == Ok::<_, ErrView>(out@),
        decreases n - k,
    {
        proof {
            crate::ast::lemma_texts_view_index(texts@, texts@.len() as int, k as int);
        }
        match &texts[k] {
            Text::Text(t) => {
                out.append(t.as_str());
            },
            Text::InlineStatement(il) => {
                match eval_inline(fns, bis, vars, il, fuel) {
                    Err(er) => {
                        proof {
                            lemma_texts_err_prop(env, tv, k as int + 1, n as int, fuel as nat);
                        }
                        return Err(er);
                    },
                    Ok(v) => {
                        let piece = render_value(&v);
                        out.append(piece.as_str());
                    },
                }
            },
        }
        k = k + 1;
    }
    Ok(out)
}

proof fn lemma_texts_err_prop(env: EnvView, ts: Seq<TextView>, j: int, n: int, fuel: nat)
    requires
        0 <= j <= n <= ts.len(),
        sp_eval_texts(env, ts, j, fuel) is Err,
    ensures
        sp_eval_texts(env, ts, n, fuel) == sp_eval_texts(env, ts, j, fuel),
    decreases n - j,
{
    if n > j {
        lemma_texts_err_prop(env, ts, j, n - 1, fuel);
    }
}

proof fn lemma_tops_err_prop(env: EnvView, ts: Seq<TopView>, j: int, n: int, fuel: nat)
    requires
        0 <= j <= n <= ts.len(),
        sp_eval_tops(env, ts, j, fuel) is Err,
    ensures
        sp_eval_tops(env, ts, n, fuel) == sp_eval_tops(env, ts, j, fuel),
    decreases n - j,
{
    if n > j {
        lemma_tops_err_prop(env, ts, j, n - 1, fuel);
    }
}

impl Visitor {
    /// Evaluates a whole document against this environment: statement
    /// blocks for effect, text blocks rendered in order. On success the
    /// environment holds the final bindings and the rendered text is
    /// returned; on an error the environment is left as it was.
    pub fn evaluate_document(&mut self, doc: &TopNode) -> (r: Result<String, EvalError>)
        ensures
            match r {
                Ok(out) => sp_eval_document(visitor_view(old(self)), topnode_view(doc)) == Ok::<
                    _,
                    ErrView,
                >((vars_map(final(self).variables@), out@)) && final(self).functions == old(
                    self,
                ).functions && final(self).builtins == old(self).builtins,
                Err(er) => sp_eval_document(visitor_view(old(self)), topnode_view(doc)) == Err::<
                    (Map<Seq<char>, ValueView>, Seq<char>),
                    _,
                >(err_view(&er)) && *final(self) == *old(self),
            },
    {
        let fns = &self.functions;
        let bis = &self.builtins;
        let ghost env0 = visitor_view(old(self));
        let ghost tops = topnode_view(doc);
        proof {
            crate::ast::lemma_tops_view_len(doc.tree@, doc.tree@.len() as int);
        }
        let mut work = clone_vars(&self.variables);
        let mut out = String::new();
        let n = doc.tree.len();
        let mut k: usize = 0;
        while k < n
            invariant
                n == doc.tree@.len(),
                k <= n,
                tops == topnode_view(doc),
                tops.len() == n,
                fns == &self.functions,
                bis == &self.builtins,
                env0 == visitor_view(&*self),
                sp_eval_tops(env0, tops, k as int, 64) == Ok::<_, ErrView>(
                    (vars_map(work@), out@),
                ),
            decreases n - k,
        {
            proof {
                crate::ast::lemma_tops_view_index(doc.tree@, doc.tree@.len() as int, k as int);
            }
            let ghost pre = work@;
            match &doc.tree[k] {
                TopLevel::TextBlock(tb) => {
                    match eval_texts(fns, bis, &work, &tb.text, 64) {
                        Err(er) => {
                            proof {
                                crate::ast::lemma_texts_view_len(
                                    tb.text@,
                                    tb.text@.len() as int,
                                );
                                assert(env_of(fns@, bis@, pre) == EnvView {
                                    vars: vars_map(pre),
                                    ..env0
                                });
                                lemma_tops_err_prop(env0, tops, k as int + 1, n as int, 64);
                            }
                            return Err(er);
                        },
                        Ok(t) => {
                            proof {
                                crate::ast::lemma_texts_view_len(
                                    tb.text@,
                                    tb.text@.len() as int,
                                );
                                assert(env_of(fns@, bis@, pre) == EnvView {
                                    vars: vars_map(pre),
                                    ..env0
                                });
                            }
                            out.append(t.as_str());
                        },
                    }
                },
                TopLevel::StatementBlock(sb) => {
                    match eval_block(fns, bis, &mut work, &sb.stmts, 64) {
                        Err(er) => {
                            proof {
                                crate::ast::lemma_stmts_view_len(
                                    sb.stmts@,
                                    sb.stmts@.len() as int,
                                );
                                assert(env_of(fns@, bis@, pre) == EnvView {
                                    vars: vars_map(pre),
                                    ..env0
                                });
                                lemma_tops_err_prop(env0, tops, k as int + 1, n as int, 64);
                            }
                            return Err(er);
                        },
                        Ok(_v) => {
                            proof {
                                crate::ast::lemma_stmts_view_len(
                                    sb.stmts@,
                                    sb.stmts@.len() as int,
                                );
                                assert(env_of(fns@, bis@, pre) == EnvView {
                                    vars: vars_map(pre),
                                    ..env0
                                });
                            }
                        },
                    }
                },
            }
            k = k + 1;
        }
        self.variables = work;
        Ok(out)
    }
}

/// An inline reference to a name the environment's variables do not bind
/// always fails with `UndefinedVariable` carrying that name; it is never
/// silently rendered as empty text.
pub proof fn lemma_undefined_reference(env: EnvView, name: Seq<char>, fuel: nat)
    requires
        !env.vars.contains_key(name),
    ensures
        sp_eval_inline(env, InlineView::VariableCall(name), fuel) == Err::<ValueView, ErrView>(
            ErrView::UndefinedVariable(name),
        ),
{
}

} // verus!
