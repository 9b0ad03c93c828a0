//! The tree that parsed code regions take: expressions, statements,
//! statement blocks, text blocks, and the whole-document node.
//!
//! Each node kind has a ghost mirror (`...View`) over `Seq<char>` and `Seq`,
//! and a view function; all contracts in the crate speak of the views.
use vstd::prelude::*;

verus! {

/// A binary expression operator.
#[derive(Debug, Clone, Copy, PartialEq, Eq, Structural)]
pub enum Binary {
    Add,
    Sub,
    Mul,
    Div,
    Eq,
}

/// An assignment operator: plain `=` or one of the compound forms.
#[derive(Debug, Clone, Copy, PartialEq, Eq, Structural)]
pub enum Assign {
    Eq,
    Add,
    Sub,
    Mul,
    Div,
}

/// An expression. A number is carried as the bit pattern of its IEEE
/// binary64 value.
#[derive(Debug, PartialEq)]
pub enum Expression {
    BinaryOp(Box<Expression>, Binary, Box<Expression>),
    Identifier(String),
    Number(u64),
    FunctionCall(String, Vec<Box<Expression>>),
}

/// A statement: an assignment or a bare expression.
#[derive(Debug, PartialEq)]
pub enum Statement {
    Assign(String, Assign, Box<Expression>),
    Expression(Box<Expression>),
}

/// An ordered sequence of statements; order is evaluation order.
#[derive(Debug, PartialEq)]
pub struct StatementBlock {
    pub stmts: Vec<Box<Statement>>,
}

impl StatementBlock {
    pub fn new(stmts: Vec<Box<Statement>>) -> (r: Self)
        ensures
            r.stmts == stmts,
    {
        StatementBlock { stmts }
    }
}

/// A construct embedded in literal text: a bare variable reference or a
/// function call, rendered into the output at its location.
#[derive(Debug, PartialEq)]
pub enum InlineStatement {
    VariableCall(String),
    FunctionCall(String, Vec<Box<Expression>>),
}

/// One piece of a text block: a literal fragment or an inline statement.
#[derive(Debug, PartialEq)]
pub enum Text {
    Text(String),
    InlineStatement(InlineStatement),
}

/// A run of literal fragments and inline statements.
#[derive(Debug, PartialEq)]
pub struct TextBlock {
    pub text: Vec<Text>,
}

/// A top-level unit: rendered text, or a statement block executed for its
/// side effects only.
#[derive(Debug, PartialEq)]
pub enum TopLevel {
    TextBlock(Box<TextBlock>),
    StatementBlock(Box<StatementBlock>),
}

/// The whole document.
#[derive(Debug, PartialEq)]
pub struct TopNode {
    pub tree: Vec<TopLevel>,
}

/// Ghost mirror of `Expression`.
pub enum ExprView {
    BinaryOp(Box<ExprView>, Binary, Box<ExprView>),
    Identifier(Seq<char>),
    Number(u64),
    FunctionCall(Seq<char>, Seq<ExprView>),
}

/// Ghost mirror of `Statement`.
pub enum StmtView {
    Assign(Seq<char>, Assign, Box<ExprView>),
    Expression(Box<ExprView>),
}

/// Ghost mirror of `InlineStatement`.
pub enum InlineView {
    VariableCall(Seq<char>),
    FunctionCall(Seq<char>, Seq<ExprView>),
}

/// Ghost mirror of `Text`.
pub enum TextView {
    Text(Seq<char>),
    InlineStatement(InlineView),
}

/// Ghost mirror of `TopLevel`.
pub enum TopView {
    TextBlock(Seq<TextView>),
    StatementBlock(Seq<StmtView>),
}

pub open spec fn expr_view(e: &Expression) -> ExprView
    decreases e,
{
    match e {
        Expression::BinaryOp(l, op, r) => ExprView::BinaryOp(
            Box::new(expr_view(l)),
            *op,
            Box::new(expr_view(r)),
        ),
        Expression::Identifier(n) => ExprView::Identifier(n@),
        Expression::Number(b) => ExprView::Number(*b),
        Expression::FunctionCall(n, args) => ExprView::FunctionCall(
            n@,
            exprs_view(args@, args@.len() as int),
        ),
    }
}

pub open spec fn exprs_view(s: Seq<Box<Expression>>, n: int) -> Seq<ExprView>
    decreases s, n,
{
    if n <= 0 || n > s.len() {
        Seq::empty()
    } else {
        proof {
            vstd::seq::axiom_seq_index_decreases(s, n - 1);
        }
        exprs_view(s, n - 1).push(expr_view(&s[n - 1]))
    }
}

pub open spec fn stmt_view(s: &Statement) -> StmtView {
    match s {
        Statement::Assign(n, op, e) => StmtView::Assign(n@, *op, Box::new(expr_view(e))),
        Statement::Expression(e) => StmtView::Expression(Box::new(expr_view(e))),
    }
}

pub open spec fn stmts_view(s: Seq<Box<Statement>>, n: int) -> Seq<StmtView>
    decreases n,
{
    if n <= 0 || n > s.len() {
        Seq::empty()
    } else {
        stmts_view(s, n - 1).push(stmt_view(&s[n - 1]))
    }
}

pub open spec fn block_view(b: &StatementBlock) -> Seq<StmtView> {
    stmts_view(b.stmts@, b.stmts@.len() as int)
}

pub open spec fn inline_view(i: &InlineStatement) -> InlineView {
    match i {
        InlineStatement::VariableCall(n) => InlineView::VariableCall(n@),
        InlineStatement::FunctionCall(n, args) => InlineView::FunctionCall(
            n@,
            exprs_view(args@, args@.len() as int),
        ),
    }
}

pub open spec fn text_view(t: &Text) -> TextView {
    match t {
        Text::Text(s) => TextView::Text(s@),
        Text::InlineStatement(i) => TextView::InlineStatement(inline_view(i)),
    }
}

pub open spec fn texts_view(s: Seq<Text>, n: int) -> Seq<TextView>
    decreases n,
{
    if n <= 0 || n > s.len() {
        Seq::empty()
    } else {
        texts_view(s, n - 1).push(text_view(&s[n - 1]))
    }
}

pub open spec fn toplevel_view(t: &TopLevel) -> TopView {
    match t {
        TopLevel::TextBlock(b) => TopView::TextBlock(texts_view(b.text@, b.text@.len() as int)),
        TopLevel::StatementBlock(b) => TopView::StatementBlock(block_view(b)),
    }
}

pub open spec fn tops_view(s: Seq<TopLevel>, n: int) -> Seq<TopView>
    decreases n,
{
    if n <= 0 || n > s.len() {
        Seq::empty()
    } else {
        tops_view(s, n - 1).push(toplevel_view(&s[n - 1]))
    }
}

pub open spec fn topnode_view(t: &TopNode) -> Seq<TopView> {
    tops_view(t.tree@, t.tree@.len() as int)
}

/// Size of an expression tree, the evaluator's termination measure.
pub open spec fn ev_size(e: ExprView) -> nat
    decreases e,
{
    match e {
        ExprView::BinaryOp(l, _op, r) => 1 + ev_size(*l) + ev_size(*r),
        ExprView::Identifier(_n) => 1,
        ExprView::Number(_b) => 1,
        ExprView::FunctionCall(_n, args) => 2 + evs_size(args, args.len() as int),
    }
}

pub open spec fn evs_size(s: Seq<ExprView>, n: int) -> nat
    decreases s, n,
{
    if n <= 0 || n > s.len() {
        0
    } else {
        proof {
            vstd::seq::axiom_seq_index_decreases(s, n - 1);
        }
        evs_size(s, n - 1) + ev_size(s[n - 1])
    }
}

/// Size of a statement, the evaluator's termination measure.
pub open spec fn sv_size(st: StmtView) -> nat {
    match st {
        StmtView::Assign(_n, _op, e) => 1 + ev_size(*e),
        StmtView::Expression(e) => 1 + ev_size(*e),
    }
}

pub open spec fn svs_size(s: Seq<StmtView>, n: int) -> nat
    decreases n,
{
    if n <= 0 || n > s.len() {
        0
    } else {
        svs_size(s, n - 1) + sv_size(s[n - 1])
    }
}

pub proof fn lemma_ev_size_pos(e: ExprView)
    ensures
        ev_size(e) >= 1,
{
    match e {
        ExprView::BinaryOp(_l, _op, _r) => {
        },
        ExprView::Identifier(_n) => {
        },
        ExprView::Number(_b) => {
        },
        ExprView::FunctionCall(_n, _args) => {
        },
    }
}

pub proof fn lemma_exprs_view_index(s: Seq<Box<Expression>>, n: int, i: int)
    requires
        0 <= i < n <= s.len(),
    ensures
        exprs_view(s, n).len() == n,
        exprs_view(s, n)[i] == expr_view(&s[i]),
    decreases n,
{
    lemma_exprs_view_len(s, n);
    if i < n - 1 {
        lemma_exprs_view_index(s, n - 1, i);
    }
}

pub proof fn lemma_exprs_view_len(s: Seq<Box<Expression>>, n: int)
    requires
        0 <= n <= s.len(),
    ensures
        exprs_view(s, n).len() == n,
    decreases n,
{
    if n > 0 {
        lemma_exprs_view_len(s, n - 1);
    }
}

pub proof fn lemma_stmts_view_index(s: Seq<Box<Statement>>, n: int, i: int)
    requires
        0 <= i < n <= s.len(),
    ensures
        stmts_view(s, n).len() == n,
        stmts_view(s, n)[i] == stmt_view(&s[i]),
    decreases n,
{
    lemma_stmts_view_len(s, n);
    if i < n - 1 {
        lemma_stmts_view_index(s, n - 1, i);
    }
}

pub proof fn lemma_stmts_view_len(s: Seq<Box<Statement>>, n: int)
    requires
        0 <= n <= s.len(),
    ensures
        stmts_view(s, n).len() == n,
    decreases n,
{
    if n > 0 {
        lemma_stmts_view_len(s, n - 1);
    }
}

pub proof fn lemma_texts_view_index(s: Seq<Text>, n: int, i: int)
    requires
        0 <= i < n <= s.len(),
    ensures
        texts_view(s, n).len() == n,
        texts_view(s, n)[i] == text_view(&s[i]),
    decreases n,
{
    lemma_texts_view_len(s, n);
    if i < n - 1 {
        lemma_texts_view_index(s, n - 1, i);
    }
}

pub proof fn lemma_texts_view_len(s: Seq<Text>, n: int)
    requires
        0 <= n <= s.len(),
    ensures
        texts_view(s, n).len() == n,
    decreases n,
{
    if n > 0 {
        lemma_texts_view_len(s, n - 1);
    }
}

pub proof fn lemma_tops_view_index(s: Seq<TopLevel>, n: int, i: int)
    requires
        0 <= i < n <= s.len(),
    ensures
        tops_view(s, n).len() == n,
        tops_view(s, n)[i] == toplevel_view(&s[i]),
    decreases n,
{
    lemma_tops_view_len(s, n);
    if i < n - 1 {
        lemma_tops_view_index(s, n - 1, i);
    }
}

pub proof fn lemma_tops_view_len(s: Seq<TopLevel>, n: int)
    requires
        0 <= n <= s.len(),
    ensures
        tops_view(s, n).len() == n,
    decreases n,
{
    if n > 0 {
        lemma_tops_view_len(s, n - 1);
    }
}

} // verus!
