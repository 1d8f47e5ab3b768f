//! The parsed program representation: a span-tagged syntax tree whose
//! block-shaped nodes reference other blocks by identity, never by
//! ownership, so one block can be shared by several call sites.

use vstd::prelude::*;

use crate::signature::Signature;
use crate::span::Span;

verus! {

/// An opaque block identifier, resolved only through the working set.
pub type BlockId = usize;

/// A binary operator token.
#[derive(Debug, Clone, Copy, PartialEq, Eq, Structural)]
pub enum Operator {
    Plus,
    Minus,
    Multiply,
    Divide,
    Equal,
    NotEqual,
    LessThan,
    GreaterThan,
}

/// One syntactic form. Composite forms hold their operands as whole
/// expressions; block-shaped forms hold only a `BlockId`.
///
/// A float literal is carried as its raw bit pattern: the tree only moves
/// it around, it never computes with it.
#[derive(Debug, PartialEq)]
pub enum Expr {
    Garbage,
    Bool(bool),
    Int(i64),
    Float(u64),
    String(String),
    Var(usize),
    Operator(Operator),
    BinaryOp(Box<Expression>, Box<Expression>, Box<Expression>),
    List(Vec<Expression>),
    Table(Vec<Expression>, Vec<Vec<Expression>>),
    Keyword(Vec<u8>, Span, Box<Expression>),
    Signature(Box<Signature>),
    Call(Box<Call>),
    ExternalCall(Vec<u8>, Vec<Vec<u8>>),
    Block(BlockId),
    Subexpression(BlockId),
}

/// A syntactic form together with the source range it covers.
#[derive(Debug, PartialEq)]
pub struct Expression {
    pub expr: Expr,
    pub span: Span,
}

/// An unresolved invocation as it stands in the tree: the command's head
/// span and the positional argument expressions.
#[derive(Debug, PartialEq)]
pub struct Call {
    pub head: Span,
    pub positional: Vec<Expression>,
}

/// A pipeline: an ordered chain of stages, executed left to right.
#[derive(Debug, PartialEq)]
pub struct Pipeline {
    pub expressions: Vec<Expression>,
}

/// A statement. Only pipelines take part in execution and flattening;
/// declarations are opaque pass-through nodes here.
#[derive(Debug, PartialEq)]
pub enum Statement {
    Pipeline(Pipeline),
    Declaration(usize),
}

/// An ordered sequence of statements, owned by the working set and
/// referenced elsewhere by its `BlockId`.
#[derive(Debug, PartialEq)]
pub struct Block {
    pub stmts: Vec<Statement>,
}

/// The expressions a statement contributes to flattening and execution:
/// a pipeline's stages in order, nothing from other statements.
pub open spec fn stmt_exprs(s: Statement) -> Seq<Expression> {
    match s {
        Statement::Pipeline(p) => p.expressions@,
        Statement::Declaration(_) => Seq::empty(),
    }
}

/// All expressions of a statement sequence, in source order.
pub open spec fn stmts_exprs(ss: Seq<Statement>) -> Seq<Expression>
    decreases ss.len(),
{
    if ss.len() == 0 {
        Seq::empty()
    } else {
        stmt_exprs(ss[0]) + stmts_exprs(ss.drop_first())
    }
}

/// All expressions of a block, in source order.
pub open spec fn block_exprs(b: Block) -> Seq<Expression> {
    stmts_exprs(b.stmts@)
}

/// Every `BlockId` mentioned anywhere in this expression is below `bound`.
/// This is the construction discipline that keeps block references
/// well-founded: a block may only reference blocks created before it.
pub open spec fn expr_ids_below(e: Expression, bound: int) -> bool
    decreases e, 3int,
{
    match e.expr {
        Expr::BinaryOp(lhs, op, rhs) => expr_ids_below(*lhs, bound) && expr_ids_below(*op, bound)
            && expr_ids_below(*rhs, bound),
        Expr::List(items) => exprs_ids_below(items@, bound),
        Expr::Table(headers, rows) => exprs_ids_below(headers@, bound) && rows_ids_below(
            rows@,
            bound,
        ),
        Expr::Keyword(name, span, inner) => expr_ids_below(*inner, bound),
        Expr::Call(call) => exprs_ids_below(call.positional@, bound),
        Expr::Block(id) => 0 <= id < bound,
        Expr::Subexpression(id) => 0 <= id < bound,
        _ => true,
    }
}

pub open spec fn exprs_ids_below(es: Seq<Expression>, bound: int) -> bool
    decreases es, 2int,
{
    if es.len() == 0 {
        true
    } else {
        expr_ids_below(es[0], bound) && exprs_ids_below(es.drop_first(), bound)
    }
}

pub open spec fn rows_ids_below(rs: Seq<Vec<Expression>>, bound: int) -> bool
    decreases rs, 4int,
{
    if rs.len() == 0 {
        true
    } else {
        exprs_ids_below(rs[0]@, bound) && rows_ids_below(rs.drop_first(), bound)
    }
}

/// Every `BlockId` mentioned in the block is below `bound`.
pub open spec fn block_ids_below(b: Block, bound: int) -> bool {
    exprs_ids_below(block_exprs(b), bound)
}

/// `exprs_ids_below` holds exactly when it holds of every element.
pub broadcast proof fn lemma_exprs_ids_below(es: Seq<Expression>, bound: int)
    ensures
        #[trigger] exprs_ids_below(es, bound) <==> forall|i: int|
            0 <= i < es.len() ==> expr_ids_below(#[trigger] es[i], bound),
    decreases es.len(),
{
    if es.len() > 0 {
        lemma_exprs_ids_below(es.drop_first(), bound);
        if exprs_ids_below(es, bound) {
            assert forall|i: int| 0 <= i < es.len() implies expr_ids_below(
                #[trigger] es[i],
                bound,
            ) by {
                if i > 0 {
                    assert(es.drop_first()[i - 1] == es[i]);
                    assert(expr_ids_below(es.drop_first()[i - 1], bound));
                }
            }
        }
        if forall|i: int| 0 <= i < es.len() ==> expr_ids_below(#[trigger] es[i], bound) {
            assert forall|i: int| 0 <= i < es.drop_first().len() implies expr_ids_below(
                #[trigger] es.drop_first()[i],
                bound,
            ) by {
                assert(es.drop_first()[i] == es[i + 1]);
            }
            assert(expr_ids_below(es[0], bound));
        }
    }
}


/// Every source range mentioned anywhere in this expression ends at or
/// before offset `n` — block references aside, whose contents live in
/// the arena, not in the expression.
pub open spec fn expr_spans_below(e: Expression, n: int) -> bool
    decreases e, 3int,
{
    e.span.end <= n && match e.expr {
        Expr::BinaryOp(lhs, op, rhs) => expr_spans_below(*lhs, n) && expr_spans_below(*op, n)
            && expr_spans_below(*rhs, n),
        Expr::List(items) => exprs_spans_below(items@, n),
        Expr::Table(headers, rows) => exprs_spans_below(headers@, n) && rows_spans_below(
            rows@,
            n,
        ),
        Expr::Keyword(name, span, inner) => span.end <= n && expr_spans_below(*inner, n),
        Expr::Call(call) => call.head.end <= n && exprs_spans_below(call.positional@, n),
        _ => true,
    }
}

pub open spec fn exprs_spans_below(es: Seq<Expression>, n: int) -> bool
    decreases es, 2int,
{
    if es.len() == 0 {
        true
    } else {
        expr_spans_below(es[0], n) && exprs_spans_below(es.drop_first(), n)
    }
}

pub open spec fn rows_spans_below(rs: Seq<Vec<Expression>>, n: int) -> bool
    decreases rs, 4int,
{
    if rs.len() == 0 {
        true
    } else {
        exprs_spans_below(rs[0]@, n) && rows_spans_below(rs.drop_first(), n)
    }
}

/// Every source range mentioned in the block's own statements ends at or
/// before offset `n`.
pub open spec fn block_spans_below(b: Block, n: int) -> bool {
    exprs_spans_below(block_exprs(b), n)
}

/// `exprs_spans_below` holds exactly when it holds of every element.
pub broadcast proof fn lemma_exprs_spans_below(es: Seq<Expression>, n: int)
    ensures
        #[trigger] exprs_spans_below(es, n) <==> forall|i: int|
            0 <= i < es.len() ==> expr_spans_below(#[trigger] es[i], n),
    decreases es.len(),
{
    if es.len() > 0 {
        lemma_exprs_spans_below(es.drop_first(), n);
        if exprs_spans_below(es, n) {
            assert forall|i: int| 0 <= i < es.len() implies expr_spans_below(
                #[trigger] es[i],
                n,
            ) by {
                if i > 0 {
                    assert(es.drop_first()[i - 1] == es[i]);
                    assert(expr_spans_below(es.drop_first()[i - 1], n));
                }
            }
        }
        if forall|i: int| 0 <= i < es.len() ==> expr_spans_below(#[trigger] es[i], n) {
            assert forall|i: int| 0 <= i < es.drop_first().len() implies expr_spans_below(
                #[trigger] es.drop_first()[i],
                n,
            ) by {
                assert(es.drop_first()[i] == es[i + 1]);
            }
            assert(expr_spans_below(es[0], n));
        }
    }
}

/// Appending one statement appends its expressions.
pub proof fn lemma_stmts_exprs_snoc(ss: Seq<Statement>, s: Statement)
    ensures
        stmts_exprs(ss + seq![s]) == stmts_exprs(ss) + stmt_exprs(s),
    decreases ss.len(),
{
    if ss.len() == 0 {
        assert(ss + seq![s] =~= seq![s]);
        assert(seq![s].drop_first() =~= Seq::<Statement>::empty());
        assert(stmts_exprs(seq![s]) == stmt_exprs(s) + stmts_exprs(Seq::empty()));
        assert(stmt_exprs(s) + Seq::<Expression>::empty() =~= stmt_exprs(s));
        assert(stmts_exprs(ss) + stmt_exprs(s) =~= stmt_exprs(s));
    } else {
        assert((ss + seq![s])[0] == ss[0]);
        assert((ss + seq![s]).drop_first() =~= ss.drop_first() + seq![s]);
        lemma_stmts_exprs_snoc(ss.drop_first(), s);
        assert(stmt_exprs(ss[0]) + (stmts_exprs(ss.drop_first()) + stmt_exprs(s)) =~= (stmt_exprs(
            ss[0],
        ) + stmts_exprs(ss.drop_first())) + stmt_exprs(s));
    }
}

/// Each row of a well-bounded row sequence is itself well-bounded.
pub proof fn lemma_rows_ids_below_index(rs: Seq<Vec<Expression>>, bound: int, i: int)
    requires
        rows_ids_below(rs, bound),
        0 <= i < rs.len(),
    ensures
        exprs_ids_below(rs[i]@, bound),
    decreases i,
{
    if i > 0 {
        assert(rs.drop_first()[i - 1] == rs[i]);
        lemma_rows_ids_below_index(rs.drop_first(), bound, i - 1);
    }
}

/// Splitting a concatenation splits the bound on its block references.
pub proof fn lemma_exprs_ids_below_split(a: Seq<Expression>, b: Seq<Expression>, bound: int)
    requires
        exprs_ids_below(a + b, bound),
    ensures
        exprs_ids_below(a, bound),
        exprs_ids_below(b, bound),
{
    lemma_exprs_ids_below(a + b, bound);
    lemma_exprs_ids_below(a, bound);
    lemma_exprs_ids_below(b, bound);
    assert forall|i: int| 0 <= i < a.len() implies expr_ids_below(#[trigger] a[i], bound) by {
        assert((a + b)[i] == a[i]);
    }
    assert forall|i: int| 0 <= i < b.len() implies expr_ids_below(#[trigger] b[i], bound) by {
        assert((a + b)[a.len() + i] == b[i]);
    }
}

/// A smaller bound is also a bound: raising the bound keeps the predicate.
pub proof fn lemma_expr_ids_below_widen(e: Expression, bound: int, wider: int)
    requires
        expr_ids_below(e, bound),
        bound <= wider,
    ensures
        expr_ids_below(e, wider),
    decreases e, 3int,
{
    match e.expr {
        Expr::BinaryOp(lhs, op, rhs) => {
            lemma_expr_ids_below_widen(*lhs, bound, wider);
            lemma_expr_ids_below_widen(*op, bound, wider);
            lemma_expr_ids_below_widen(*rhs, bound, wider);
        },
        Expr::List(items) => {
            lemma_exprs_ids_below_widen(items@, bound, wider);
        },
        Expr::Table(headers, rows) => {
            lemma_exprs_ids_below_widen(headers@, bound, wider);
            lemma_rows_ids_below_widen(rows@, bound, wider);
        },
        Expr::Keyword(name, span, inner) => {
            lemma_expr_ids_below_widen(*inner, bound, wider);
        },
        Expr::Call(call) => {
            lemma_exprs_ids_below_widen(call.positional@, bound, wider);
        },
        _ => {},
    }
}

pub proof fn lemma_exprs_ids_below_widen(es: Seq<Expression>, bound: int, wider: int)
    requires
        exprs_ids_below(es, bound),
        bound <= wider,
    ensures
        exprs_ids_below(es, wider),
    decreases es, 2int,
{
    if es.len() > 0 {
        lemma_expr_ids_below_widen(es[0], bound, wider);
        lemma_exprs_ids_below_widen(es.drop_first(), bound, wider);
    }
}

pub proof fn lemma_rows_ids_below_widen(rs: Seq<Vec<Expression>>, bound: int, wider: int)
    requires
        rows_ids_below(rs, bound),
        bound <= wider,
    ensures
        rows_ids_below(rs, wider),
    decreases rs, 4int,
{
    if rs.len() > 0 {
        lemma_exprs_ids_below_widen(rs[0]@, bound, wider);
        lemma_rows_ids_below_widen(rs.drop_first(), bound, wider);
    }
}

} // verus!
