//! The flatten engine: a pure traversal that classifies every leaf
//! syntactic token of a block with a semantic category, in source order,
//! for consumers such as highlighters and completers.

use vstd::prelude::*;

use crate::ast::{
    block_exprs, exprs_ids_below, lemma_exprs_ids_below, stmt_exprs, stmts_exprs, Block, Expr,
    Expression, Pipeline, Statement,
};
use crate::ast::{expr_ids_below, rows_ids_below};
use crate::span::Span;
use crate::workingset::StateWorkingSet;

verus! {

/// The semantic category of one source range.
#[derive(Debug, Clone, Copy, PartialEq, Eq, Structural)]
pub enum FlatShape {
    Garbage,
    Bool,
    Int,
    Float,
    InternalCall,
    External,
    Literal,
    Operator,
    Signature,
    String,
    Variable,
}

/// What flattening one expression yields: one classification rule per
/// variant, children in source order, block references resolved through
/// the arena. An id at or above `bound` cannot arise under the arena's
/// construction discipline; it resolves to nothing.
pub open spec fn flat_expr(blocks: Seq<Block>, e: Expression, bound: int) -> Seq<(Span, FlatShape)>
    decreases bound, 0int, 0int, e, 0int,
{
    match e.expr {
        Expr::Garbage => seq![(e.span, FlatShape::Garbage)],
        Expr::Bool(_) => seq![(e.span, FlatShape::Bool)],
        Expr::Int(_) => seq![(e.span, FlatShape::Int)],
        Expr::Float(_) => seq![(e.span, FlatShape::Float)],
        Expr::String(_) => seq![(e.span, FlatShape::String)],
        Expr::Var(_) => seq![(e.span, FlatShape::Variable)],
        Expr::Operator(_) => seq![(e.span, FlatShape::Operator)],
        Expr::Signature(_) => seq![(e.span, FlatShape::Signature)],
        Expr::ExternalCall(_, _) => seq![(e.span, FlatShape::External)],
        Expr::BinaryOp(lhs, op, rhs) => flat_expr(blocks, *lhs, bound) + flat_expr(
            blocks,
            *op,
            bound,
        ) + flat_expr(blocks, *rhs, bound),
        Expr::List(items) => flat_exprs(blocks, items@, bound),
        Expr::Table(headers, rows) => flat_exprs(blocks, headers@, bound) + flat_rows(
            blocks,
            rows@,
            bound,
        ),
        Expr::Keyword(name, span, inner) => seq![(span, FlatShape::Operator)] + flat_expr(
            blocks,
            *inner,
            bound,
        ),
        Expr::Call(call) => seq![(call.head, FlatShape::InternalCall)] + flat_exprs(
            blocks,
            call.positional@,
            bound,
        ),
        Expr::Block(id) => if 0 <= id < bound && id < blocks.len() {
            flat_exprs(blocks, block_exprs(blocks[id as int]), id as int)
        } else {
            Seq::empty()
        },
        Expr::Subexpression(id) => if 0 <= id < bound && id < blocks.len() {
            flat_exprs(blocks, block_exprs(blocks[id as int]), id as int)
        } else {
            Seq::empty()
        },
    }
}

pub open spec fn flat_exprs(blocks: Seq<Block>, es: Seq<Expression>, bound: int) -> Seq<
    (Span, FlatShape),
>
    decreases bound, 0int, 0int, es, 1int,
{
    if es.len() == 0 {
        Seq::empty()
    } else {
        flat_expr(blocks, es[0], bound) + flat_exprs(blocks, es.drop_first(), bound)
    }
}

pub open spec fn flat_rows(blocks: Seq<Block>, rs: Seq<Vec<Expression>>, bound: int) -> Seq<
    (Span, FlatShape),
>
    decreases bound, 0int, 0int, rs, 2int,
{
    if rs.len() == 0 {
        Seq::empty()
    } else {
        flat_exprs(blocks, rs[0]@, bound) + flat_rows(blocks, rs.drop_first(), bound)
    }
}

/// What flattening a whole block yields: its pipelines' stages in order.
pub open spec fn flat_block(blocks: Seq<Block>, b: Block, bound: int) -> Seq<(Span, FlatShape)> {
    flat_exprs(blocks, block_exprs(b), bound)
}

/// What flattening one statement yields: only pipelines contribute.
pub open spec fn flat_stmt(blocks: Seq<Block>, s: Statement, bound: int) -> Seq<(Span, FlatShape)> {
    flat_exprs(blocks, stmt_exprs(s), bound)
}

/// What flattening one pipeline yields: its stages, left to right.
pub open spec fn flat_pipeline(blocks: Seq<Block>, p: Pipeline, bound: int) -> Seq<
    (Span, FlatShape),
> {
    flat_exprs(blocks, p.expressions@, bound)
}

/// Flattening distributes over concatenation of expression sequences.
pub proof fn lemma_flat_exprs_append(
    blocks: Seq<Block>,
    es1: Seq<Expression>,
    es2: Seq<Expression>,
    bound: int,
)
    ensures
        flat_exprs(blocks, es1 + es2, bound) == flat_exprs(blocks, es1, bound) + flat_exprs(
            blocks,
            es2,
            bound,
        ),
    decreases es1.len(),
{
    if es1.len() == 0 {
        assert(es1 + es2 =~= es2);
        assert(flat_exprs(blocks, es1, bound) + flat_exprs(blocks, es2, bound) =~= flat_exprs(
            blocks,
            es2,
            bound,
        ));
    } else {
        assert((es1 + es2)[0] == es1[0]);
        assert((es1 + es2).drop_first() =~= es1.drop_first() + es2);
        lemma_flat_exprs_append(blocks, es1.drop_first(), es2, bound);
        assert(flat_expr(blocks, es1[0], bound) + (flat_exprs(blocks, es1.drop_first(), bound)
            + flat_exprs(blocks, es2, bound)) =~= (flat_expr(blocks, es1[0], bound) + flat_exprs(
            blocks,
            es1.drop_first(),
            bound,
        )) + flat_exprs(blocks, es2, bound));
    }
}

/// Flattening a single expression sequence element.
pub proof fn lemma_flat_exprs_one(blocks: Seq<Block>, e: Expression, bound: int)
    ensures
        flat_exprs(blocks, seq![e], bound) == flat_expr(blocks, e, bound),
{
    assert(seq![e].len() == 1);
    assert(seq![e][0] == e);
    assert(seq![e].drop_first() =~= Seq::<Expression>::empty());
    assert(flat_exprs(blocks, Seq::<Expression>::empty(), bound) == Seq::<(Span, FlatShape)>::empty());
    assert(flat_expr(blocks, e, bound) + Seq::<(Span, FlatShape)>::empty() =~= flat_expr(
        blocks,
        e,
        bound,
    ));
}

/// Flattening distributes over concatenation of table rows.
pub proof fn lemma_flat_rows_append(
    blocks: Seq<Block>,
    rs1: Seq<Vec<Expression>>,
    rs2: Seq<Vec<Expression>>,
    bound: int,
)
    ensures
        flat_rows(blocks, rs1 + rs2, bound) == flat_rows(blocks, rs1, bound) + flat_rows(
            blocks,
            rs2,
            bound,
        ),
    decreases rs1.len(),
{
    if rs1.len() == 0 {
        assert(rs1 + rs2 =~= rs2);
        assert(flat_rows(blocks, rs1, bound) + flat_rows(blocks, rs2, bound) =~= flat_rows(
            blocks,
            rs2,
            bound,
        ));
    } else {
        assert((rs1 + rs2)[0] == rs1[0]);
        assert((rs1 + rs2).drop_first() =~= rs1.drop_first() + rs2);
        lemma_flat_rows_append(blocks, rs1.drop_first(), rs2, bound);
        assert(flat_exprs(blocks, rs1[0]@, bound) + (flat_rows(blocks, rs1.drop_first(), bound)
            + flat_rows(blocks, rs2, bound)) =~= (flat_exprs(blocks, rs1[0]@, bound) + flat_rows(
            blocks,
            rs1.drop_first(),
            bound,
        )) + flat_rows(blocks, rs2, bound));
    }
}


/// Flatten order: flattening a binary operation yields the left operand's
/// entries, then the operator's, then the right operand's, in that
/// left-to-right order.
pub proof fn lemma_flatten_binary_op(blocks: Seq<Block>, e: Expression, bound: int)
    requires
        e.expr is BinaryOp,
    ensures
        flat_expr(blocks, e, bound) == flat_expr(blocks, *e.expr->BinaryOp_0, bound) + flat_expr(
            blocks,
            *e.expr->BinaryOp_1,
            bound,
        ) + flat_expr(blocks, *e.expr->BinaryOp_2, bound),
{
}

/// The expressions on which flattening is known to yield an entry: every
/// leaf form, operations through their left operand, lists and tables
/// through their first element, calls and keywords through their own
/// head entry, and block references through a block that itself
/// flattens to something.
pub open spec fn covered(blocks: Seq<Block>, e: Expression, bound: int) -> bool
    decreases e,
{
    match e.expr {
        Expr::BinaryOp(lhs, op, rhs) => covered(blocks, *lhs, bound),
        Expr::List(items) => items@.len() > 0 && covered(blocks, items@[0], bound),
        Expr::Table(headers, rows) => headers@.len() > 0 && covered(blocks, headers@[0], bound),
        Expr::Block(id) => 0 <= id < bound && id < blocks.len() && flat_exprs(
            blocks,
            block_exprs(blocks[id as int]),
            id as int,
        ).len() >= 1,
        Expr::Subexpression(id) => 0 <= id < bound && id < blocks.len() && flat_exprs(
            blocks,
            block_exprs(blocks[id as int]),
            id as int,
        ).len() >= 1,
        _ => true,
    }
}

/// Flatten completeness: a covered expression never flattens to nothing —
/// no syntactic form silently drops its span.
pub proof fn lemma_flatten_covered(blocks: Seq<Block>, e: Expression, bound: int)
    requires
        covered(blocks, e, bound),
    ensures
        flat_expr(blocks, e, bound).len() >= 1,
    decreases e,
{
    match e.expr {
        Expr::BinaryOp(lhs, op, rhs) => {
            lemma_flatten_covered(blocks, *lhs, bound);
        },
        Expr::List(items) => {
            lemma_flatten_covered(blocks, items@[0], bound);
            assert(flat_exprs(blocks, items@, bound) == flat_expr(blocks, items@[0], bound)
                + flat_exprs(blocks, items@.drop_first(), bound));
        },
        Expr::Table(headers, rows) => {
            lemma_flatten_covered(blocks, headers@[0], bound);
            assert(flat_exprs(blocks, headers@, bound) == flat_expr(blocks, headers@[0], bound)
                + flat_exprs(blocks, headers@.drop_first(), bound));
        },
        _ => {},
    }
}


/// Every entry's span lies inside `outer`.
pub open spec fn entries_within(entries: Seq<(Span, FlatShape)>, outer: Span) -> bool {
    forall|i: int| 0 <= i < entries.len() ==> (#[trigger] entries[i]).0.within(outer)
}

/// Properly nested spans: every child's span, every call head and every
/// keyword span lies inside its parent's span. Block references resolve
/// to blocks whose spans belong to their own source region, so they are
/// left out here.
pub open spec fn spans_nested(e: Expression) -> bool
    decreases e, 3int,
{
    match e.expr {
        Expr::BinaryOp(lhs, op, rhs) => lhs.span.within(e.span) && op.span.within(e.span)
            && rhs.span.within(e.span) && spans_nested(*lhs) && spans_nested(*op) && spans_nested(
            *rhs,
        ),
        Expr::List(items) => exprs_spans_nested(items@, e.span),
        Expr::Table(headers, rows) => exprs_spans_nested(headers@, e.span) && rows_spans_nested(
            rows@,
            e.span,
        ),
        Expr::Keyword(name, span, inner) => span.within(e.span) && inner.span.within(e.span)
            && spans_nested(*inner),
        Expr::Call(call) => call.head.within(e.span) && exprs_spans_nested(
            call.positional@,
            e.span,
        ),
        Expr::Block(id) => false,
        Expr::Subexpression(id) => false,
        _ => true,
    }
}

pub open spec fn exprs_spans_nested(es: Seq<Expression>, outer: Span) -> bool
    decreases es, 2int,
{
    if es.len() == 0 {
        true
    } else {
        es[0].span.within(outer) && spans_nested(es[0]) && exprs_spans_nested(
            es.drop_first(),
            outer,
        )
    }
}

pub open spec fn rows_spans_nested(rs: Seq<Vec<Expression>>, outer: Span) -> bool
    decreases rs, 4int,
{
    if rs.len() == 0 {
        true
    } else {
        exprs_spans_nested(rs[0]@, outer) && rows_spans_nested(rs.drop_first(), outer)
    }
}

/// Flatten stays inside its input: with properly nested spans, every
/// entry's span is a subrange of the flattened expression's own span.
pub proof fn lemma_flatten_spans_within(blocks: Seq<Block>, e: Expression, bound: int)
    requires
        spans_nested(e),
    ensures
        entries_within(flat_expr(blocks, e, bound), e.span),
    decreases e, 3int,
{
    match e.expr {
        Expr::BinaryOp(lhs, op, rhs) => {
            lemma_flatten_spans_within(blocks, *lhs, bound);
            lemma_flatten_spans_within(blocks, *op, bound);
            lemma_flatten_spans_within(blocks, *rhs, bound);
            assert forall|i: int| 0 <= i < flat_expr(blocks, e, bound).len() implies (
            #[trigger] flat_expr(blocks, e, bound)[i]).0.within(e.span) by {
                let a = flat_expr(blocks, *lhs, bound);
                let b = flat_expr(blocks, *op, bound);
                let c = flat_expr(blocks, *rhs, bound);
                if i < a.len() {
                    assert(flat_expr(blocks, e, bound)[i] == a[i]);
                } else if i < a.len() + b.len() {
                    assert(flat_expr(blocks, e, bound)[i] == b[i - a.len()]);
                } else {
                    assert(flat_expr(blocks, e, bound)[i] == c[i - a.len() - b.len()]);
                }
            }
        },
        Expr::List(items) => {
            lemma_flat_exprs_spans_within(blocks, items@, e.span, bound);
        },
        Expr::Table(headers, rows) => {
            lemma_flat_exprs_spans_within(blocks, headers@, e.span, bound);
            lemma_flat_rows_spans_within(blocks, rows@, e.span, bound);
            assert forall|i: int| 0 <= i < flat_expr(blocks, e, bound).len() implies (
            #[trigger] flat_expr(blocks, e, bound)[i]).0.within(e.span) by {
                let a = flat_exprs(blocks, headers@, bound);
                let b = flat_rows(blocks, rows@, bound);
                if i < a.len() {
                    assert(flat_expr(blocks, e, bound)[i] == a[i]);
                } else {
                    assert(flat_expr(blocks, e, bound)[i] == b[i - a.len()]);
                }
            }
        },
        Expr::Keyword(name, span, inner) => {
            lemma_flatten_spans_within(blocks, *inner, bound);
            assert forall|i: int| 0 <= i < flat_expr(blocks, e, bound).len() implies (
            #[trigger] flat_expr(blocks, e, bound)[i]).0.within(e.span) by {
                let b = flat_expr(blocks, *inner, bound);
                if i >= 1 {
                    assert(flat_expr(blocks, e, bound)[i] == b[i - 1]);
                }
            }
        },
        Expr::Call(call) => {
            lemma_flat_exprs_spans_within(blocks, call.positional@, e.span, bound);
            assert forall|i: int| 0 <= i < flat_expr(blocks, e, bound).len() implies (
            #[trigger] flat_expr(blocks, e, bound)[i]).0.within(e.span) by {
                let b = flat_exprs(blocks, call.positional@, bound);
                if i >= 1 {
                    assert(flat_expr(blocks, e, bound)[i] == b[i - 1]);
                }
            }
        },
        _ => {},
    }
}

proof fn lemma_flat_exprs_spans_within(
    blocks: Seq<Block>,
    es: Seq<Expression>,
    outer: Span,
    bound: int,
)
    requires
        exprs_spans_nested(es, outer),
    ensures
        entries_within(flat_exprs(blocks, es, bound), outer),
    decreases es, 2int,
{
    if es.len() > 0 {
        lemma_flatten_spans_within(blocks, es[0], bound);
        lemma_flat_exprs_spans_within(blocks, es.drop_first(), outer, bound);
        assert forall|i: int| 0 <= i < flat_exprs(blocks, es, bound).len() implies (
        #[trigger] flat_exprs(blocks, es, bound)[i]).0.within(outer) by {
            let a = flat_expr(blocks, es[0], bound);
            let b = flat_exprs(blocks, es.drop_first(), bound);
            if i < a.len() {
                assert(flat_exprs(blocks, es, bound)[i] == a[i]);
                assert(a[i].0.within(es[0].span));
            } else {
                assert(flat_exprs(blocks, es, bound)[i] == b[i - a.len()]);
            }
        }
    }
}

proof fn lemma_flat_rows_spans_within(
    blocks: Seq<Block>,
    rs: Seq<Vec<Expression>>,
    outer: Span,
    bound: int,
)
    requires
        rows_spans_nested(rs, outer),
    ensures
        entries_within(flat_rows(blocks, rs, bound), outer),
    decreases rs, 4int,
{
    if rs.len() > 0 {
        lemma_flat_exprs_spans_within(blocks, rs[0]@, outer, bound);
        lemma_flat_rows_spans_within(blocks, rs.drop_first(), outer, bound);
        assert forall|i: int| 0 <= i < flat_rows(blocks, rs, bound).len() implies (
        #[trigger] flat_rows(blocks, rs, bound)[i]).0.within(outer) by {
            let a = flat_exprs(blocks, rs[0]@, bound);
            let b = flat_rows(blocks, rs.drop_first(), bound);
            if i < a.len() {
                assert(flat_rows(blocks, rs, bound)[i] == a[i]);
            } else {
                assert(flat_rows(blocks, rs, bound)[i] == b[i - a.len()]);
            }
        }
    }
}

#[verifier::loop_isolation(false)]
fn flatten_expression_at(
    working_set: &StateWorkingSet,
    e: &Expression,
    bound: Ghost<int>,
) -> (r: Vec<(Span, FlatShape)>)
    requires
        working_set.wf(),
        0 <= bound@ <= working_set@.len(),
        expr_ids_below(*e, bound@),
    ensures
        r@ == flat_expr(working_set@, *e, bound@),
    decreases bound@, 0int, 0int, *e, 0int,
{
    let ghost blocks = working_set@;
    match &e.expr {
        Expr::Garbage => {
            let mut out: Vec<(Span, FlatShape)> = Vec::new();
            out.push((e.span, FlatShape::Garbage));
            assert(out@ =~= flat_expr(blocks, *e, bound@));
            out
        },
        Expr::Bool(_) => {
            let mut out: Vec<(Span, FlatShape)> = Vec::new();
            out.push((e.span, FlatShape::Bool));
            assert(out@ =~= flat_expr(blocks, *e, bound@));
            out
        },
        Expr::Int(_) => {
            let mut out: Vec<(Span, FlatShape)> = Vec::new();
            out.push((e.span, FlatShape::Int));
            assert(out@ =~= flat_expr(blocks, *e, bound@));
            out
        },
        Expr::Float(_) => {
            let mut out: Vec<(Span, FlatShape)> = Vec::new();
            out.push((e.span, FlatShape::Float));
            assert(out@ =~= flat_expr(blocks, *e, bound@));
            out
        },
        Expr::String(_) => {
            let mut out: Vec<(Span, FlatShape)> = Vec::new();
            out.push((e.span, FlatShape::String));
            assert(out@ =~= flat_expr(blocks, *e, bound@));
            out
        },
        Expr::Var(_) => {
            let mut out: Vec<(Span, FlatShape)> = Vec::new();
            out.push((e.span, FlatShape::Variable));
            assert(out@ =~= flat_expr(blocks, *e, bound@));
            out
        },
        Expr::Operator(_) => {
            let mut out: Vec<(Span, FlatShape)> = Vec::new();
            out.push((e.span, FlatShape::Operator));
            assert(out@ =~= flat_expr(blocks, *e, bound@));
            out
        },
        Expr::Signature(_) => {
            let mut out: Vec<(Span, FlatShape)> = Vec::new();
            out.push((e.span, FlatShape::Signature));
            assert(out@ =~= flat_expr(blocks, *e, bound@));
            out
        },
        Expr::ExternalCall(_, _) => {
            let mut out: Vec<(Span, FlatShape)> = Vec::new();
            out.push((e.span, FlatShape::External));
            assert(out@ =~= flat_expr(blocks, *e, bound@));
            out
        },
        Expr::BinaryOp(lhs, op, rhs) => {
            let mut out = flatten_expression_at(working_set, lhs, bound);
            let mut o2 = flatten_expression_at(working_set, op, bound);
            let mut o3 = flatten_expression_at(working_set, rhs, bound);
            out.append(&mut o2);
            out.append(&mut o3);
            out
        },
        Expr::List(items) => {
            let out = flatten_exprs_loop(working_set, items, bound);
            assert(items@.subrange(0, items@.len() as int) =~= items@);
            out
        },
        Expr::Table(headers, rows) => {
            let mut out = flatten_exprs_loop(working_set, headers, bound);
            assert(headers@.subrange(0, headers@.len() as int) =~= headers@);
            let mut ri: usize = 0;
            proof {
                assert(rows@.subrange(0, 0) =~= Seq::<Vec<Expression>>::empty());
            }
            while ri < rows.len()
                invariant
                    working_set.wf(),
                    0 <= bound@ <= working_set@.len(),
                    blocks == working_set@,
                    ri <= rows@.len(),
                    rows_ids_below(rows@, bound@),
                    out@ == flat_exprs(blocks, headers@, bound@) + flat_rows(
                        blocks,
                        rows@.subrange(0, ri as int),
                        bound@,
                    ),
                decreases rows@.len() - ri,
            {
                proof {
                    crate::ast::lemma_rows_ids_below_index(rows@, bound@, ri as int);
                    assert(decreases_to!(*e => e.expr));
                    assert(decreases_to!(e.expr => e.expr->Table_1));
                    assert(e.expr->Table_1 == *rows);
                    assert(decreases_to!(*rows => rows@));
                    assert(decreases_to!(rows@ => rows@[ri as int]@));
                    assert(decreases_to!(*e => rows@[ri as int]@));
                }
                let mut piece = flatten_exprs_loop(working_set, &rows[ri], bound);
                assert(rows@[ri as int]@.subrange(0, rows@[ri as int]@.len() as int) =~= rows@[
                    ri as int
                ]@);
                out.append(&mut piece);
                proof {
                    lemma_flat_rows_append(
                        blocks,
                        rows@.subrange(0, ri as int),
                        seq![rows@[ri as int]],
                        bound@,
                    );
                    assert(rows@.subrange(0, ri as int) + seq![rows@[ri as int]] =~= rows@.subrange(
                        0,
                        ri as int + 1,
                    ));
                    assert(seq![rows@[ri as int]].len() == 1);
                    assert(seq![rows@[ri as int]][0] == rows@[ri as int]);
                    assert(seq![rows@[ri as int]].drop_first() =~= Seq::<Vec<Expression>>::empty());
                    assert(flat_rows(blocks, Seq::<Vec<Expression>>::empty(), bound@) == Seq::<
                        (Span, FlatShape),
                    >::empty());
                    assert(flat_exprs(blocks, rows@[ri as int]@, bound@) + Seq::<
                        (Span, FlatShape),
                    >::empty() =~= flat_exprs(blocks, rows@[ri as int]@, bound@));
                    assert((flat_exprs(blocks, headers@, bound@) + flat_rows(
                        blocks,
                        rows@.subrange(0, ri as int),
                        bound@,
                    )) + flat_exprs(blocks, rows@[ri as int]@, bound@) =~= flat_exprs(
                        blocks,
                        headers@,
                        bound@,
                    ) + (flat_rows(blocks, rows@.subrange(0, ri as int), bound@) + flat_exprs(
                        blocks,
                        rows@[ri as int]@,
                        bound@,
                    )));
                }
                ri = ri + 1;
            }
            assert(rows@.subrange(0, rows@.len() as int) =~= rows@);
            out
        },
        Expr::Keyword(_, span, inner) => {
            let mut out: Vec<(Span, FlatShape)> = Vec::new();
            out.push((*span, FlatShape::Operator));
            let mut o2 = flatten_expression_at(working_set, inner, bound);
            out.append(&mut o2);
            assert(out@ =~= flat_expr(blocks, *e, bound@));
            out
        },
        Expr::Call(call) => {
            let mut out: Vec<(Span, FlatShape)> = Vec::new();
            out.push((call.head, FlatShape::InternalCall));
            let mut o2 = flatten_exprs_loop(working_set, &call.positional, bound);
            assert(call.positional@.subrange(0, call.positional@.len() as int) =~= call
                .positional@);
            out.append(&mut o2);
            assert(out@ =~= flat_expr(blocks, *e, bound@));
            out
        },
        Expr::Block(id) => {
            assert(0 <= *id < bound@);
            let b = working_set.get_block(*id);
            proof {
                assert(*b == blocks[*id as int]);
                assert(crate::ast::block_ids_below(blocks[*id as int], *id as int));
                assert(b.stmts@.subrange(0, b.stmts@.len() as int) =~= b.stmts@);
            }
            let out = flatten_stmts_at(working_set, b, 0, Ghost(*id as int));
            out
        },
        Expr::Subexpression(id) => {
            assert(0 <= *id < bound@);
            let b = working_set.get_block(*id);
            proof {
                assert(*b == blocks[*id as int]);
                assert(crate::ast::block_ids_below(blocks[*id as int], *id as int));
                assert(b.stmts@.subrange(0, b.stmts@.len() as int) =~= b.stmts@);
            }
            let out = flatten_stmts_at(working_set, b, 0, Ghost(*id as int));
            out
        },
    }
}

/// Flattens `es[0..]`, one expression after the other.
fn flatten_exprs_loop(
    working_set: &StateWorkingSet,
    es: &Vec<Expression>,
    bound: Ghost<int>,
) -> (r: Vec<(Span, FlatShape)>)
    requires
        working_set.wf(),
        0 <= bound@ <= working_set@.len(),
        exprs_ids_below(es@, bound@),
    ensures
        r@ == flat_exprs(working_set@, es@, bound@),
    decreases bound@, 0int, 0int, es@, 1int,
{
    let ghost blocks = working_set@;
    let mut out: Vec<(Span, FlatShape)> = Vec::new();
    let mut i: usize = 0;
    proof {
        assert(es@.subrange(0, 0) =~= Seq::<Expression>::empty());
        lemma_exprs_ids_below(es@, bound@);
    }
    while i < es.len()
        invariant
            working_set.wf(),
            0 <= bound@ <= working_set@.len(),
            blocks == working_set@,
            i <= es@.len(),
            forall|k: int| 0 <= k < es@.len() ==> expr_ids_below(#[trigger] es@[k], bound@),
            out@ == flat_exprs(blocks, es@.subrange(0, i as int), bound@),
        decreases es@.len() - i,
    {
        let mut piece = flatten_expression_at(working_set, &es[i], bound);
        out.append(&mut piece);
        proof {
            lemma_flat_exprs_append(blocks, es@.subrange(0, i as int), seq![es@[i as int]], bound@);
            lemma_flat_exprs_one(blocks, es@[i as int], bound@);
            assert(es@.subrange(0, i as int) + seq![es@[i as int]] =~= es@.subrange(
                0,
                i as int + 1,
            ));
        }
        i = i + 1;
    }
    assert(es@.subrange(0, es@.len() as int) =~= es@);
    out
}

/// Flattens the statements of a block from index `si` on.
fn flatten_stmts_at(working_set: &StateWorkingSet, b: &Block, si: usize, bound: Ghost<int>) -> (r:
    Vec<(Span, FlatShape)>)
    requires
        working_set.wf(),
        0 <= bound@ <= working_set@.len(),
        si <= b.stmts@.len(),
        exprs_ids_below(stmts_exprs(b.stmts@.subrange(si as int, b.stmts@.len() as int)), bound@),
    ensures
        r@ == flat_exprs(
            working_set@,
            stmts_exprs(b.stmts@.subrange(si as int, b.stmts@.len() as int)),
            bound@,
        ),
    decreases bound@, b.stmts@.len() - si, 2int, b.stmts@, 0int,
{
    let ghost blocks = working_set@;
    let n = b.stmts.len();
    if si == n {
        let out: Vec<(Span, FlatShape)> = Vec::new();
        proof {
            assert(b.stmts@.subrange(si as int, b.stmts@.len() as int).len() == 0);
            assert(out@ =~= flat_exprs(
                blocks,
                stmts_exprs(b.stmts@.subrange(si as int, b.stmts@.len() as int)),
                bound@,
            ));
        }
        return out;
    }
    let ghost ss = b.stmts@.subrange(si as int, b.stmts@.len() as int);
    proof {
        assert(ss[0] == b.stmts@[si as int]);
        assert(ss.drop_first() =~= b.stmts@.subrange(si as int + 1, b.stmts@.len() as int));
        lemma_exprs_ids_below(stmts_exprs(ss), bound@);
        lemma_flat_exprs_append(blocks, stmt_exprs(ss[0]), stmts_exprs(ss.drop_first()), bound@);
        crate::ast::lemma_exprs_ids_below_split(
            stmt_exprs(ss[0]),
            stmts_exprs(ss.drop_first()),
            bound@,
        );
    }
    let mut out: Vec<(Span, FlatShape)>;
    match &b.stmts[si] {
        Statement::Pipeline(p) => {
            proof {
                assert(stmt_exprs(ss[0]) == p.expressions@);
                assert(p.expressions@.subrange(0, p.expressions@.len() as int) =~= p
                    .expressions@);
            }
            out = flatten_pipe_at(
                working_set,
                p,
                0,
                bound,
                Ghost((b.stmts@.len() - si) as int),
            );
        },
        Statement::Declaration(_) => {
            out = Vec::new();
            proof {
                assert(stmt_exprs(ss[0]).len() == 0);
                assert(out@ =~= flat_exprs(blocks, stmt_exprs(ss[0]), bound@));
            }
        },
    }
    let mut rest = flatten_stmts_at(working_set, b, si + 1, bound);
    out.append(&mut rest);
    out
}

/// Flattens the stages of a pipeline from index `ei` on. The ghost
/// `rem` carries how many statements of the enclosing block remain; it
/// only serves the termination measure.
fn flatten_pipe_at(
    working_set: &StateWorkingSet,
    p: &Pipeline,
    ei: usize,
    bound: Ghost<int>,
    rem: Ghost<int>,
) -> (r: Vec<(Span, FlatShape)>)
    requires
        working_set.wf(),
        0 <= bound@ <= working_set@.len(),
        ei <= p.expressions@.len(),
        exprs_ids_below(p.expressions@.subrange(ei as int, p.expressions@.len() as int), bound@),
        rem@ >= 1,
    ensures
        r@ == flat_exprs(
            working_set@,
            p.expressions@.subrange(ei as int, p.expressions@.len() as int),
            bound@,
        ),
    decreases bound@, rem@, 1int, p.expressions@, p.expressions@.len() - ei,
{
    let ghost blocks = working_set@;
    let n = p.expressions.len();
    if ei == n {
        let out: Vec<(Span, FlatShape)> = Vec::new();
        proof {
            assert(p.expressions@.subrange(ei as int, p.expressions@.len() as int).len() == 0);
            assert(out@ =~= flat_exprs(
                blocks,
                p.expressions@.subrange(ei as int, p.expressions@.len() as int),
                bound@,
            ));
        }
        return out;
    }
    let ghost es = p.expressions@.subrange(ei as int, p.expressions@.len() as int);
    proof {
        assert(es[0] == p.expressions@[ei as int]);
        assert(es.drop_first() =~= p.expressions@.subrange(
            ei as int + 1,
            p.expressions@.len() as int,
        ));
        lemma_exprs_ids_below(es, bound@);
        lemma_exprs_ids_below(es.drop_first(), bound@);
        assert forall|k: int| 0 <= k < es.drop_first().len() implies expr_ids_below(
            #[trigger] es.drop_first()[k],
            bound@,
        ) by {
            assert(es.drop_first()[k] == es[k + 1]);
        }
    }
    let mut out = flatten_expression_at(working_set, &p.expressions[ei], bound);
    let mut rest = flatten_pipe_at(working_set, p, ei + 1, bound, rem);
    out.append(&mut rest);
    out
}

/// Flattens a whole block: every pipeline stage of every statement, in
/// source order.
pub fn flatten_block(working_set: &StateWorkingSet, block: &Block) -> (r: Vec<(Span, FlatShape)>)
    requires
        working_set.wf(),
        crate::ast::block_ids_below(*block, working_set@.len() as int),
    ensures
        r@ == flat_block(working_set@, *block, working_set@.len() as int),
{
    proof {
        assert(block.stmts@.subrange(0, block.stmts@.len() as int) =~= block.stmts@);
    }
    let out = flatten_stmts_at(working_set, block, 0, Ghost(working_set@.len() as int));
    out
}

/// Flattens one statement: only a pipeline contributes entries.
pub fn flatten_statement(working_set: &StateWorkingSet, stmt: &Statement) -> (r: Vec<
    (Span, FlatShape),
>)
    requires
        working_set.wf(),
        exprs_ids_below(stmt_exprs(*stmt), working_set@.len() as int),
    ensures
        r@ == flat_stmt(working_set@, *stmt, working_set@.len() as int),
{
    match stmt {
        Statement::Pipeline(pipeline) => flatten_pipeline(working_set, pipeline),
        Statement::Declaration(_) => {
            let out: Vec<(Span, FlatShape)> = Vec::new();
            proof {
                assert(stmt_exprs(*stmt).len() == 0);
                assert(out@ =~= flat_stmt(working_set@, *stmt, working_set@.len() as int));
            }
            out
        },
    }
}

/// Flattens one pipeline: its stages, left to right.
pub fn flatten_pipeline(working_set: &StateWorkingSet, pipeline: &Pipeline) -> (r: Vec<
    (Span, FlatShape),
>)
    requires
        working_set.wf(),
        exprs_ids_below(pipeline.expressions@, working_set@.len() as int),
    ensures
        r@ == flat_pipeline(working_set@, *pipeline, working_set@.len() as int),
{
    proof {
        assert(pipeline.expressions@.subrange(0, pipeline.expressions@.len() as int) =~= pipeline
            .expressions@);
    }
    let out = flatten_pipe_at(
        working_set,
        pipeline,
        0,
        Ghost(working_set@.len() as int),
        Ghost(1int),
    );
    out
}

/// Flattens one expression.
pub fn flatten_expression(working_set: &StateWorkingSet, expr: &Expression) -> (r: Vec<
    (Span, FlatShape),
>)
    requires
        working_set.wf(),
        expr_ids_below(*expr, working_set@.len() as int),
    ensures
        r@ == flat_expr(working_set@, *expr, working_set@.len() as int),
{
    flatten_expression_at(working_set, expr, Ghost(working_set@.len() as int))
}

} // verus!
