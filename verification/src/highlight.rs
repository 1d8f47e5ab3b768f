//! Syntax highlighting: a speculative parse of live input, flattened into
//! classified source ranges. The committed parser state is never touched,
//! so throwaway input leaves no residue.

use vstd::prelude::*;

use crate::ast::{Expr, Expression};
use crate::flatten::{flat_expr, flatten_block, FlatShape};
use crate::span::Span;
use crate::workingset::{ParserState, StateWorkingSet};

verus! {

/// The classification of a leaf expression: the single entry flattening
/// gives it. Composite and block-shaped expressions classify through
/// their parts instead, and map to no single entry.
pub open spec fn leaf_entry(e: Expression) -> Option<(Span, FlatShape)> {
    match e.expr {
        Expr::Garbage => Some((e.span, FlatShape::Garbage)),
        Expr::Bool(_) => Some((e.span, FlatShape::Bool)),
        Expr::Int(_) => Some((e.span, FlatShape::Int)),
        Expr::Float(_) => Some((e.span, FlatShape::Float)),
        Expr::String(_) => Some((e.span, FlatShape::String)),
        Expr::Var(_) => Some((e.span, FlatShape::Variable)),
        Expr::Operator(_) => Some((e.span, FlatShape::Operator)),
        Expr::Signature(_) => Some((e.span, FlatShape::Signature)),
        Expr::ExternalCall(_, _) => Some((e.span, FlatShape::External)),
        _ => None,
    }
}

/// A leaf expression flattens to exactly its own classification entry,
/// whatever the arena holds.
pub proof fn lemma_leaf_entry_flat(
    blocks: Seq<crate::ast::Block>,
    e: Expression,
    bound: int,
)
    requires
        leaf_entry(e) is Some,
    ensures
        flat_expr(blocks, e, bound) == seq![leaf_entry(e)->0],
{
}

/// The single classification entry of a leaf expression, or nothing for a
/// composite one.
pub fn highlight_expression(expression: &Expression) -> (r: Option<(Span, FlatShape)>)
    ensures
        r == leaf_entry(*expression),
{
    match &expression.expr {
        Expr::Garbage => Some((expression.span, FlatShape::Garbage)),
        Expr::Bool(_) => Some((expression.span, FlatShape::Bool)),
        Expr::Int(_) => Some((expression.span, FlatShape::Int)),
        Expr::Float(_) => Some((expression.span, FlatShape::Float)),
        Expr::String(_) => Some((expression.span, FlatShape::String)),
        Expr::Var(_) => Some((expression.span, FlatShape::Variable)),
        Expr::Operator(_) => Some((expression.span, FlatShape::Operator)),
        Expr::Signature(_) => Some((expression.span, FlatShape::Signature)),
        Expr::ExternalCall(_, _) => Some((expression.span, FlatShape::External)),
        _ => None,
    }
}

/// Parses live input speculatively over the given committed state and
/// classifies it for display. The parse is speculative: nothing of it is
/// merged, the scratch working set is dropped on the way out. The result
/// is the flattening of a parsed block over an arena that extends the
/// committed state, with one pipeline statement per non-blank statement
/// segment of the input.
pub fn syntax_highlight(parser_state: ParserState, input: &str) -> (r: Vec<(Span, FlatShape)>)
    requires
        parser_state.wf(),
        input@.len() <= u32::MAX,
        parser_state@.len() + input@.len() <= usize::MAX,
    ensures
        exists|blocks: Seq<crate::ast::Block>, b: crate::ast::Block|
            {
                &&& blocks.len() >= parser_state@.len()
                &&& blocks.subrange(0, parser_state@.len() as int) == parser_state@
                &&& crate::workingset::arena_wf(blocks)
                &&& crate::ast::block_ids_below(b, blocks.len() as int)
                &&& b.stmts@.len() == crate::workingset::spec_stmt_count(
                    input@,
                    0,
                    input@.len() as int,
                )
                &&& forall|i: int|
                    0 <= i < b.stmts@.len() ==> ((#[trigger] b.stmts@[i]) matches
                        crate::ast::Statement::Pipeline(p) && p.expressions@.len() >= 1)
                &&& crate::ast::block_spans_below(b, input@.len() as int)
                &&& r@ == #[trigger] crate::flatten::flat_block(blocks, b, blocks.len() as int)
            },
{
    let ghost base = parser_state@;
    let mut working_set = StateWorkingSet::new(parser_state);
    let parsed = working_set.parse_source(input, true);
    let block = parsed.0;
    let r = flatten_block(&working_set, &block);
    proof {
        assert(working_set@.subrange(0, base.len() as int) =~= base);
        assert(r@ == crate::flatten::flat_block(
            working_set@,
            block,
            working_set@.len() as int,
        ));
    }
    r
}

} // verus!
