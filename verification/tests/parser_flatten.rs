//! Tests of the syntax tree, the working set's speculative/committed
//! discipline, the parser, and the flatten engine's classification.

use nu_core::ast::{Block, Call, Expr, Expression, Operator, Pipeline, Statement};
use nu_core::flatten::{
    flatten_block, flatten_expression, flatten_pipeline, flatten_statement, FlatShape,
};
use nu_core::highlight::{highlight_expression, syntax_highlight};
use nu_core::signature::Signature;
use nu_core::span::Span;
use nu_core::workingset::{ParserState, StateWorkingSet};

fn leaf(expr: Expr, a: u32, b: u32) -> Expression {
    Expression { expr, span: Span::new(a, b) }
}

fn int_block() -> Block {
    Block {
        stmts: vec![Statement::Pipeline(Pipeline {
            expressions: vec![leaf(Expr::Int(7), 0, 1)],
        })],
    }
}

fn empty_ws() -> StateWorkingSet {
    StateWorkingSet::new(ParserState::new())
}

#[test]
fn every_variant_yields_an_entry() {
    // One committed block, so block references resolve.
    let mut ws = empty_ws();
    ws.add_block(int_block());
    let cases: Vec<(Expression, FlatShape)> = vec![
        (leaf(Expr::Garbage, 0, 1), FlatShape::Garbage),
        (leaf(Expr::Bool(true), 0, 1), FlatShape::Bool),
        (leaf(Expr::Int(3), 0, 1), FlatShape::Int),
        (leaf(Expr::Float(0), 0, 1), FlatShape::Float),
        (leaf(Expr::String("x".to_string()), 0, 1), FlatShape::String),
        (leaf(Expr::Var(0), 0, 1), FlatShape::Variable),
        (leaf(Expr::Operator(Operator::Plus), 0, 1), FlatShape::Operator),
        (
            leaf(Expr::Signature(Box::new(Signature::build("s"))), 0, 1),
            FlatShape::Signature,
        ),
        (leaf(Expr::ExternalCall(vec![b'x'], Vec::new()), 0, 1), FlatShape::External),
    ];
    for (e, shape) in cases {
        let out = flatten_expression(&ws, &e);
        assert_eq!(out, vec![(Span::new(0, 1), shape)]);
        assert_eq!(highlight_expression(&e), Some((Span::new(0, 1), shape)));
    }
    // Composite forms yield at least one entry too.
    let bin = leaf(
        Expr::BinaryOp(
            Box::new(leaf(Expr::Int(1), 0, 1)),
            Box::new(leaf(Expr::Operator(Operator::Plus), 2, 3)),
            Box::new(leaf(Expr::Int(2), 4, 5)),
        ),
        0,
        5,
    );
    assert!(flatten_expression(&ws, &bin).len() >= 1);
    let list = leaf(Expr::List(vec![leaf(Expr::Int(1), 1, 2)]), 0, 3);
    assert!(flatten_expression(&ws, &list).len() >= 1);
    let table = leaf(
        Expr::Table(vec![leaf(Expr::String("h".to_string()), 1, 2)], vec![vec![leaf(
            Expr::Int(1),
            3,
            4,
        )]]),
        0,
        5,
    );
    let tout = flatten_expression(&ws, &table);
    assert_eq!(
        tout,
        vec![(Span::new(1, 2), FlatShape::String), (Span::new(3, 4), FlatShape::Int)]
    );
    let kw = leaf(
        Expr::Keyword(vec![b'i', b'n'], Span::new(0, 2), Box::new(leaf(Expr::Int(1), 3, 4))),
        0,
        4,
    );
    assert_eq!(
        flatten_expression(&ws, &kw),
        vec![(Span::new(0, 2), FlatShape::Operator), (Span::new(3, 4), FlatShape::Int)]
    );
    let call = leaf(
        Expr::Call(Box::new(Call { head: Span::new(0, 2), positional: vec![leaf(
            Expr::Int(9),
            3,
            4,
        )] })),
        0,
        4,
    );
    assert_eq!(
        flatten_expression(&ws, &call),
        vec![(Span::new(0, 2), FlatShape::InternalCall), (Span::new(3, 4), FlatShape::Int)]
    );
    let blk = leaf(Expr::Block(0), 0, 3);
    assert_eq!(flatten_expression(&ws, &blk), vec![(Span::new(0, 1), FlatShape::Int)]);
    let sub = leaf(Expr::Subexpression(0), 0, 3);
    assert_eq!(flatten_expression(&ws, &sub), vec![(Span::new(0, 1), FlatShape::Int)]);
    // Every entry's span above stays inside the enclosing expression's span.
    for (sp, _) in flatten_expression(&ws, &table) {
        assert!(sp.end <= 5);
    }
}

#[test]
fn binary_op_flattens_left_to_right() {
    let ws = empty_ws();
    let bin = leaf(
        Expr::BinaryOp(
            Box::new(leaf(Expr::Int(1), 0, 1)),
            Box::new(leaf(Expr::Operator(Operator::Plus), 2, 3)),
            Box::new(leaf(Expr::Int(2), 4, 5)),
        ),
        0,
        5,
    );
    assert_eq!(
        flatten_expression(&ws, &bin),
        vec![
            (Span::new(0, 1), FlatShape::Int),
            (Span::new(2, 3), FlatShape::Operator),
            (Span::new(4, 5), FlatShape::Int),
        ]
    );
}

#[test]
fn statement_and_pipeline_flatten_like_their_stages() {
    let ws = empty_ws();
    let p = Pipeline { expressions: vec![leaf(Expr::Int(1), 0, 1), leaf(Expr::Bool(true), 2, 6)] };
    assert_eq!(
        flatten_pipeline(&ws, &p),
        vec![(Span::new(0, 1), FlatShape::Int), (Span::new(2, 6), FlatShape::Bool)]
    );
    let s = Statement::Pipeline(p);
    assert_eq!(flatten_statement(&ws, &s).len(), 2);
    assert_eq!(flatten_statement(&ws, &Statement::Declaration(0)), Vec::new());
}

#[test]
fn speculative_parse_leaves_committed_state_alone() {
    let mut ws = empty_ws();
    ws.add_block(int_block());
    ws.commit();
    let committed = ws.num_blocks();
    // A speculative parse of malformed input, subexpressions included.
    let (block, errors) = ws.parse_source("$oops | (1 + ", true);
    assert!(errors.len() > 0);
    assert!(block.stmts.len() > 0);
    // The committed base is untouched, and the old id resolves unchanged.
    assert_eq!(ws.permanent.blocks.len(), committed);
    assert_eq!(ws.get_block(0), &int_block());
}

#[test]
fn committed_parse_merges_the_delta() {
    let mut ws = empty_ws();
    let (_block, errors) = ws.parse_source("(1 + 2)", false);
    assert_eq!(errors.len(), 0);
    assert_eq!(ws.delta.len(), 0);
    assert_eq!(ws.permanent.blocks.len(), 1);
}

#[test]
fn parse_classifies_a_pipeline() {
    let mut ws = empty_ws();
    let src = "'hello' | split chars";
    let (block, errors) = ws.parse_source(src, true);
    assert_eq!(errors.len(), 0);
    assert_eq!(block.stmts.len(), 1);
    let out = flatten_block(&ws, &block);
    assert_eq!(
        out,
        vec![
            (Span::new(0, 7), FlatShape::String),
            (Span::new(10, 15), FlatShape::InternalCall),
            (Span::new(16, 21), FlatShape::String),
        ]
    );
}

#[test]
fn parse_resolves_subexpressions_through_the_working_set() {
    let mut ws = empty_ws();
    let (block, errors) = ws.parse_source("(1 + 2)", true);
    assert_eq!(errors.len(), 0);
    assert_eq!(ws.num_blocks(), 1);
    let out = flatten_block(&ws, &block);
    assert_eq!(
        out,
        vec![
            (Span::new(1, 2), FlatShape::Int),
            (Span::new(3, 4), FlatShape::Operator),
            (Span::new(5, 6), FlatShape::Int),
        ]
    );
}

#[test]
fn malformed_input_becomes_garbage_not_a_failure() {
    let mut ws = empty_ws();
    let (block, errors) = ws.parse_source("$x", true);
    assert!(errors.len() > 0);
    assert_eq!(block.stmts.len(), 1);
    let out = flatten_block(&ws, &block);
    assert_eq!(out, vec![(Span::new(0, 2), FlatShape::Garbage)]);
}

#[test]
fn parse_splits_statements_and_literals() {
    let mut ws = empty_ws();
    let (block, _errors) = ws.parse_source("1; true\n'a'", true);
    assert_eq!(block.stmts.len(), 3);
    let out = flatten_block(&ws, &block);
    assert_eq!(
        out,
        vec![
            (Span::new(0, 1), FlatShape::Int),
            (Span::new(3, 7), FlatShape::Bool),
            (Span::new(8, 11), FlatShape::String),
        ]
    );
}

#[test]
fn oversized_integer_literal_is_garbage() {
    let mut ws = empty_ws();
    let (block, errors) = ws.parse_source("99999999999999999999999999", true);
    assert!(errors.len() > 0);
    let out = flatten_block(&ws, &block);
    assert_eq!(out[0].1, FlatShape::Garbage);
}

#[test]
fn syntax_highlight_classifies_live_input() {
    let state = ParserState::new();
    let out = syntax_highlight(state, "ls '/tmp' | split chars");
    assert_eq!(out[0], (Span::new(0, 2), FlatShape::InternalCall));
    assert_eq!(out[1], (Span::new(3, 9), FlatShape::String));
    assert_eq!(out[2], (Span::new(12, 17), FlatShape::InternalCall));
}

#[test]
fn blank_and_pipe_only_statements() {
    // Blank segments yield no statement; a segment of pipes alone still
    // yields one (of garbage stages).
    let mut ws = empty_ws();
    let (block, _errors) = ws.parse_source("  ;  \n 1 ", true);
    assert_eq!(block.stmts.len(), 1);
    let mut ws2 = empty_ws();
    let (block2, errors2) = ws2.parse_source(" | ", true);
    assert_eq!(block2.stmts.len(), 1);
    assert!(errors2.len() > 0);
    let out = flatten_block(&ws2, &block2);
    assert!(out.iter().all(|e| e.1 == FlatShape::Garbage));
}

#[test]
fn highlight_expression_classifies_only_leaves() {
    let e = leaf(Expr::List(Vec::new()), 0, 2);
    assert_eq!(highlight_expression(&e), None);
    let g = leaf(Expr::Garbage, 0, 2);
    assert_eq!(highlight_expression(&g), Some((Span::new(0, 2), FlatShape::Garbage)));
}
