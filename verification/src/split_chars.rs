//! The `split chars` command: splits each string of the stream into one
//! row per character.

use vstd::prelude::*;

use crate::engine::{Command, EngineState, Example, Stack};
use crate::signature::{Call, Signature};
use crate::span::Span;
use crate::stream::{flat_apply, ItemTransform, PipelineData};
use crate::value::{clone_error, ErrorView, ShellError, Type, Value, ValueView};

verus! {

#[derive(Debug, Clone)]
pub struct SubCommand;

/// One shape-mismatch error value: the stream wanted a string, the item
/// at `origin` was something else.
pub open spec fn mismatch_out(expected_span: Span, origin: Span) -> Seq<ValueView> {
    seq![
        ValueView::Error {
            error: ErrorView::PipelineMismatch { expected: Type::String, expected_span, origin },
        },
    ]
}

/// What `split chars` makes of one stream item: a string becomes one
/// string value per character, at the item's own span; an error flows
/// through verbatim; anything else becomes a single shape-mismatch error
/// citing the call's head and the item's span. One bad item never stops
/// the stream.
pub open spec fn split_chars_out(v: ValueView, head: Span) -> Seq<ValueView> {
    match v {
        ValueView::String { val, span } => Seq::new(
            val.len(),
            |i: int| ValueView::String { val: val.subrange(i, i + 1), span },
        ),
        ValueView::Error { error } => seq![ValueView::Error { error }],
        ValueView::Bool { val, span } => mismatch_out(head, span),
        ValueView::Int { val, span } => mismatch_out(head, span),
        ValueView::Float { bits, span } => mismatch_out(head, span),
        ValueView::List { vals, span } => mismatch_out(head, span),
        ValueView::Record { cols, vals, span } => mismatch_out(head, span),
    }
}

/// The per-item work of `split chars`, carrying the call's head span for
/// error reporting.
pub struct SplitCharsTransform {
    pub head: Span,
}

impl ItemTransform for SplitCharsTransform {
    open spec fn spec_apply(&self, v: ValueView) -> Seq<ValueView> {
        split_chars_out(v, self.head)
    }

    fn apply(&self, v: &Value) -> (r: Vec<Value>) {
        split_chars_helper(v, self.head)
    }
}

/// Splits one value into its character rows, or into the single error
/// value that stands for it in the stream.
#[verifier::loop_isolation(false)]
pub fn split_chars_helper(v: &Value, name: Span) -> (r: Vec<Value>)
    ensures
        r.deep_view() == split_chars_out(v.deep_view(), name),
{
    match v {
        Value::String { val, span } => {
            let s = val.as_str();
            let n = s.unicode_len();
            let mut out: Vec<Value> = Vec::new();
            let mut i: usize = 0;
            while i < n
                invariant
                    i <= n,
                    out.deep_view() =~= Seq::new(
                        i as nat,
                        |k: int| ValueView::String { val: val@.subrange(k, k + 1), span: *span },
                    ),
                decreases n - i,
            {
                let ghost old_deep = out.deep_view();
                let ghost old_vals = out@;
                let piece = String::from_str(s.substring_char(i, i + 1));
                let ghost gpiece = piece@;
                proof {
                    assert(gpiece == val@.subrange(i as int, i as int + 1));
                }
                out.push(Value::String { val: piece, span: *span });
                proof {
                    assert(out@.len() == i + 1);
                    assert(out.deep_view()[i as int] == out@[i as int].deep_view());
                    assert(out@[i as int].deep_view() == (ValueView::String {
                        val: gpiece,
                        span: *span,
                    }));
                    assert forall|k: int| 0 <= k < i + 1 implies out.deep_view()[k]
                        == (ValueView::String {
                        val: val@.subrange(k, k + 1),
                        span: *span,
                    }) by {
                        assert(out.deep_view()[k] == out@[k].deep_view());
                        if k < i {
                            assert(out@[k] == old_vals[k]);
                            assert(old_deep[k] == old_vals[k].deep_view());
                            assert(old_deep[k] == (ValueView::String {
                                val: val@.subrange(k, k + 1),
                                span: *span,
                            }));
                        }
                    }
                    assert(out.deep_view() =~= Seq::new(
                        i as nat + 1,
                        |k: int| ValueView::String { val: val@.subrange(k, k + 1), span: *span },
                    ));
                }
                i = i + 1;
            }
            out
        },
        Value::Error { error } => {
            let mut out: Vec<Value> = Vec::new();
            out.push(Value::Error { error: clone_error(error) });
            proof {
                assert(out.deep_view() =~= split_chars_out(v.deep_view(), name));
            }
            out
        },
        Value::Bool { val, span } => mismatch_value(name, *span),
        Value::Int { val, span } => mismatch_value(name, *span),
        Value::Float { bits, span } => mismatch_value(name, *span),
        Value::List { vals, span } => mismatch_value(name, *span),
        Value::Record { cols, vals, span } => mismatch_value(name, *span),
    }
}

/// Builds the single mismatch error value for an item of the wrong shape.
pub fn mismatch_value(expected_span: Span, origin: Span) -> (r: Vec<Value>)
    ensures
        r.deep_view() == mismatch_out(expected_span, origin),
{
    let mut out: Vec<Value> = Vec::new();
    out.push(
        Value::Error {
            error: ShellError::PipelineMismatch { expected: Type::String, expected_span, origin },
        },
    );
    proof {
        assert(out.deep_view() =~= mismatch_out(expected_span, origin));
    }
    out
}

impl Command for SubCommand {
    fn name(&self) -> (r: String)
        ensures
            r@ == "split chars"@,
    {
        String::from_str("split chars")
    }

    fn signature(&self) -> (r: Signature)
        ensures
            r@.name == "split chars"@,
            r@.usage == Seq::<char>::empty(),
            r@.required == Seq::<crate::signature::PositionalArgView>::empty(),
            r@.optional == Seq::<crate::signature::PositionalArgView>::empty(),
            r@.rest is None,
            r@.named == Seq::<crate::signature::FlagView>::empty(),
    {
        Signature::build("split chars")
    }

    fn usage(&self) -> (r: String)
        ensures
            r@ == "splits a string's characters into separate rows"@,
    {
        String::from_str("splits a string's characters into separate rows")
    }

    fn examples(&self) -> (r: Vec<Example>)
        ensures
            r@.len() == 1,
            r@[0]@.description == "Split the string's characters into separate rows"@,
            r@[0]@.example == "'hello' | split chars"@,
            r@[0]@.result matches Some(v) && v == (ValueView::List {
                vals: seq![
                    ValueView::String { val: "h"@, span: Span { start: 0, end: 0 } },
                    ValueView::String { val: "e"@, span: Span { start: 0, end: 0 } },
                    ValueView::String { val: "l"@, span: Span { start: 0, end: 0 } },
                    ValueView::String { val: "l"@, span: Span { start: 0, end: 0 } },
                    ValueView::String { val: "o"@, span: Span { start: 0, end: 0 } },
                ],
                span: Span { start: 0, end: 0 },
            }),
    {
        let mut vals: Vec<Value> = Vec::new();
        vals.push(Value::test_string("h"));
        vals.push(Value::test_string("e"));
        vals.push(Value::test_string("l"));
        vals.push(Value::test_string("l"));
        vals.push(Value::test_string("o"));
        let result = Value::List { vals, span: Span::unknown() };
        proof {
            crate::value::lemma_vview_seq(result->List_vals@);
            assert(result->List_vals@.len() == 5);
            assert(crate::value::vview_seq(result->List_vals@)[0] == crate::value::vview(
                result->List_vals@[0],
            ));
            assert(crate::value::vview_seq(result->List_vals@)[1] == crate::value::vview(
                result->List_vals@[1],
            ));
            assert(crate::value::vview_seq(result->List_vals@)[2] == crate::value::vview(
                result->List_vals@[2],
            ));
            assert(crate::value::vview_seq(result->List_vals@)[3] == crate::value::vview(
                result->List_vals@[3],
            ));
            assert(crate::value::vview_seq(result->List_vals@)[4] == crate::value::vview(
                result->List_vals@[4],
            ));
            assert(crate::value::vview(result->List_vals@[0]) == (ValueView::String {
                val: "h"@,
                span: Span { start: 0, end: 0 },
            }));
            assert(crate::value::vview(result->List_vals@[1]) == (ValueView::String {
                val: "e"@,
                span: Span { start: 0, end: 0 },
            }));
            assert(crate::value::vview(result->List_vals@[2]) == (ValueView::String {
                val: "l"@,
                span: Span { start: 0, end: 0 },
            }));
            assert(crate::value::vview(result->List_vals@[3]) == (ValueView::String {
                val: "l"@,
                span: Span { start: 0, end: 0 },
            }));
            assert(crate::value::vview(result->List_vals@[4]) == (ValueView::String {
                val: "o"@,
                span: Span { start: 0, end: 0 },
            }));
            assert(result->List_span == Span { start: 0, end: 0 });
            assert(crate::value::vview_seq(result->List_vals@) =~= seq![
                ValueView::String { val: "h"@, span: Span { start: 0, end: 0 } },
                ValueView::String { val: "e"@, span: Span { start: 0, end: 0 } },
                ValueView::String { val: "l"@, span: Span { start: 0, end: 0 } },
                ValueView::String { val: "l"@, span: Span { start: 0, end: 0 } },
                ValueView::String { val: "o"@, span: Span { start: 0, end: 0 } },
            ]);
            assert(crate::value::vview(result) =~~= (ValueView::List {
                vals: seq![
                    ValueView::String { val: "h"@, span: Span { start: 0, end: 0 } },
                    ValueView::String { val: "e"@, span: Span { start: 0, end: 0 } },
                    ValueView::String { val: "l"@, span: Span { start: 0, end: 0 } },
                    ValueView::String { val: "l"@, span: Span { start: 0, end: 0 } },
                    ValueView::String { val: "o"@, span: Span { start: 0, end: 0 } },
                ],
                span: Span { start: 0, end: 0 },
            }));
        }
        let mut out: Vec<Example> = Vec::new();
        out.push(
            Example {
                description: String::from_str(
                    "Split the string's characters into separate rows",
                ),
                example: String::from_str("'hello' | split chars"),
                result: Some(result),
            },
        );
        out
    }

    fn run(
        &self,
        engine_state: &EngineState,
        stack: &mut Stack,
        call: &Call,
        input: PipelineData,
    ) -> (r: Result<PipelineData, ShellError>)
        ensures
            r is Ok,
            r matches Ok(out) ==> {
                &&& engine_state.ctrlc.triggered ==> out@ == Seq::<ValueView>::empty()
                &&& !engine_state.ctrlc.triggered ==> out@ == flat_apply(
                    SplitCharsTransform { head: call.head },
                    input@,
                )
            },
    {
        split_chars(engine_state, call, input)
    }
}

/// Runs the stream through the per-character split. The cancellation
/// signal is read between items; when it is already set nothing is
/// pulled.
pub fn split_chars(engine_state: &EngineState, call: &Call, input: PipelineData) -> (r: Result<
    PipelineData,
    ShellError,
>)
    ensures
        r matches Ok(out) ==> {
            &&& engine_state.ctrlc.triggered ==> out@ == Seq::<ValueView>::empty()
            &&& !engine_state.ctrlc.triggered ==> out@ == flat_apply(
                SplitCharsTransform { head: call.head },
                input@,
            )
        },
        r is Ok,
{
    let span = call.head;
    Ok(input.flat_map(SplitCharsTransform { head: span }, &engine_state.ctrlc))
}

} // verus!
