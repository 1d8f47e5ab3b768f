//! The `split column` command: splits each string of the stream on a
//! separator and spreads the pieces across named columns of a record.

use vstd::prelude::*;

use crate::engine::{Command, EngineState, Example, Stack};
use crate::signature::{Call, Signature, SyntaxShape};
use crate::span::Span;
use crate::split_chars::{mismatch_out, mismatch_value};
use crate::stream::{flat_apply, ItemTransform, PipelineData};
use crate::strutil::{
    column_name, column_name_spec, drop_empty, spec_split, split_string, to_chars, unescape,
    unescape_chars,
};
use crate::value::{clone_error, ShellError, Value, ValueView};

verus! {

#[derive(Debug, Clone)]
pub struct SubCommand;

/// The record one string item becomes: the string is split on the
/// separator, empty pieces are dropped when asked, and the pieces are
/// paired with the given column names — or with generated ones — index by
/// index. A surplus of pieces or of names is silently ignored, as the
/// zipping discipline has always done.
pub open spec fn record_for(
    val: Seq<char>,
    sep: Seq<char>,
    rest: Seq<Seq<char>>,
    collapse: bool,
    head: Span,
) -> ValueView {
    let parts0 = spec_split(val, sep);
    let parts = if collapse {
        drop_empty(parts0)
    } else {
        parts0
    };
    let names = if rest.len() == 0 {
        Seq::new(parts.len(), |i: int| column_name_spec(i + 1))
    } else {
        rest
    };
    let k = if parts.len() <= names.len() {
        parts.len() as int
    } else {
        names.len() as int
    };
    ValueView::Record {
        cols: names.subrange(0, k),
        vals: Seq::new(k as nat, |i: int| ValueView::String { val: parts[i], span: head }),
        span: head,
    }
}

/// What `split column` makes of one stream item: a string becomes one
/// record; an error flows through verbatim; anything else becomes a
/// single shape-mismatch error. One bad item never stops the stream.
pub open spec fn split_column_out(
    v: ValueView,
    sep: Seq<char>,
    rest: Seq<Seq<char>>,
    collapse: bool,
    head: Span,
) -> Seq<ValueView> {
    match v {
        ValueView::String { val, span } => seq![record_for(val, sep, rest, collapse, head)],
        ValueView::Error { error } => seq![ValueView::Error { error }],
        ValueView::Bool { val, span } => mismatch_out(head, span),
        ValueView::Int { val, span } => mismatch_out(head, span),
        ValueView::Float { bits, span } => mismatch_out(head, span),
        ValueView::List { vals, span } => mismatch_out(head, span),
        ValueView::Record { cols, vals, span } => mismatch_out(head, span),
    }
}

/// What the whole stream maps to, item by item, in order.
pub open spec fn split_column_all(
    vs: Seq<ValueView>,
    sep: Seq<char>,
    rest: Seq<Seq<char>>,
    collapse: bool,
    head: Span,
) -> Seq<ValueView>
    decreases vs.len(),
{
    if vs.len() == 0 {
        Seq::empty()
    } else {
        split_column_out(vs[0], sep, rest, collapse, head) + split_column_all(
            vs.drop_first(),
            sep,
            rest,
            collapse,
            head,
        )
    }
}

/// The per-item work of `split column`: the unescaped separator, the
/// column names given on the command line, the collapse switch and the
/// call's head span.
pub struct SplitColumnTransform {
    pub separator: Vec<char>,
    pub rest: Vec<String>,
    pub collapse_empty: bool,
    pub head: Span,
}

impl ItemTransform for SplitColumnTransform {
    open spec fn spec_apply(&self, v: ValueView) -> Seq<ValueView> {
        split_column_out(v, self.separator@, self.rest.deep_view(), self.collapse_empty, self.head)
    }

    fn apply(&self, v: &Value) -> (r: Vec<Value>) {
        split_column_helper(v, &self.separator, &self.rest, self.collapse_empty, self.head)
    }
}

/// Applying the transform over a stream is the itemwise map.
pub proof fn lemma_split_column_all(t: SplitColumnTransform, vs: Seq<ValueView>)
    ensures
        flat_apply(t, vs) == split_column_all(
            vs,
            t.separator@,
            t.rest.deep_view(),
            t.collapse_empty,
            t.head,
        ),
    decreases vs.len(),
{
    if vs.len() > 0 {
        lemma_split_column_all(t, vs.drop_first());
    }
}


/// Every record the column split builds satisfies the record invariant:
/// its column names and its column values pair one to one.
pub proof fn lemma_record_for_wf(
    val: Seq<char>,
    sep: Seq<char>,
    rest: Seq<Seq<char>>,
    collapse: bool,
    head: Span,
)
    ensures
        crate::value::value_wf(record_for(val, sep, rest, collapse, head)),
{
    let r = record_for(val, sep, rest, collapse, head);
    let vals = r->Record_vals;
    crate::value::lemma_value_wf_seq(vals);
    assert forall|i: int| 0 <= i < vals.len() implies crate::value::value_wf(
        #[trigger] vals[i],
    ) by {
        assert(vals[i] matches ValueView::String { .. });
    }
    crate::value::lemma_record_wf(r->Record_cols, vals, head);
}

/// Keeps the nonempty strings, in order.
#[verifier::loop_isolation(false)]
fn filter_empty(parts: Vec<String>) -> (r: Vec<String>)
    ensures
        r.deep_view() == drop_empty(parts.deep_view()),
{
    let mut out: Vec<String> = Vec::new();
    let mut i: usize = 0;
    let ghost all = parts.deep_view();
    proof {
        assert(all.subrange(0, all.len() as int) =~= all);
        assert(out.deep_view() =~= Seq::<Seq<char>>::empty());
        assert(Seq::<Seq<char>>::empty() + drop_empty(all) =~= drop_empty(all));
    }
    while i < parts.len()
        invariant
            i <= parts@.len(),
            all == parts.deep_view(),
            drop_empty(all) == out.deep_view() + drop_empty(
                all.subrange(i as int, all.len() as int),
            ),
        decreases parts@.len() - i,
    {
        let ghost suffix = all.subrange(i as int, all.len() as int);
        let ghost old_deep = out.deep_view();
        proof {
            assert(suffix[0] == all[i as int]);
            assert(suffix.drop_first() =~= all.subrange(i as int + 1, all.len() as int));
        }
        if !parts[i].as_str().is_empty() {
            let piece = parts[i].clone();
            out.push(piece);
            proof {
                assert(out.deep_view() =~= old_deep + seq![all[i as int]]);
                assert(old_deep + (seq![all[i as int]] + drop_empty(suffix.drop_first())) =~= (
                old_deep + seq![all[i as int]]) + drop_empty(suffix.drop_first()));
            }
        }
        i = i + 1;
    }
    proof {
        assert(all.subrange(i as int, all.len() as int).len() == 0);
        assert(out.deep_view() + drop_empty(all.subrange(i as int, all.len() as int)) =~= out
            .deep_view());
    }
    out
}

/// Splits one value into its record, or into the single error value that
/// stands for it in the stream.
#[verifier::loop_isolation(false)]
pub fn split_column_helper(
    v: &Value,
    separator: &Vec<char>,
    rest: &Vec<String>,
    collapse_empty: bool,
    head: Span,
) -> (r: Vec<Value>)
    ensures
        r.deep_view() == split_column_out(
            v.deep_view(),
            separator@,
            rest.deep_view(),
            collapse_empty,
            head,
        ),
{
    match v {
        Value::String { val, span } => {
            let parts_raw = split_string(val, separator);
            proof {
                assert(parts_raw.deep_view() == spec_split(val@, separator@));
            }
            let parts: Vec<String> = if collapse_empty {
                filter_empty(parts_raw)
            } else {
                parts_raw
            };
            let ghost pspec = if collapse_empty {
                drop_empty(spec_split(val@, separator@))
            } else {
                spec_split(val@, separator@)
            };
            proof {
                assert(parts.deep_view() == pspec);
            }
            let mut cols: Vec<String> = Vec::new();
            let mut vals: Vec<Value> = Vec::new();
            let k: usize = if rest.len() == 0 {
                parts.len()
            } else if parts.len() <= rest.len() {
                parts.len()
            } else {
                rest.len()
            };
            let gen = rest.len() == 0;
            let mut j: usize = 0;
            while j < k
                invariant
                    j <= k,
                    parts.deep_view() == pspec,
                    gen == (rest@.len() == 0),
                    gen ==> k == pspec.len(),
                    !gen ==> k == (if pspec.len() <= rest.deep_view().len() {
                        pspec.len() as int
                    } else {
                        rest.deep_view().len() as int
                    }),
                    k <= pspec.len(),
                    cols@.len() == j,
                    vals@.len() == j,
                    forall|m: int|
                        0 <= m < j ==> (#[trigger] cols@[m])@ == (if gen {
                            column_name_spec(m + 1)
                        } else {
                            rest.deep_view()[m]
                        }),
                    forall|m: int|
                        0 <= m < j ==> crate::value::vview(#[trigger] vals@[m])
                            == (ValueView::String { val: pspec[m], span: head }),
                decreases k - j,
            {
                if gen {
                    cols.push(column_name(j + 1));
                } else {
                    cols.push(rest[j].clone());
                }
                vals.push(Value::String { val: parts[j].clone(), span: head });
                proof {
                    assert(parts.deep_view()[j as int] == parts@[j as int].deep_view());
                }
                j = j + 1;
            }
            let rec = Value::Record { cols, vals, span: head };
            let mut out: Vec<Value> = Vec::new();
            out.push(rec);
            proof {
                crate::value::lemma_vview_seq(out@[0]->Record_vals@);
                let target = record_for(val@, separator@, rest.deep_view(), collapse_empty, head);
                let names = if rest.deep_view().len() == 0 {
                    Seq::new(pspec.len(), |i: int| column_name_spec(i + 1))
                } else {
                    rest.deep_view()
                };
                assert(Seq::new(out@[0]->Record_cols@.len(), |i: int| out@[0]->Record_cols@[i]@)
                    =~= names.subrange(0, k as int));
                assert(crate::value::vview_seq(out@[0]->Record_vals@) =~= Seq::new(
                    k as nat,
                    |i: int| ValueView::String { val: pspec[i], span: head },
                ));
                assert(out@[0].deep_view() == target);
                assert(out.deep_view() =~= seq![target]);
            }
            out
        },
        Value::Error { error } => {
            let mut out: Vec<Value> = Vec::new();
            out.push(Value::Error { error: clone_error(error) });
            proof {
                assert(out.deep_view() =~= split_column_out(
                    v.deep_view(),
                    separator@,
                    rest.deep_view(),
                    collapse_empty,
                    head,
                ));
            }
            out
        },
        Value::Bool { val, span } => mismatch_value(head, *span),
        Value::Int { val, span } => mismatch_value(head, *span),
        Value::Float { bits, span } => mismatch_value(head, *span),
        Value::List { vals, span } => mismatch_value(head, *span),
        Value::Record { cols, vals, span } => mismatch_value(head, *span),
    }
}

impl Command for SubCommand {
    fn name(&self) -> (r: String)
        ensures
            r@ == "split column"@,
    {
        String::from_str("split column")
    }

    fn signature(&self) -> (r: Signature)
        ensures
            r@.name == "split column"@,
            r@.usage == Seq::<char>::empty(),
            r@.required == seq![
                crate::signature::PositionalArgView {
                    name: "separator"@,
                    shape: SyntaxShape::String,
                    desc: "the character that denotes what separates columns"@,
                },
            ],
            r@.optional == Seq::<crate::signature::PositionalArgView>::empty(),
            r@.rest == Some(
                crate::signature::PositionalArgView {
                    name: "rest"@,
                    shape: SyntaxShape::String,
                    desc: "column names to give the new columns"@,
                },
            ),
            r@.named == seq![
                crate::signature::FlagView {
                    long: "collapse-empty"@,
                    short: Some('c'),
                    desc: "remove empty columns"@,
                },
            ],
    {
        let r = Signature::build("split column").required(
            "separator",
            SyntaxShape::String,
            "the character that denotes what separates columns",
        ).switch("collapse-empty", "remove empty columns", Some('c')).rest(
            "rest",
            SyntaxShape::String,
            "column names to give the new columns",
        );
        proof {
            assert(r@.required =~= seq![
                crate::signature::PositionalArgView {
                    name: "separator"@,
                    shape: SyntaxShape::String,
                    desc: "the character that denotes what separates columns"@,
                },
            ]);
            assert(r@.named =~= seq![
                crate::signature::FlagView {
                    long: "collapse-empty"@,
                    short: Some('c'),
                    desc: "remove empty columns"@,
                },
            ]);
        }
        r
    }

    fn usage(&self) -> (r: String)
        ensures
            r@ == "splits contents across multiple columns via the separator."@,
    {
        String::from_str("splits contents across multiple columns via the separator.")
    }

    fn examples(&self) -> (r: Vec<Example>)
        ensures
            r@.len() == 0,
    {
        Vec::new()
    }

    fn run(
        &self,
        engine_state: &EngineState,
        stack: &mut Stack,
        call: &Call,
        input: PipelineData,
    ) -> (r: Result<PipelineData, ShellError>)
        ensures
            r is Ok <==> (call@.positional.len() >= 1 && (forall|j: int|
                0 <= j < call@.positional.len() ==> (#[trigger] call@.positional[j]) matches
                    ValueView::String { .. })),
            r matches Ok(out) ==> {
                &&& engine_state.ctrlc.triggered ==> out@ == Seq::<ValueView>::empty()
                &&& !engine_state.ctrlc.triggered ==> out@ == split_column_all(
                    input@,
                    unescape(call@.positional[0]->String_val),
                    rest_names(call@),
                    has_collapse(call@),
                    call.head,
                )
            },
    {
        split_column(engine_state, stack, call, input)
    }
}

/// The column names a call hands the transform: every bound positional
/// after the separator, as plain strings.
pub open spec fn rest_names(c: crate::signature::CallView) -> Seq<Seq<char>> {
    Seq::new(
        (c.positional.len() - 1) as nat,
        |j: int| c.positional[j + 1]->String_val,
    )
}

/// Whether the collapse switch was given.
pub open spec fn has_collapse(c: crate::signature::CallView) -> bool {
    exists|i: int| 0 <= i < c.named.len() && (#[trigger] c.named[i]).0 == "collapse-empty"@
}

/// Runs the stream through the column split. The separator is the call's
/// first bound positional with its newline escapes unescaped; the column
/// names are the remaining positionals; the switch collapses empty
/// pieces. A call whose positionals are not all strings is refused
/// before any work.
#[verifier::loop_isolation(false)]
pub fn split_column(
    engine_state: &EngineState,
    stack: &mut Stack,
    call: &Call,
    input: PipelineData,
) -> (r: Result<PipelineData, ShellError>)
    ensures
        r is Ok <==> (call@.positional.len() >= 1 && (forall|j: int|
            0 <= j < call@.positional.len() ==> (#[trigger] call@.positional[j]) matches
                ValueView::String { .. })),
        r matches Ok(out) ==> {
            &&& engine_state.ctrlc.triggered ==> out@ == Seq::<ValueView>::empty()
            &&& !engine_state.ctrlc.triggered ==> out@ == split_column_all(
                input@,
                unescape(call@.positional[0]->String_val),
                rest_names(call@),
                has_collapse(call@),
                call.head,
            )
        },
{
    let name_span = call.head;
    let separator = match call.req_string(0) {
        Ok(s) => s,
        Err(e) => {
            return Err(e);
        },
    };
    let rest_spanned = match call.rest_strings(1) {
        Ok(r) => r,
        Err(e) => {
            return Err(e);
        },
    };
    let mut rest: Vec<String> = Vec::new();
    let mut j: usize = 0;
    while j < rest_spanned.len()
        invariant
            j <= rest_spanned@.len(),
            rest@.len() == j,
            forall|m: int| 0 <= m < j ==> (#[trigger] rest@[m])@ == rest_spanned@[m].item@,
        decreases rest_spanned@.len() - j,
    {
        rest.push(rest_spanned[j].item.clone());
        j = j + 1;
    }
    let collapse_empty = call.has_flag("collapse-empty");
    let sep_raw = to_chars(separator.item.as_str());
    let sep_chars = unescape_chars(&sep_raw);
    let t = SplitColumnTransform {
        separator: sep_chars,
        rest,
        collapse_empty,
        head: name_span,
    };
    let ghost gt = t;
    let ghost gin = input@;
    proof {
        assert(gt.rest.deep_view() =~= rest_names(call@));
        assert(gt.separator@ == unescape(call@.positional[0]->String_val));
    }
    let out = input.flat_map(t, &engine_state.ctrlc);
    proof {
        lemma_split_column_all(gt, gin);
    }
    Ok(out)
}

} // verus!
