//! The streaming value model: a tagged union of structured data, each
//! carrying a span, with in-band errors as first-class stream elements.

use vstd::prelude::*;

use crate::span::Span;

verus! {

/// The runtime type of a value, cited by shape-mismatch errors.
#[derive(Debug, Clone, Copy, PartialEq, Eq, Structural)]
pub enum Type {
    Bool,
    Int,
    Float,
    String,
    List,
    Record,
    Error,
}

/// A structured runtime error. Binding errors cite both the declared
/// parameter and the offending source span; stream errors cite the expected
/// shape, the call's head span and the offending item's own span.
#[derive(Debug, Clone, PartialEq)]
pub enum ShellError {
    PipelineMismatch { expected: Type, expected_span: Span, origin: Span },
    CantConvert { expected: Type, span: Span },
    MissingOrWrongTypeArgument { name: String, span: Span },
    ExtraPositionalArgument { span: Span },
    UnknownFlag { name: String, span: Span },
}

/// The mathematical image of a `ShellError`: strings become `Seq<char>`.
pub ghost enum ErrorView {
    PipelineMismatch { expected: Type, expected_span: Span, origin: Span },
    CantConvert { expected: Type, span: Span },
    MissingOrWrongTypeArgument { name: Seq<char>, span: Span },
    ExtraPositionalArgument { span: Span },
    UnknownFlag { name: Seq<char>, span: Span },
}

impl View for ShellError {
    type V = ErrorView;

    open spec fn view(&self) -> ErrorView {
        match self {
            ShellError::PipelineMismatch { expected, expected_span, origin } => {
                ErrorView::PipelineMismatch {
                    expected: *expected,
                    expected_span: *expected_span,
                    origin: *origin,
                }
            },
            ShellError::CantConvert { expected, span } => {
                ErrorView::CantConvert { expected: *expected, span: *span }
            },
            ShellError::MissingOrWrongTypeArgument { name, span } => {
                ErrorView::MissingOrWrongTypeArgument { name: name@, span: *span }
            },
            ShellError::ExtraPositionalArgument { span } => {
                ErrorView::ExtraPositionalArgument { span: *span }
            },
            ShellError::UnknownFlag { name, span } => {
                ErrorView::UnknownFlag { name: name@, span: *span }
            },
        }
    }
}

impl DeepView for ShellError {
    type V = ErrorView;

    open spec fn deep_view(&self) -> ErrorView {
        self.view()
    }
}

/// A runtime value flowing through a pipeline. An `Error` is a stream
/// element like any other: it flows downstream and is rendered by the
/// consumer, it does not unwind the executor.
///
/// A float is carried as its raw bit pattern: the core never interprets it,
/// it only moves it through the stream.
#[derive(Debug, PartialEq)]
pub enum Value {
    Bool { val: bool, span: Span },
    Int { val: i64, span: Span },
    Float { bits: u64, span: Span },
    String { val: String, span: Span },
    List { vals: Vec<Value>, span: Span },
    Record { cols: Vec<String>, vals: Vec<Value>, span: Span },
    Error { error: ShellError },
}

/// The mathematical image of a `Value`: strings become `Seq<char>`,
/// vectors become `Seq`.
pub ghost enum ValueView {
    Bool { val: bool, span: Span },
    Int { val: i64, span: Span },
    Float { bits: u64, span: Span },
    String { val: Seq<char>, span: Span },
    List { vals: Seq<ValueView>, span: Span },
    Record { cols: Seq<Seq<char>>, vals: Seq<ValueView>, span: Span },
    Error { error: ErrorView },
}

/// Maps a value to its mathematical image, recursively.
pub open spec fn vview(v: Value) -> ValueView
    decreases v, 1int,
{
    match v {
        Value::Bool { val, span } => ValueView::Bool { val, span },
        Value::Int { val, span } => ValueView::Int { val, span },
        Value::Float { bits, span } => ValueView::Float { bits, span },
        Value::String { val, span } => ValueView::String { val: val@, span },
        Value::List { vals, span } => ValueView::List { vals: vview_seq(vals@), span },
        Value::Record { cols, vals, span } => ValueView::Record {
            cols: Seq::new(cols@.len(), |i: int| cols@[i]@),
            vals: vview_seq(vals@),
            span,
        },
        Value::Error { error } => ValueView::Error { error: error@ },
    }
}

/// Maps a sequence of values to their mathematical images, elementwise.
pub open spec fn vview_seq(vs: Seq<Value>) -> Seq<ValueView>
    decreases vs, 0int,
{
    if vs.len() == 0 {
        Seq::empty()
    } else {
        seq![vview(vs[0])] + vview_seq(vs.drop_first())
    }
}

/// `vview_seq` is the elementwise image: same length, same entries.
pub broadcast proof fn lemma_vview_seq(vs: Seq<Value>)
    ensures
        (#[trigger] vview_seq(vs)).len() == vs.len(),
        forall|i: int| 0 <= i < vs.len() ==> vview_seq(vs)[i] == vview(vs[i]),
    decreases vs.len(),
{
    if vs.len() > 0 {
        lemma_vview_seq(vs.drop_first());
        assert forall|i: int| 0 <= i < vs.len() implies vview_seq(vs)[i] == vview(vs[i]) by {
            if i > 0 {
                assert(vview_seq(vs)[i] == vview_seq(vs.drop_first())[i - 1]);
                assert(vs.drop_first()[i - 1] == vs[i]);
            }
        }
    }
}

impl View for Value {
    type V = ValueView;

    open spec fn view(&self) -> ValueView {
        vview(*self)
    }
}

impl DeepView for Value {
    type V = ValueView;

    open spec fn deep_view(&self) -> ValueView {
        vview(*self)
    }
}

/// The structural invariant of the value model: every record pairs its
/// column names and its column values one to one, at every depth.
pub open spec fn value_wf(v: ValueView) -> bool
    decreases v, 1int,
{
    match v {
        ValueView::List { vals, span } => value_wf_seq(vals),
        ValueView::Record { cols, vals, span } => cols.len() == vals.len() && value_wf_seq(vals),
        _ => true,
    }
}

/// The record invariant, over every element of a sequence of values.
pub open spec fn value_wf_seq(vs: Seq<ValueView>) -> bool
    decreases vs, 0int,
{
    if vs.len() == 0 {
        true
    } else {
        value_wf(vs[0]) && value_wf_seq(vs.drop_first())
    }
}

/// `value_wf_seq` holds exactly when every element satisfies the invariant.
pub broadcast proof fn lemma_value_wf_seq(vs: Seq<ValueView>)
    ensures
        #[trigger] value_wf_seq(vs) <==> forall|i: int|
            0 <= i < vs.len() ==> value_wf(#[trigger] vs[i]),
    decreases vs.len(),
{
    if vs.len() > 0 {
        lemma_value_wf_seq(vs.drop_first());
        assert(vs[0] == vs[0]);
        if value_wf(vs[0]) && value_wf_seq(vs.drop_first()) {
            assert forall|i: int| 0 <= i < vs.len() implies value_wf(#[trigger] vs[i]) by {
                if i > 0 {
                    assert(vs.drop_first()[i - 1] == vs[i]);
                    assert(value_wf(vs.drop_first()[i - 1]));
                }
            }
        }
        if forall|i: int| 0 <= i < vs.len() ==> value_wf(#[trigger] vs[i]) {
            assert forall|i: int| 0 <= i < vs.drop_first().len() implies value_wf(
                #[trigger] vs.drop_first()[i],
            ) by {
                assert(vs.drop_first()[i] == vs[i + 1]);
            }
        }
    }
}


/// The record invariant, at construction: matching column counts over
/// well-formed children give a well-formed record.
pub proof fn lemma_record_wf(cols: Seq<Seq<char>>, vals: Seq<ValueView>, span: Span)
    requires
        cols.len() == vals.len(),
        value_wf_seq(vals),
    ensures
        value_wf(ValueView::Record { cols, vals, span }),
{
}

/// The span of a value, or the carried error where the value is itself an
/// error and so has no span of its own.
pub open spec fn spec_span(v: ValueView) -> Result<Span, ErrorView> {
    match v {
        ValueView::Bool { val, span } => Ok(span),
        ValueView::Int { val, span } => Ok(span),
        ValueView::Float { bits, span } => Ok(span),
        ValueView::String { val, span } => Ok(span),
        ValueView::List { vals, span } => Ok(span),
        ValueView::Record { cols, vals, span } => Ok(span),
        ValueView::Error { error } => Err(error),
    }
}

/// A value and its image always have the same variant.
pub proof fn lemma_vview_variant(v: Value)
    ensures
        (vview(v) matches ValueView::Bool { .. }) <==> (v matches Value::Bool { .. }),
        (vview(v) matches ValueView::Int { .. }) <==> (v matches Value::Int { .. }),
        (vview(v) matches ValueView::Float { .. }) <==> (v matches Value::Float { .. }),
        (vview(v) matches ValueView::String { .. }) <==> (v matches Value::String { .. }),
        (vview(v) matches ValueView::List { .. }) <==> (v matches Value::List { .. }),
        (vview(v) matches ValueView::Record { .. }) <==> (v matches Value::Record { .. }),
        (vview(v) matches ValueView::Error { .. }) <==> (v matches Value::Error { .. }),
{
    match v {
        Value::Bool { .. } => {},
        Value::Int { .. } => {},
        Value::Float { .. } => {},
        Value::String { .. } => {},
        Value::List { .. } => {},
        Value::Record { .. } => {},
        Value::Error { .. } => {},
    }
}

/// Copies an error. Written out so the copy is known to carry the same view.
pub fn clone_error(e: &ShellError) -> (r: ShellError)
    ensures
        r@ == e@,
{
    match e {
        ShellError::PipelineMismatch { expected, expected_span, origin } => {
            ShellError::PipelineMismatch {
                expected: *expected,
                expected_span: *expected_span,
                origin: *origin,
            }
        },
        ShellError::CantConvert { expected, span } => {
            ShellError::CantConvert { expected: *expected, span: *span }
        },
        ShellError::MissingOrWrongTypeArgument { name, span } => {
            ShellError::MissingOrWrongTypeArgument { name: name.clone(), span: *span }
        },
        ShellError::ExtraPositionalArgument { span } => {
            ShellError::ExtraPositionalArgument { span: *span }
        },
        ShellError::UnknownFlag { name, span } => {
            ShellError::UnknownFlag { name: name.clone(), span: *span }
        },
    }
}

impl Value {
    /// A string value.
    pub fn string(val: String, span: Span) -> (r: Value)
        ensures
            r@ == (ValueView::String { val: val@, span }),
    {
        Value::String { val, span }
    }

    /// A string value at the unknown span, as examples synthesize them.
    pub fn test_string(s: &str) -> (r: Value)
        ensures
            r@ == (ValueView::String { val: s@, span: Span { start: 0, end: 0 } }),
    {
        Value::String { val: s.to_owned(), span: Span::unknown() }
    }

    /// Builds a record only when the column names and the column values
    /// pair one to one; a mismatched pair is rejected before it can enter
    /// a stream.
    pub fn record(cols: Vec<String>, vals: Vec<Value>, span: Span) -> (r: Option<Value>)
        ensures
            r is Some <==> cols@.len() == vals@.len(),
            r matches Some(v) ==> v@ == (ValueView::Record {
                cols: Seq::new(cols@.len(), |i: int| cols@[i]@),
                vals: vview_seq(vals@),
                span,
            }),
    {
        if cols.len() == vals.len() {
            let r = Value::Record { cols, vals, span };
            proof {
                assert(r@ =~~= (ValueView::Record {
                    cols: Seq::new(r->Record_cols@.len(), |i: int| r->Record_cols@[i]@),
                    vals: vview_seq(r->Record_vals@),
                    span,
                }));
            }
            Some(r)
        } else {
            None
        }
    }

    /// The value's span; an error value instead hands back the error it
    /// carries, verbatim.
    pub fn span(&self) -> (r: Result<Span, ShellError>)
        ensures
            r matches Ok(s) ==> spec_span(self@) == Ok::<Span, ErrorView>(s),
            r matches Err(e) ==> spec_span(self@) == Err::<Span, ErrorView>(e@),
    {
        match self {
            Value::Bool { val, span } => Ok(*span),
            Value::Int { val, span } => Ok(*span),
            Value::Float { bits, span } => Ok(*span),
            Value::String { val, span } => Ok(*span),
            Value::List { vals, span } => Ok(*span),
            Value::Record { cols, vals, span } => Ok(*span),
            Value::Error { error } => Err(clone_error(error)),
        }
    }

    /// The string a value holds, exactly when it is a string value.
    pub fn as_string(&self) -> (r: Result<String, ShellError>)
        ensures
            r is Ok <==> self@ matches ValueView::String { .. },
            r matches Ok(s) ==> self@ == (ValueView::String {
                val: s@,
                span: self@->String_span,
            }),
    {
        match self {
            Value::String { val, span } => Ok(val.clone()),
            Value::Bool { val, span } => Err(
                ShellError::CantConvert { expected: Type::String, span: *span },
            ),
            Value::Int { val, span } => Err(
                ShellError::CantConvert { expected: Type::String, span: *span },
            ),
            Value::Float { bits, span } => Err(
                ShellError::CantConvert { expected: Type::String, span: *span },
            ),
            Value::List { vals, span } => Err(
                ShellError::CantConvert { expected: Type::String, span: *span },
            ),
            Value::Record { cols, vals, span } => Err(
                ShellError::CantConvert { expected: Type::String, span: *span },
            ),
            Value::Error { error } => Err(clone_error(error)),
        }
    }
}

} // verus!
