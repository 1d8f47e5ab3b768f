//! Tests of the command layer: signature binding, the split commands'
//! streaming behaviour, per-item error isolation, and the record
//! invariant.

use nu_core::engine::{Command, EngineState, Stack};
use nu_core::signature::{bind_call, Call, Signature, Spanned, SyntaxShape};
use nu_core::span::Span;
use nu_core::stream::{into_pipeline_data, Interrupt, PipelineData, Transform};
use nu_core::split_chars::SplitCharsTransform;
use nu_core::split_column::SplitColumnTransform;
use nu_core::value::{ShellError, Type, Value};

fn spanned(s: &str, a: u32, b: u32) -> Spanned<String> {
    Spanned { item: s.to_string(), span: Span::new(a, b) }
}

fn string_val(s: &str) -> Value {
    Value::String { val: s.to_string(), span: Span::new(0, s.len() as u32) }
}

#[test]
fn test_examples() {
    let cmd = nu_core::split_chars::SubCommand;
    let examples = cmd.examples();
    assert_eq!(examples.len(), 1);
    assert_eq!(examples[0].example, "'hello' | split chars");
    // The example pipes the string literal into the command.
    let engine_state = EngineState::new();
    let mut stack = Stack::new();
    let call = Call { head: Span::unknown(), positional: Vec::new(), named: Vec::new() };
    let input = into_pipeline_data(Value::test_string("hello"));
    let out = cmd.run(&engine_state, &mut stack, &call, input).unwrap();
    let got = out.into_value(Span::unknown());
    assert_eq!(examples[0].result.as_ref(), Some(&got));
}

#[test]
fn binding_accepts_required_and_switch() {
    let sig = nu_core::split_column::SubCommand.signature();
    let head = Span::new(0, 12);
    let args = vec![spanned(",", 13, 14), spanned("--collapse-empty", 15, 31)];
    let call = bind_call(&sig, head, &args).unwrap();
    assert_eq!(call.head, head);
    assert_eq!(call.positional.len(), 1);
    assert_eq!(
        call.positional[0],
        Value::String { val: ",".to_string(), span: Span::new(13, 14) }
    );
    assert!(call.has_flag("collapse-empty"));
    assert!(!call.has_flag("other"));
}

#[test]
fn binding_accepts_short_alias() {
    let sig = nu_core::split_column::SubCommand.signature();
    let args = vec![spanned(",", 0, 1), spanned("-c", 2, 4)];
    let call = bind_call(&sig, Span::unknown(), &args).unwrap();
    assert!(call.has_flag("collapse-empty"));
}

#[test]
fn binding_reports_missing_required() {
    let sig = nu_core::split_column::SubCommand.signature();
    let head = Span::new(0, 12);
    let args: Vec<Spanned<String>> = Vec::new();
    let err = bind_call(&sig, head, &args).unwrap_err();
    match err {
        ShellError::MissingOrWrongTypeArgument { name, span } => {
            assert_eq!(name, "separator");
            assert_eq!(span, head);
        },
        other => panic!("wrong error: {:?}", other),
    }
}

#[test]
fn binding_reports_unknown_flag() {
    let sig = nu_core::split_column::SubCommand.signature();
    let args = vec![spanned(",", 0, 1), spanned("--frobnicate", 2, 14)];
    let err = bind_call(&sig, Span::unknown(), &args).unwrap_err();
    match err {
        ShellError::UnknownFlag { name, span } => {
            assert_eq!(name, "frobnicate");
            assert_eq!(span, Span::new(2, 14));
        },
        other => panic!("wrong error: {:?}", other),
    }
}

#[test]
fn binding_reports_extra_positional() {
    let sig = Signature::build("one").required("only", SyntaxShape::String, "the one");
    let args = vec![spanned("a", 0, 1), spanned("b", 2, 3)];
    let err = bind_call(&sig, Span::unknown(), &args).unwrap_err();
    match err {
        ShellError::ExtraPositionalArgument { span } => {
            assert_eq!(span, Span::new(2, 3));
        },
        other => panic!("wrong error: {:?}", other),
    }
}

#[test]
fn req_string_refuses_non_string_citing_its_span() {
    let call = Call {
        head: Span::new(0, 1),
        positional: vec![Value::Int { val: 3, span: Span::new(2, 3) }],
        named: Vec::new(),
    };
    let err = call.req_string(0).unwrap_err();
    match err {
        ShellError::CantConvert { expected, span } => {
            assert_eq!(expected, Type::String);
            // The error cites the offending argument's own span, not the head.
            assert_eq!(span, Span::new(2, 3));
        },
        other => panic!("wrong error: {:?}", other),
    }
}

#[test]
fn rest_strings_refuses_first_non_string_citing_its_span() {
    let call = Call {
        head: Span::new(0, 1),
        positional: vec![
            string_val("ok"),
            Value::Bool { val: true, span: Span::new(5, 9) },
            Value::Int { val: 7, span: Span::new(10, 11) },
        ],
        named: Vec::new(),
    };
    let err = call.rest_strings(0).unwrap_err();
    match err {
        ShellError::CantConvert { expected, span } => {
            assert_eq!(expected, Type::String);
            assert_eq!(span, Span::new(5, 9));
        },
        other => panic!("wrong error: {:?}", other),
    }
}

#[test]
fn req_string_hands_a_carried_error_through() {
    let carried = ShellError::PipelineMismatch {
        expected: Type::String,
        expected_span: Span::new(0, 1),
        origin: Span::new(2, 3),
    };
    let call = Call {
        head: Span::new(0, 1),
        positional: vec![Value::Error { error: carried.clone() }],
        named: Vec::new(),
    };
    assert_eq!(call.req_string(0), Err(carried));
}

#[test]
fn per_item_errors_keep_the_stream_going() {
    // [1, "a", 2] through the string-only split: one error per non-string
    // item, the stream keeps its length and its order.
    let head = Span::new(100, 110);
    let input = PipelineData::new(vec![
        Value::Int { val: 1, span: Span::new(0, 1) },
        string_val("a"),
        Value::Int { val: 2, span: Span::new(4, 5) },
    ]);
    let out = input.flat_map(SplitCharsTransform { head }, &Interrupt::new());
    assert_eq!(out.vals.len(), 3);
    match &out.vals[0] {
        Value::Error { error: ShellError::PipelineMismatch { expected, expected_span, origin } } => {
            assert_eq!(*expected, Type::String);
            assert_eq!(*expected_span, head);
            assert_eq!(*origin, Span::new(0, 1));
        },
        other => panic!("expected an error value, got {:?}", other),
    }
    assert_eq!(out.vals[1], Value::String { val: "a".to_string(), span: Span::new(0, 1) });
    match &out.vals[2] {
        Value::Error { error: ShellError::PipelineMismatch { origin, .. } } => {
            assert_eq!(*origin, Span::new(4, 5));
        },
        other => panic!("expected an error value, got {:?}", other),
    }
}

#[test]
fn error_values_flow_through_verbatim() {
    let head = Span::new(9, 10);
    let carried = ShellError::CantConvert { expected: Type::Int, span: Span::new(1, 2) };
    let input = PipelineData::new(vec![Value::Error { error: carried.clone() }]);
    let out = input.flat_map(SplitCharsTransform { head }, &Interrupt::new());
    assert_eq!(out.vals, vec![Value::Error { error: carried }]);
}

#[test]
fn cancellation_stops_upstream_pulls() {
    let head = Span::new(0, 1);
    let input = vec![string_val("ab"), string_val("cd"), string_val("ef")];
    let mut tr = Transform::new(input, SplitCharsTransform { head });
    let first = tr.next();
    assert_eq!(first, Some(Value::String { val: "a".to_string(), span: Span::new(0, 2) }));
    tr.cancel();
    // The item already under work still drains...
    assert_eq!(tr.next(), Some(Value::String { val: "b".to_string(), span: Span::new(0, 2) }));
    // ...then the stream ends: nothing further is pulled from upstream.
    assert_eq!(tr.next(), None);
    assert_eq!(tr.next(), None);
}

#[test]
fn cancelled_flag_at_start_pulls_nothing() {
    let head = Span::new(0, 1);
    let mut ctrlc = Interrupt::new();
    ctrlc.trigger();
    let input = PipelineData::new(vec![string_val("abc")]);
    let out = input.flat_map(SplitCharsTransform { head }, &ctrlc);
    assert_eq!(out.vals.len(), 0);
}

#[test]
fn record_constructor_rejects_mismatched_lengths() {
    let cols = vec!["a".to_string(), "b".to_string()];
    let vals = vec![string_val("x")];
    assert_eq!(Value::record(cols, vals, Span::unknown()), None);
    let cols = vec!["a".to_string()];
    let vals = vec![string_val("x")];
    let rec = Value::record(cols, vals, Span::unknown()).unwrap();
    match rec {
        Value::Record { cols, vals, .. } => {
            assert_eq!(cols.len(), vals.len());
        },
        other => panic!("expected a record, got {:?}", other),
    }
}

#[test]
fn split_column_generates_column_names() {
    let head = Span::new(50, 60);
    let t = SplitColumnTransform {
        separator: vec![','],
        rest: Vec::new(),
        collapse_empty: false,
        head,
    };
    let input = PipelineData::new(vec![string_val("a,b,c")]);
    let out = input.flat_map(t, &Interrupt::new());
    assert_eq!(out.vals.len(), 1);
    match &out.vals[0] {
        Value::Record { cols, vals, span } => {
            assert_eq!(*span, head);
            assert_eq!(cols, &vec!["Column1".to_string(), "Column2".to_string(), "Column3".to_string()]);
            assert_eq!(
                vals,
                &vec![
                    Value::String { val: "a".to_string(), span: head },
                    Value::String { val: "b".to_string(), span: head },
                    Value::String { val: "c".to_string(), span: head },
                ]
            );
        },
        other => panic!("expected a record, got {:?}", other),
    }
}

#[test]
fn split_column_zipping_truncates_to_given_names() {
    let head = Span::unknown();
    let t = SplitColumnTransform {
        separator: vec![','],
        rest: vec!["x".to_string()],
        collapse_empty: false,
        head,
    };
    let input = PipelineData::new(vec![string_val("a,b,c")]);
    let out = input.flat_map(t, &Interrupt::new());
    match &out.vals[0] {
        Value::Record { cols, vals, .. } => {
            assert_eq!(cols, &vec!["x".to_string()]);
            assert_eq!(vals, &vec![Value::String { val: "a".to_string(), span: head }]);
        },
        other => panic!("expected a record, got {:?}", other),
    }
}

#[test]
fn split_column_collapse_empty_drops_empty_pieces() {
    let head = Span::unknown();
    let t = SplitColumnTransform {
        separator: vec![','],
        rest: Vec::new(),
        collapse_empty: true,
        head,
    };
    let input = PipelineData::new(vec![string_val("a,,b,")]);
    let out = input.flat_map(t, &Interrupt::new());
    match &out.vals[0] {
        Value::Record { cols, vals, .. } => {
            assert_eq!(cols, &vec!["Column1".to_string(), "Column2".to_string()]);
            assert_eq!(vals.len(), 2);
        },
        other => panic!("expected a record, got {:?}", other),
    }
}

#[test]
fn split_column_unescapes_newline_separator() {
    let sig = nu_core::split_column::SubCommand.signature();
    let args = vec![spanned("\\n", 0, 2)];
    let call = bind_call(&sig, Span::unknown(), &args).unwrap();
    let engine_state = EngineState::new();
    let mut stack = Stack::new();
    let input = PipelineData::new(vec![string_val("a\nb")]);
    let out = nu_core::split_column::SubCommand
        .run(&engine_state, &mut stack, &call, input)
        .unwrap();
    match &out.vals[0] {
        Value::Record { cols, vals, .. } => {
            assert_eq!(cols.len(), 2);
            assert_eq!(vals.len(), 2);
            match (&vals[0], &vals[1]) {
                (Value::String { val: a, .. }, Value::String { val: b, .. }) => {
                    assert_eq!(a, "a");
                    assert_eq!(b, "b");
                },
                other => panic!("expected strings, got {:?}", other),
            }
        },
        other => panic!("expected a record, got {:?}", other),
    }
}

#[test]
fn math_answers_with_its_help_text() {
    let call = Call { head: Span::new(0, 4), positional: Vec::new(), named: Vec::new() };
    let help = nu_core::math_command::math_help(&call);
    assert_eq!(help, Value::String { val: "math\n\n".to_string(), span: Span::new(0, 4) });
}

#[test]
fn value_span_cites_the_error_for_error_values() {
    let e = ShellError::CantConvert { expected: Type::String, span: Span::new(3, 4) };
    let v = Value::Error { error: e.clone() };
    assert_eq!(v.span(), Err(e));
    assert_eq!(string_val("x").span(), Ok(Span::new(0, 1)));
}
