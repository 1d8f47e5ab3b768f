//! The command contract: every command declares its identity, its
//! signature and its usage, and exposes one execution entry point over
//! streaming pipeline data.

use vstd::prelude::*;

use crate::signature::{Call, Signature, SignatureView};
use crate::stream::{Interrupt, PipelineData};
use crate::value::{ShellError, Value, ValueView};

verus! {

/// The engine's process-wide state that the core reads: the cooperative
/// cancellation signal. Everything else an engine owns (variables,
/// registered declarations) stays outside this core.
#[derive(Debug)]
pub struct EngineState {
    pub ctrlc: Interrupt,
}

impl EngineState {
    pub fn new() -> (r: EngineState)
        ensures
            !r.ctrlc.triggered,
    {
        EngineState { ctrlc: Interrupt::new() }
    }
}

/// A command's view of the variable stack. Variable storage is an
/// external collaborator; the core only passes the stack through.
#[derive(Debug)]
pub struct Stack {}

impl Stack {
    pub fn new() -> Stack {
        Stack {  }
    }
}

/// A worked example of a command: what to type, and what it produces.
#[derive(Debug)]
pub struct Example {
    pub description: String,
    pub example: String,
    pub result: Option<Value>,
}

pub ghost struct ExampleView {
    pub description: Seq<char>,
    pub example: Seq<char>,
    pub result: Option<ValueView>,
}

impl View for Example {
    type V = ExampleView;

    open spec fn view(&self) -> ExampleView {
        ExampleView {
            description: self.description@,
            example: self.example@,
            result: match self.result {
                Some(v) => Some(crate::value::vview(v)),
                None => None,
            },
        }
    }
}

/// The views of a list of examples.
pub open spec fn examples_view(es: Seq<Example>) -> Seq<ExampleView> {
    Seq::new(es.len(), |i: int| es[i]@)
}

/// The polymorphic command contract: identity, declared signature, usage,
/// worked examples, and the execution entry point. Binding is total
/// before `run` is invoked, so `run` never sees partially typed
/// arguments.
pub trait Command: Sized {
    fn name(&self) -> String;

    fn signature(&self) -> Signature;

    fn usage(&self) -> String;

    fn examples(&self) -> Vec<Example>;

    fn run(
        &self,
        engine_state: &EngineState,
        stack: &mut Stack,
        call: &Call,
        input: PipelineData,
    ) -> Result<PipelineData, ShellError>;
}

/// The examples part of a help text: each example's description and text
/// on lines of their own.
pub open spec fn examples_text(es: Seq<ExampleView>) -> Seq<char>
    decreases es.len(),
{
    if es.len() == 0 {
        Seq::empty()
    } else {
        es[0].description + seq!['\n'] + es[0].example + seq!['\n'] + examples_text(
            es.drop_first(),
        )
    }
}

/// The full help text of a command: its name, its usage line, and its
/// worked examples.
pub open spec fn spec_full_help(sig: SignatureView, es: Seq<ExampleView>) -> Seq<char> {
    sig.name + seq!['\n'] + sig.usage + seq!['\n'] + examples_text(es)
}

/// Renders the help text a command with no own output answers with.
#[verifier::loop_isolation(false)]
pub fn get_full_help(sig: &Signature, examples: &Vec<Example>) -> (r: String)
    ensures
        r@ == spec_full_help(sig@, examples_view(examples@)),
{
    proof {
        reveal_strlit("\n");
    }
    let mut out = String::new();
    out.append(sig.name.as_str());
    out.append("\n");
    out.append(sig.usage.as_str());
    out.append("\n");
    let ghost evs = examples_view(examples@);
    let mut i: usize = 0;
    proof {
        assert("\n"@ =~= seq!['\n']);
        assert(evs.subrange(0, evs.len() as int) =~= evs);
        assert(out@ =~= sig@.name + seq!['\n'] + sig@.usage + seq!['\n']);
    }
    while i < examples.len()
        invariant
            i <= examples@.len(),
            spec_full_help(sig@, evs) == out@ + examples_text(
                evs.subrange(i as int, evs.len() as int),
            ),
        decreases examples@.len() - i,
    {
        let ghost suffix = evs.subrange(i as int, evs.len() as int);
        let ghost old_out = out@;
        out.append(examples[i].description.as_str());
        out.append("\n");
        out.append(examples[i].example.as_str());
        out.append("\n");
        proof {
            assert(suffix[0] == evs[i as int]);
            assert(suffix.drop_first() =~= evs.subrange(i as int + 1, evs.len() as int));
            assert(out@ =~= old_out + (suffix[0].description + seq!['\n'] + suffix[0].example
                + seq!['\n']));
            assert(old_out + (suffix[0].description + seq!['\n'] + suffix[0].example + seq![
                '\n',
            ] + examples_text(suffix.drop_first())) =~= out@ + examples_text(
                suffix.drop_first(),
            ));
        }
        i = i + 1;
    }
    proof {
        assert(evs.subrange(i as int, evs.len() as int).len() == 0);
        assert(out@ + examples_text(evs.subrange(i as int, evs.len() as int)) =~= out@);
    }
    out
}

} // verus!
