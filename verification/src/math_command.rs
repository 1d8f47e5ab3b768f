//! The `math` umbrella command: run on its own it only answers with its
//! help text.

use vstd::prelude::*;

use crate::engine::{examples_view, get_full_help, Command, EngineState, Example, Stack};
use crate::signature::{Call, Signature};
use crate::stream::{into_pipeline_data, PipelineData};
use crate::value::{ShellError, Value};

verus! {

#[derive(Debug, Clone)]
pub struct MathCommand;

impl Command for MathCommand {
    fn name(&self) -> (r: String)
        ensures
            r@ == "math"@,
    {
        String::from_str("math")
    }

    fn signature(&self) -> (r: Signature)
        ensures
            r@.name == "math"@,
            r@.usage == Seq::<char>::empty(),
            r@.required == Seq::<crate::signature::PositionalArgView>::empty(),
            r@.optional == Seq::<crate::signature::PositionalArgView>::empty(),
            r@.rest is None,
            r@.named == Seq::<crate::signature::FlagView>::empty(),
    {
        Signature::build("math")
    }

    fn usage(&self) -> (r: String)
        ensures
            r@
                == "Use mathematical functions as aggregate functions on a list of numbers or tables."@,
    {
        String::from_str(
            "Use mathematical functions as aggregate functions on a list of numbers or tables.",
        )
    }

    fn examples(&self) -> (r: Vec<Example>)
        ensures
            r@.len() == 0,
    {
        Vec::new()
    }

    fn run(
        &self,
        engine_state: &EngineState,
        stack: &mut Stack,
        call: &Call,
        input: PipelineData,
    ) -> (r: Result<PipelineData, ShellError>)
        ensures
            r matches Ok(out) && out@ == seq![
                crate::value::ValueView::String {
                    val: "math"@ + seq!['\n'] + seq!['\n'],
                    span: call@.head,
                },
            ],
    {
        let help = math_help(call);
        Ok(into_pipeline_data(help))
    }
}

/// The value the `math` command answers with: its own help text as a
/// string value at the call's head span. The command declares no
/// arguments, no usage line of its own in the signature and no examples,
/// so the text is its name and the two blank fields.
pub fn math_help(call: &Call) -> (r: Value)
    ensures
        r.deep_view() == (crate::value::ValueView::String {
            val: "math"@ + seq!['\n'] + seq!['\n'],
            span: call.head,
        }),
{
    let sig = Signature::build("math");
    let examples: Vec<Example> = Vec::new();
    let val = get_full_help(&sig, &examples);
    proof {
        assert(examples_view(examples@) =~= Seq::<crate::engine::ExampleView>::empty());
        assert(crate::engine::examples_text(Seq::<crate::engine::ExampleView>::empty())
            == Seq::<char>::empty());
        assert(val@ =~= "math"@ + seq!['\n'] + seq!['\n']);
    }
    Value::String { val, span: call.head }
}

} // verus!
