//! Running a source text from start to end.

use crate::memory::Memory;
use crate::parser::parse;
use crate::parser::parse_spec;
use crate::parser::Strictness;
use crate::parser::SyntaxError;
use crate::semantics::exec;
use crate::tape::Tape;
use crate::tape::TapeView;
use crate::uint::Uint;
use vstd::prelude::*;
use vstd::string::StringSliceAdditionalSpecFns;

verus! {

/// How a run ended.
#[derive(Clone, Copy, Debug, PartialEq, Eq, Structural)]
pub enum Status {
    /// The program came to its end.
    Finished,
    /// The source text is no program; nothing ran.
    SyntaxError(SyntaxError),
    /// The program needed a step when the budget had none left.
    BudgetExhausted,
}

/// The output and the end of the run of `source` on `input`, with `budget`
/// steps to spend.
pub open spec fn run_spec(source: Seq<u8>, strict: bool, input: Seq<nat>, budget: nat) -> (
    Seq<nat>,
    Status,
) {
    match parse_spec(source, strict) {
        Err(error) => (Seq::empty(), Status::SyntaxError(error)),
        Ok(tree) => {
            let end = exec(tree, TapeView::blank(input), budget);
            (
                end.tape.output,
                if end.finished {
                    Status::Finished
                } else {
                    Status::BudgetExhausted
                },
            )
        },
    }
}

/// Runs the program that `source` is on a blank tape, with `input` to read
/// from and `budget` steps to spend, and gives the output and how the run
/// ended. A text that is no program gives no output at all; a run that stops
/// for want of steps gives what it had written until then.
pub fn run_with(source: &str, strictness: Strictness, input: Memory, budget: Uint) -> (r: (
    Memory,
    Status,
))
    ensures
        (r.0@, r.1) == run_spec(
            source.spec_bytes(),
            strictness == Strictness::Strict,
            input@,
            budget@,
        ),
{
    match parse(source, strictness) {
        Err(error) => (Memory::new(), Status::SyntaxError(error)),
        Ok(program) => {
            let mut tape = Tape::blank(input);
            let mut left = budget;
            let finished = program.run(&mut tape, &mut left);
            let status = if finished {
                Status::Finished
            } else {
                Status::BudgetExhausted
            };
            (tape.into_output(), status)
        },
    }
}

/// Runs `source` as [`run_with`] does, passing over every character that is
/// no instruction.
pub fn run(source: &str, input: Memory, budget: Uint) -> (r: (Memory, Status))
    ensures
        (r.0@, r.1) == run_spec(source.spec_bytes(), false, input@, budget@),
{
    run_with(source, Strictness::Lenient, input, budget)
}

} // verus!
