//! The instructions, each as a type of its own.
//!
//! A program written with these types is a Rust value whose shape is fixed
//! when the code is compiled: `Then(Inc, Loop(Dec))` adds one to a cell and
//! then counts it down to zero.

use crate::semantics::exec;
use crate::semantics::exec_from;
use crate::semantics::Outcome;
use crate::semantics::Syntax;
use crate::tape::Tape;
use crate::uint::Uint;
use vstd::prelude::*;

verus! {

/// Something that can be applied to a tape.
pub trait Instruction {
    /// The program that this value stands for.
    spec fn syntax(&self) -> Syntax;

    /// Runs the instruction on `tape`, taking the steps it needs from
    /// `budget`. The result is `false` where the budget ran out before the
    /// instruction was done; `tape` is then as far as the run came.
    fn apply_to(&self, tape: &mut Tape, budget: &mut Uint) -> (finished: bool)
        ensures
            exec(self.syntax(), old(tape)@, old(budget)@) == (Outcome {
                tape: final(tape)@,
                budget: final(budget)@,
                finished,
            }),
    ;
}

/// Takes one step from `budget`, where it has one.
pub fn spend(budget: &mut Uint) -> (spent: bool)
    ensures
        spent == (old(budget)@ > 0),
        final(budget)@ == if spent {
            (old(budget)@ - 1) as nat
        } else {
            old(budget)@
        },
{
    if budget.is_zero() {
        false
    } else {
        *budget = budget.prev();
        true
    }
}

/// An instruction which does nothing.
pub struct Nop;

/// An instruction which takes one from the cell under the pointer. A cell
/// that holds zero keeps it.
pub struct Dec;

/// An instruction which adds one to the cell under the pointer.
pub struct Inc;

/// An instruction which moves the pointer to the left. At cell zero the
/// pointer stays where it is.
pub struct Shl;

/// An instruction which moves the pointer to the right.
pub struct Shr;

/// An instruction which moves the next input number into the cell under the
/// pointer. It leaves the cell as it is where no input is left.
pub struct Read;

/// An instruction which adds the number under the pointer to the output.
pub struct Write;

/// An instruction which runs two instructions: first `A`, then `B`.
pub struct Then<A, B>(pub A, pub B);

/// An instruction which runs its inner instruction for as long as the cell
/// under the pointer is not zero.
pub struct Loop<I>(pub I);

impl Instruction for Nop {
    open spec fn syntax(&self) -> Syntax {
        Syntax::Nop
    }

    fn apply_to(&self, tape: &mut Tape, budget: &mut Uint) -> (finished: bool) {
        spend(budget)
    }
}

impl Instruction for Dec {
    open spec fn syntax(&self) -> Syntax {
        Syntax::Dec
    }

    fn apply_to(&self, tape: &mut Tape, budget: &mut Uint) -> (finished: bool) {
        if spend(budget) {
            tape.dec();
            true
        } else {
            false
        }
    }
}

impl Instruction for Inc {
    open spec fn syntax(&self) -> Syntax {
        Syntax::Inc
    }

    fn apply_to(&self, tape: &mut Tape, budget: &mut Uint) -> (finished: bool) {
        if spend(budget) {
            tape.inc();
            true
        } else {
            false
        }
    }
}

impl Instruction for Shl {
    open spec fn syntax(&self) -> Syntax {
        Syntax::Shl
    }

    fn apply_to(&self, tape: &mut Tape, budget: &mut Uint) -> (finished: bool) {
        if spend(budget) {
            tape.shl();
            true
        } else {
            false
        }
    }
}

impl Instruction for Shr {
    open spec fn syntax(&self) -> Syntax {
        Syntax::Shr
    }

    fn apply_to(&self, tape: &mut Tape, budget: &mut Uint) -> (finished: bool) {
        if spend(budget) {
            tape.shr();
            true
        } else {
            false
        }
    }
}

impl Instruction for Read {
    open spec fn syntax(&self) -> Syntax {
        Syntax::Read
    }

    fn apply_to(&self, tape: &mut Tape, budget: &mut Uint) -> (finished: bool) {
        if spend(budget) {
            tape.read();
            true
        } else {
            false
        }
    }
}

impl Instruction for Write {
    open spec fn syntax(&self) -> Syntax {
        Syntax::Write
    }

    fn apply_to(&self, tape: &mut Tape, budget: &mut Uint) -> (finished: bool) {
        if spend(budget) {
            tape.write();
            true
        } else {
            false
        }
    }
}

impl<A: Instruction, B: Instruction> Instruction for Then<A, B> {
    open spec fn syntax(&self) -> Syntax {
        Syntax::Block(seq![self.0.syntax(), self.1.syntax()])
    }

    fn apply_to(&self, tape: &mut Tape, budget: &mut Uint) -> (finished: bool) {
        let ghost items = seq![self.0.syntax(), self.1.syntax()];
        let ghost start = (tape@, budget@);
        if self.0.apply_to(tape, budget) {
            let ghost middle = (tape@, budget@);
            let finished = self.1.apply_to(tape, budget);
            proof {
                let second = exec(items[1], middle.0, middle.1);
                assert(exec_from(items, 2, second.tape, second.budget) == Outcome {
                    finished: true,
                    ..second
                });
                assert(exec_from(items, 1, middle.0, middle.1) == second);
                assert(exec_from(items, 0, start.0, start.1) == second);
            }
            finished
        } else {
            proof {
                assert(exec_from(items, 0, start.0, start.1) == exec(items[0], start.0, start.1));
            }
            false
        }
    }
}

impl<I: Instruction> Instruction for Loop<I> {
    open spec fn syntax(&self) -> Syntax {
        Syntax::Loop(Box::new(self.0.syntax()))
    }

    fn apply_to(&self, tape: &mut Tape, budget: &mut Uint) -> (finished: bool) {
        tape.apply_while_nonzero(&self.0, budget)
    }
}

} // verus!
