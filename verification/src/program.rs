//! Programs whose shape is known only when they run, as the parser makes
//! them.

use crate::instruction;
use crate::instruction::spend;
use crate::instruction::Instruction;
use crate::semantics::exec;
use crate::semantics::exec_from;
use crate::semantics::exec_loop;
use crate::semantics::lemma_exec_budget;
use crate::semantics::Outcome;
use crate::semantics::Syntax;
use crate::tape::Tape;
use crate::uint::Uint;
use vstd::prelude::*;
use vstd::std_specs::cmp::PartialEqSpecImpl;

verus! {

/// A program as a tree of instructions.
#[derive(Debug)]
pub enum Program {
    /// Does nothing.
    Nop,
    /// Takes one from the cell under the pointer.
    Dec,
    /// Adds one to the cell under the pointer.
    Inc,
    /// Moves the pointer to the left.
    Shl,
    /// Moves the pointer to the right.
    Shr,
    /// Moves the next input number into the cell under the pointer.
    Read,
    /// Adds the number under the pointer to the output.
    Write,
    /// Runs the programs in the list one after the other.
    Block(Vec<Program>),
    /// Runs a program for as long as the cell under the pointer is not zero.
    Loop(Box<Program>),
}

impl Program {
    /// The program as a mathematical tree.
    pub open spec fn tree(&self) -> Syntax
        decreases self,
    {
        match self {
            Program::Nop => Syntax::Nop,
            Program::Dec => Syntax::Dec,
            Program::Inc => Syntax::Inc,
            Program::Shl => Syntax::Shl,
            Program::Shr => Syntax::Shr,
            Program::Read => Syntax::Read,
            Program::Write => Syntax::Write,
            Program::Block(items) => Syntax::Block(
                Seq::new(
                    items@.len(),
                    |k: int|
                        if 0 <= k < items@.len() {
                            items@[k].tree()
                        } else {
                            Syntax::Nop
                        },
                ),
            ),
            Program::Loop(body) => Syntax::Loop(Box::new(body.tree())),
        }
    }

    /// Runs the program on `tape`, taking the steps it needs from `budget`.
    /// The result is `false` where the budget ran out before the program was
    /// done; `tape` is then as far as the run came.
    pub fn run(&self, tape: &mut Tape, budget: &mut Uint) -> (finished: bool)
        ensures
            exec(self@, old(tape)@, old(budget)@) == (Outcome {
                tape: final(tape)@,
                budget: final(budget)@,
                finished,
            }),
        decreases self,
    {
        match self {
            Program::Nop => instruction::Nop.apply_to(tape, budget),
            Program::Dec => instruction::Dec.apply_to(tape, budget),
            Program::Inc => instruction::Inc.apply_to(tape, budget),
            Program::Shl => instruction::Shl.apply_to(tape, budget),
            Program::Shr => instruction::Shr.apply_to(tape, budget),
            Program::Read => instruction::Read.apply_to(tape, budget),
            Program::Write => instruction::Write.apply_to(tape, budget),
            Program::Block(items) => {
                let ghost goal = exec(self@, tape@, budget@);
                let ghost list = self@->Block_0;
                let mut k: usize = 0;
                while k < items.len()
                    invariant
                        k <= items.len(),
                        self@ == Syntax::Block(list),
                        *self == Program::Block(*items),
                        goal == exec(self@, old(tape)@, old(budget)@),
                        exec_from(list, k as nat, tape@, budget@) == goal,
                    decreases items.len() - k,
                {
                    if !items[k].run(tape, budget) {
                        return false;
                    }
                    k += 1;
                }
                true
            },
            Program::Loop(body) => {
                let ghost goal = exec(self@, tape@, budget@);
                let ghost mut rounds = budget@;
                while !tape.get().is_zero()
                    invariant
                        budget@ <= rounds,
                        *self == Program::Loop(*body),
                        goal == exec(self@, old(tape)@, old(budget)@),
                        exec_loop(body@, tape@, budget@, rounds) == goal,
                    decreases budget@,
                {
                    if !spend(budget) {
                        return false;
                    }
                    proof {
                        lemma_exec_budget(body@, tape@, budget@);
                        rounds = (rounds - 1) as nat;
                    }
                    if !body.run(tape, budget) {
                        return false;
                    }
                }
                true
            },
        }
    }
}

impl Program {
    /// A copy of the program.
    fn duplicate(&self) -> (r: Program)
        ensures
            r@ == self@,
        decreases self,
    {
        match self {
            Program::Nop => Program::Nop,
            Program::Dec => Program::Dec,
            Program::Inc => Program::Inc,
            Program::Shl => Program::Shl,
            Program::Shr => Program::Shr,
            Program::Read => Program::Read,
            Program::Write => Program::Write,
            Program::Block(items) => {
                let mut copies: Vec<Program> = Vec::new();
                let mut k: usize = 0;
                while k < items.len()
                    invariant
                        k <= items.len(),
                        *self == Program::Block(*items),
                        copies@.len() == k,
                        forall|j: int| 0 <= j < k ==> copies@[j].tree() == items@[j].tree(),
                    decreases items.len() - k,
                {
                    assert(decreases_to!(self => self->Block_0[k as int]));
                    let copy = items[k].duplicate();
                    copies.push(copy);
                    k += 1;
                }
                let r = Program::Block(copies);
                proof {
                    assert(r.tree()->Block_0 =~= self.tree()->Block_0);
                }
                r
            },
            Program::Loop(body) => Program::Loop(Box::new(body.duplicate())),
        }
    }

    /// Whether the two programs are the same tree.
    fn same(&self, other: &Program) -> (r: bool)
        ensures
            r == (self@ == other@),
        decreases self,
    {
        match (self, other) {
            (Program::Nop, Program::Nop) => true,
            (Program::Dec, Program::Dec) => true,
            (Program::Inc, Program::Inc) => true,
            (Program::Shl, Program::Shl) => true,
            (Program::Shr, Program::Shr) => true,
            (Program::Read, Program::Read) => true,
            (Program::Write, Program::Write) => true,
            (Program::Block(items), Program::Block(others)) => {
                if items.len() != others.len() {
                    proof {
                        assert(self.tree()->Block_0.len() != other.tree()->Block_0.len());
                    }
                    return false;
                }
                let mut k: usize = 0;
                while k < items.len()
                    invariant
                        k <= items.len(),
                        items.len() == others.len(),
                        *self == Program::Block(*items),
                        *other == Program::Block(*others),
                        forall|j: int| 0 <= j < k ==> items@[j].tree() == others@[j].tree(),
                    decreases items.len() - k,
                {
                    if !items[k].same(&others[k]) {
                        proof {
                            assert(self.tree()->Block_0[k as int] != other.tree()->Block_0[k as int]);
                        }
                        return false;
                    }
                    k += 1;
                }
                proof {
                    assert(self.tree()->Block_0 =~= other.tree()->Block_0);
                }
                true
            },
            (Program::Loop(body), Program::Loop(inner)) => body.same(inner),
            _ => false,
        }
    }
}

impl Clone for Program {
    fn clone(&self) -> (r: Self)
        ensures
            r@ == self@,
    {
        self.duplicate()
    }
}

impl PartialEq for Program {
    fn eq(&self, other: &Self) -> (r: bool) {
        self.same(other)
    }
}

impl Eq for Program {

}

impl PartialEqSpecImpl for Program {
    open spec fn obeys_eq_spec() -> bool {
        true
    }

    open spec fn eq_spec(&self, other: &Self) -> bool {
        self@ == other@
    }
}

impl View for Program {
    type V = Syntax;

    open spec fn view(&self) -> Syntax {
        self.tree()
    }
}

impl Instruction for Program {
    open spec fn syntax(&self) -> Syntax {
        self@
    }

    fn apply_to(&self, tape: &mut Tape, budget: &mut Uint) -> (finished: bool) {
        self.run(tape, budget)
    }
}

} // verus!
