//! The state of the machine: a pointer, the tape it points into, the input
//! that is left and the output so far.

use crate::instruction::Instruction;
use crate::memory::cell_at;
use crate::memory::with_cell;
use crate::memory::Memory;
use crate::semantics::exec;
use crate::semantics::exec_loop;
use crate::semantics::lemma_exec_budget;
use crate::semantics::Outcome;
use crate::semantics::Syntax;
use crate::uint::pred;
use crate::uint::succ;
use crate::uint::Uint;
use vstd::prelude::*;
use vstd::std_specs::cmp::PartialEqSpecImpl;

verus! {

/// The state of the machine as plain mathematics.
pub struct TapeView {
    /// The cell that the machine points at.
    pub pointer: nat,
    /// The cells that were written so far; every other cell holds zero.
    pub memory: Seq<nat>,
    /// The numbers that are still to be read, the next one first.
    pub input: Seq<nat>,
    /// The numbers that were written out, the first one first.
    pub output: Seq<nat>,
}

impl TapeView {
    /// The state before anything ran: the pointer at cell zero, every cell
    /// zero, nothing written out yet.
    pub open spec fn blank(input: Seq<nat>) -> TapeView {
        TapeView { pointer: 0, memory: Seq::empty(), input, output: Seq::empty() }
    }

    /// The number in the cell under the pointer.
    pub open spec fn get(self) -> nat {
        cell_at(self.memory, self.pointer)
    }

    /// The state with `v` in the cell under the pointer.
    pub open spec fn put(self, v: nat) -> TapeView {
        TapeView { memory: with_cell(self.memory, self.pointer, v), ..self }
    }

    /// The state with one taken from the cell under the pointer.
    pub open spec fn dec(self) -> TapeView {
        self.put(pred(self.get()))
    }

    /// The state with one added to the cell under the pointer.
    pub open spec fn inc(self) -> TapeView {
        self.put(succ(self.get()))
    }

    /// The state with the pointer one cell to the left, or still at cell
    /// zero.
    pub open spec fn shl(self) -> TapeView {
        TapeView { pointer: pred(self.pointer), ..self }
    }

    /// The state with the pointer one cell to the right.
    pub open spec fn shr(self) -> TapeView {
        TapeView { pointer: succ(self.pointer), ..self }
    }

    /// The state with the next input number moved into the cell under the
    /// pointer; the same state where no input is left.
    pub open spec fn read(self) -> TapeView {
        if self.input.len() > 0 {
            TapeView { input: self.input.drop_first(), ..self.put(self.input[0]) }
        } else {
            self
        }
    }

    /// The state with the number under the pointer added to the output.
    pub open spec fn write(self) -> TapeView {
        TapeView { output: self.output.push(self.get()), ..self }
    }
}

/// The state of the machine as machine integers: the pointer, the tape, the
/// input that is left and the output.
pub type TapeValue = (usize, Vec<usize>, Vec<usize>, Vec<usize>);

/// The state of the machine.
#[derive(Debug)]
pub struct Tape {
    pointer: Uint,
    memory: Memory,
    input: Memory,
    output: Memory,
}

impl View for Tape {
    type V = TapeView;

    closed spec fn view(&self) -> TapeView {
        TapeView {
            pointer: self.pointer@,
            memory: self.memory@,
            input: self.input@,
            output: self.output@,
        }
    }
}

impl Tape {
    /// The state before anything ran, with `input` waiting to be read.
    pub fn blank(input: Memory) -> (r: Tape)
        ensures
            r@ == TapeView::blank(input@),
    {
        Tape { pointer: Uint::zero(), memory: Memory::new(), input, output: Memory::new() }
    }

    /// The state with the given parts.
    pub fn new(pointer: Uint, memory: Memory, input: Memory, output: Memory) -> (r: Tape)
        ensures
            r@ == (TapeView { pointer: pointer@, memory: memory@, input: input@, output: output@ }),
    {
        Tape { pointer, memory, input, output }
    }

    /// The cell that the machine points at.
    pub fn pointer(&self) -> (r: &Uint)
        ensures
            r@ == self@.pointer,
    {
        &self.pointer
    }

    /// The cells that were written so far.
    pub fn memory(&self) -> (r: &Memory)
        ensures
            r@ == self@.memory,
    {
        &self.memory
    }

    /// The numbers that are still to be read.
    pub fn input(&self) -> (r: &Memory)
        ensures
            r@ == self@.input,
    {
        &self.input
    }

    /// The numbers that were written out.
    pub fn output(&self) -> (r: &Memory)
        ensures
            r@ == self@.output,
    {
        &self.output
    }

    /// The numbers that were written out, leaving the rest of the state
    /// behind.
    pub fn into_output(self) -> (r: Memory)
        ensures
            r@ == self@.output,
    {
        self.output
    }

    /// The number in the cell under the pointer.
    pub fn get(&self) -> (r: Uint)
        ensures
            r@ == self@.get(),
    {
        self.memory.get(&self.pointer)
    }

    /// Takes one from the cell under the pointer; a zero stays zero.
    pub fn dec(&mut self)
        ensures
            final(self)@ == old(self)@.dec(),
    {
        self.memory.dec(&self.pointer);
    }

    /// Adds one to the cell under the pointer.
    pub fn inc(&mut self)
        ensures
            final(self)@ == old(self)@.inc(),
    {
        self.memory.inc(&self.pointer);
    }

    /// Moves the pointer one cell to the left; at cell zero it stays.
    pub fn shl(&mut self)
        ensures
            final(self)@ == old(self)@.shl(),
    {
        self.pointer = self.pointer.prev();
    }

    /// Moves the pointer one cell to the right.
    pub fn shr(&mut self)
        ensures
            final(self)@ == old(self)@.shr(),
    {
        self.pointer = self.pointer.next();
    }

    /// Moves the next input number into the cell under the pointer. Where no
    /// input is left, nothing changes.
    pub fn read(&mut self)
        ensures
            final(self)@ == old(self)@.read(),
    {
        match self.input.pop_front() {
            Some(value) => {
                self.memory.set(&self.pointer, value);
            },
            None => {},
        }
    }

    /// Adds the number under the pointer to the output.
    pub fn write(&mut self)
        ensures
            final(self)@ == old(self)@.write(),
    {
        let value = self.get();
        self.output.push(value);
    }

    /// Runs `body` again and again for as long as the cell under the pointer
    /// is not zero, looking at the cell before every pass. Every pass costs
    /// one step of `budget`, on top of what `body` itself costs; the result is
    /// `false` where the budget ran out before the cell was zero.
    pub fn apply_while_nonzero<U: Instruction>(&mut self, body: &U, budget: &mut Uint) -> (finished:
        bool)
        ensures
            exec(Syntax::Loop(Box::new(body.syntax())), old(self)@, old(budget)@) == (Outcome {
                tape: final(self)@,
                budget: final(budget)@,
                finished,
            }),
    {
        let ghost goal = exec(Syntax::Loop(Box::new(body.syntax())), self@, budget@);
        let ghost mut rounds = budget@;
        while !self.get().is_zero()
            invariant
                budget@ <= rounds,
                goal == exec(Syntax::Loop(Box::new(body.syntax())), old(self)@, old(budget)@),
                exec_loop(body.syntax(), self@, budget@, rounds) == goal,
            decreases budget@,
        {
            if budget.is_zero() {
                return false;
            }
            *budget = budget.prev();
            proof {
                lemma_exec_budget(body.syntax(), self@, budget@);
                rounds = (rounds - 1) as nat;
            }
            if !body.apply_to(self, budget) {
                return false;
            }
        }
        true
    }

    /// The state as machine integers, where every number in it is small
    /// enough to be one.
    pub fn reify(&self) -> (r: Option<TapeValue>)
        ensures
            match r {
                Some(plain) => {
                    &&& plain.0 == self@.pointer
                    &&& plain.1@.map_values(|n: usize| n as nat) == self@.memory
                    &&& plain.2@.map_values(|n: usize| n as nat) == self@.input
                    &&& plain.3@.map_values(|n: usize| n as nat) == self@.output
                },
                None => {
                    ||| self@.pointer > usize::MAX
                    ||| exists|k: int| 0 <= k < self@.memory.len() && self@.memory[k] > usize::MAX
                    ||| exists|k: int| 0 <= k < self@.input.len() && self@.input[k] > usize::MAX
                    ||| exists|k: int| 0 <= k < self@.output.len() && self@.output[k] > usize::MAX
                },
            },
    {
        let pointer = self.pointer.value();
        let memory = self.memory.reify();
        let input = self.input.reify();
        let output = self.output.reify();
        proof {
            assert(self@.memory == self.memory@);
            assert(self@.input == self.input@);
            assert(self@.output == self.output@);
        }
        match (pointer, memory, input, output) {
            (Some(p), Some(m), Some(i), Some(o)) => Some((p, m, i, o)),
            _ => None,
        }
    }
}

impl Clone for Tape {
    fn clone(&self) -> (r: Self)
        ensures
            r@ == self@,
    {
        Tape {
            pointer: self.pointer.clone(),
            memory: self.memory.clone(),
            input: self.input.clone(),
            output: self.output.clone(),
        }
    }
}

impl PartialEq for Tape {
    fn eq(&self, other: &Self) -> (r: bool) {
        self.pointer == other.pointer && self.memory == other.memory && self.input == other.input
            && self.output == other.output
    }
}

impl Eq for Tape {

}

impl PartialEqSpecImpl for Tape {
    open spec fn obeys_eq_spec() -> bool {
        true
    }

    open spec fn eq_spec(&self, other: &Self) -> bool {
        self@ == other@
    }
}

} // verus!
