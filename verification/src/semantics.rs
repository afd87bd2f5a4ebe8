//! What a program means: the state it leaves and the steps it takes.
//!
//! A program may run forever, so its meaning is given for a budget of steps.
//! Every instruction without parts costs one step, and so does every pass
//! through the body of a loop; to run one program after another costs nothing
//! beyond what they cost, and to leave a loop costs nothing. A program that
//! needs a step when none is left stops where it is.

use crate::tape::TapeView;
use vstd::prelude::*;

verus! {

/// A program as a tree.
pub enum Syntax {
    /// Does nothing.
    Nop,
    /// Takes one from the cell under the pointer.
    Dec,
    /// Adds one to the cell under the pointer.
    Inc,
    /// Moves the pointer to the left.
    Shl,
    /// Moves the pointer to the right.
    Shr,
    /// Moves the next input number into the cell under the pointer.
    Read,
    /// Adds the number under the pointer to the output.
    Write,
    /// Runs the programs in the list one after the other.
    Block(Seq<Syntax>),
    /// Runs a program for as long as the cell under the pointer is not zero.
    Loop(Box<Syntax>),
}

/// Where a run stopped.
pub struct Outcome {
    /// The state of the machine at that point.
    pub tape: TapeView,
    /// The steps that were left.
    pub budget: nat,
    /// Whether the program came to its end, rather than to the end of its
    /// budget.
    pub finished: bool,
}

/// What an instruction without parts does to the machine.
pub open spec fn effect(p: Syntax, tape: TapeView) -> TapeView {
    match p {
        Syntax::Dec => tape.dec(),
        Syntax::Inc => tape.inc(),
        Syntax::Shl => tape.shl(),
        Syntax::Shr => tape.shr(),
        Syntax::Read => tape.read(),
        Syntax::Write => tape.write(),
        _ => tape,
    }
}

/// Where the program `p` stops when it starts in the state `tape` with
/// `budget` steps to spend.
pub open spec fn exec(p: Syntax, tape: TapeView, budget: nat) -> Outcome
    decreases p, 0nat,
{
    match p {
        Syntax::Block(items) => exec_from(items, 0, tape, budget),
        Syntax::Loop(body) => exec_loop(*body, tape, budget, budget),
        _ => if budget == 0 {
            Outcome { tape, budget, finished: false }
        } else {
            Outcome { tape: effect(p, tape), budget: (budget - 1) as nat, finished: true }
        },
    }
}

/// Where the programs of `items` from position `at` on stop when they run one
/// after the other.
pub open spec fn exec_from(items: Seq<Syntax>, at: nat, tape: TapeView, budget: nat) -> Outcome
    decreases items, items.len() - at,
{
    if at >= items.len() {
        Outcome { tape, budget, finished: true }
    } else {
        let first = exec(items[at as int], tape, budget);
        if first.finished {
            exec_from(items, at + 1, first.tape, first.budget)
        } else {
            first
        }
    }
}

/// Where a loop around `body` stops. Before every pass it looks at the cell
/// under the pointer and is finished where that is zero.
///
/// `rounds` is a bound on the number of passes, which the recursion needs in
/// order to end. A pass costs a step, so with `rounds` at `budget` or above it
/// is never the bound that stops the loop.
pub open spec fn exec_loop(body: Syntax, tape: TapeView, budget: nat, rounds: nat) -> Outcome
    decreases body, rounds,
{
    if tape.get() == 0 {
        Outcome { tape, budget, finished: true }
    } else if budget == 0 || rounds == 0 {
        Outcome { tape, budget, finished: false }
    } else {
        let pass = exec(body, tape, (budget - 1) as nat);
        if pass.finished {
            exec_loop(body, pass.tape, pass.budget, (rounds - 1) as nat)
        } else {
            pass
        }
    }
}

/// A run never ends with more steps than it began with, and a run that did
/// not finish has none left.
pub proof fn lemma_exec_budget(p: Syntax, tape: TapeView, budget: nat)
    ensures
        exec(p, tape, budget).budget <= budget,
        !exec(p, tape, budget).finished ==> exec(p, tape, budget).budget == 0,
    decreases p, 0nat,
{
    match p {
        Syntax::Block(items) => lemma_exec_from_budget(items, 0, tape, budget),
        Syntax::Loop(body) => lemma_exec_loop_budget(*body, tape, budget, budget),
        _ => {},
    }
}

/// The same for programs that run one after the other.
pub proof fn lemma_exec_from_budget(items: Seq<Syntax>, at: nat, tape: TapeView, budget: nat)
    ensures
        exec_from(items, at, tape, budget).budget <= budget,
        !exec_from(items, at, tape, budget).finished ==> exec_from(items, at, tape, budget).budget
            == 0,
    decreases items, items.len() - at,
{
    if at < items.len() {
        let first = exec(items[at as int], tape, budget);
        lemma_exec_budget(items[at as int], tape, budget);
        if first.finished {
            lemma_exec_from_budget(items, at + 1, first.tape, first.budget);
        }
    }
}

/// The same for a loop, where the bound on its passes is at least its budget.
pub proof fn lemma_exec_loop_budget(body: Syntax, tape: TapeView, budget: nat, rounds: nat)
    requires
        budget <= rounds,
    ensures
        exec_loop(body, tape, budget, rounds).budget <= budget,
        !exec_loop(body, tape, budget, rounds).finished ==> exec_loop(
            body,
            tape,
            budget,
            rounds,
        ).budget == 0,
    decreases body, rounds,
{
    if tape.get() != 0 && budget != 0 && rounds != 0 {
        let pass = exec(body, tape, (budget - 1) as nat);
        lemma_exec_budget(body, tape, (budget - 1) as nat);
        if pass.finished {
            lemma_exec_loop_budget(body, pass.tape, pass.budget, (rounds - 1) as nat);
        }
    }
}

/// The bound on the passes of a loop does not matter once it is the budget
/// or more.
pub proof fn lemma_exec_loop_rounds(
    body: Syntax,
    tape: TapeView,
    budget: nat,
    rounds: nat,
    other: nat,
)
    requires
        budget <= rounds,
        budget <= other,
    ensures
        exec_loop(body, tape, budget, rounds) == exec_loop(body, tape, budget, other),
    decreases budget,
{
    if tape.get() != 0 && budget != 0 {
        let pass = exec(body, tape, (budget - 1) as nat);
        lemma_exec_budget(body, tape, (budget - 1) as nat);
        if pass.finished {
            lemma_exec_loop_rounds(
                body,
                pass.tape,
                pass.budget,
                (rounds - 1) as nat,
                (other - 1) as nat,
            );
        }
    }
}

/// A program that finishes needs no more than it used: with `extra` steps
/// more it ends in the same state and has those `extra` steps left over.
pub proof fn lemma_exec_extra_budget(p: Syntax, tape: TapeView, budget: nat, extra: nat)
    requires
        exec(p, tape, budget).finished,
    ensures
        exec(p, tape, budget + extra) == (Outcome {
            budget: exec(p, tape, budget).budget + extra,
            ..exec(p, tape, budget)
        }),
    decreases p, 0nat,
{
    match p {
        Syntax::Block(items) => lemma_exec_from_extra_budget(items, 0, tape, budget, extra),
        Syntax::Loop(body) => {
            lemma_exec_loop_extra_budget(*body, tape, budget, budget, extra);
            lemma_exec_loop_rounds(*body, tape, budget + extra, budget + extra, budget + extra);
        },
        _ => {},
    }
}

/// The same for programs that run one after the other.
pub proof fn lemma_exec_from_extra_budget(
    items: Seq<Syntax>,
    at: nat,
    tape: TapeView,
    budget: nat,
    extra: nat,
)
    requires
        exec_from(items, at, tape, budget).finished,
    ensures
        exec_from(items, at, tape, budget + extra) == (Outcome {
            budget: exec_from(items, at, tape, budget).budget + extra,
            ..exec_from(items, at, tape, budget)
        }),
    decreases items, items.len() - at,
{
    if at < items.len() {
        let first = exec(items[at as int], tape, budget);
        lemma_exec_extra_budget(items[at as int], tape, budget, extra);
        lemma_exec_from_extra_budget(items, at + 1, first.tape, first.budget, extra);
    }
}

/// The same for a loop.
pub proof fn lemma_exec_loop_extra_budget(
    body: Syntax,
    tape: TapeView,
    budget: nat,
    rounds: nat,
    extra: nat,
)
    requires
        budget <= rounds,
        exec_loop(body, tape, budget, rounds).finished,
    ensures
        exec_loop(body, tape, budget + extra, rounds + extra) == (Outcome {
            budget: exec_loop(body, tape, budget, rounds).budget + extra,
            ..exec_loop(body, tape, budget, rounds)
        }),
    decreases body, rounds,
{
    if tape.get() != 0 {
        let pass = exec(body, tape, (budget - 1) as nat);
        lemma_exec_budget(body, tape, (budget - 1) as nat);
        lemma_exec_extra_budget(body, tape, (budget - 1) as nat, extra);
        lemma_exec_loop_extra_budget(body, pass.tape, pass.budget, (rounds - 1) as nat, extra);
    }
}

/// A loop on a cell that holds zero is done at once: it changes nothing and
/// costs nothing.
pub proof fn lemma_loop_on_zero(body: Syntax, tape: TapeView, budget: nat)
    requires
        tape.get() == 0,
    ensures
        exec(Syntax::Loop(Box::new(body)), tape, budget) == (Outcome {
            tape,
            budget,
            finished: true,
        }),
{
}

/// A loop on a cell that does not hold zero makes a pass through its body,
/// which costs one step on top of what the body costs, and is then the same
/// loop again; where no step is left for the pass, it stops.
pub proof fn lemma_loop_unrolls(body: Syntax, tape: TapeView, budget: nat)
    requires
        tape.get() != 0,
    ensures
        exec(Syntax::Loop(Box::new(body)), tape, budget) == if budget == 0 {
            Outcome { tape, budget, finished: false }
        } else {
            let pass = exec(body, tape, (budget - 1) as nat);
            if pass.finished {
                exec(Syntax::Loop(Box::new(body)), pass.tape, pass.budget)
            } else {
                pass
            }
        },
{
    if budget != 0 {
        let pass = exec(body, tape, (budget - 1) as nat);
        lemma_exec_budget(body, tape, (budget - 1) as nat);
        if pass.finished {
            lemma_exec_loop_rounds(
                body,
                pass.tape,
                pass.budget,
                (budget - 1) as nat,
                pass.budget,
            );
        }
    }
}

/// The empty block is done at once.
pub proof fn lemma_empty_block(tape: TapeView, budget: nat)
    ensures
        exec(Syntax::Block(Seq::empty()), tape, budget) == (Outcome {
            tape,
            budget,
            finished: true,
        }),
{
}

/// A block runs its first program and then, where that came to its end, the
/// block of the others.
pub proof fn lemma_block_unrolls(first: Syntax, rest: Seq<Syntax>, tape: TapeView, budget: nat)
    ensures
        exec(Syntax::Block(seq![first] + rest), tape, budget) == {
            let begun = exec(first, tape, budget);
            if begun.finished {
                exec(Syntax::Block(rest), begun.tape, begun.budget)
            } else {
                begun
            }
        },
{
    let items = seq![first] + rest;
    let begun = exec(first, tape, budget);
    assert(items[0] == first);
    if begun.finished {
        lemma_exec_from_shifted(first, rest, 0, begun.tape, begun.budget);
    }
}

/// To run a list from a position on is to run the list without its first
/// program from the position before.
proof fn lemma_exec_from_shifted(
    first: Syntax,
    rest: Seq<Syntax>,
    at: nat,
    tape: TapeView,
    budget: nat,
)
    ensures
        exec_from(seq![first] + rest, at + 1, tape, budget) == exec_from(rest, at, tape, budget),
    decreases rest.len() - at,
{
    let items = seq![first] + rest;
    if at < rest.len() {
        assert(items[at as int + 1] == rest[at as int]);
        let next = exec(rest[at as int], tape, budget);
        if next.finished {
            lemma_exec_from_shifted(first, rest, at + 1, next.tape, next.budget);
        }
    }
}

/// A loop never finishes where it starts on a cell that is not zero and its
/// body, started on such a cell, never ends on a zero: whatever the budget,
/// the run spends all of it and is not done.
pub proof fn lemma_loop_never_finishes(body: Syntax, tape: TapeView, budget: nat)
    requires
        tape.get() != 0,
        forall|t: TapeView, b: nat|
            t.get() != 0 && (#[trigger] exec(body, t, b)).finished ==> exec(body, t, b).tape.get()
                != 0,
    ensures
        !exec(Syntax::Loop(Box::new(body)), tape, budget).finished,
        exec(Syntax::Loop(Box::new(body)), tape, budget).budget == 0,
{
    lemma_loop_never_finishes_within(body, tape, budget, budget);
}

/// The same, for any bound on the passes that is at least the budget.
proof fn lemma_loop_never_finishes_within(body: Syntax, tape: TapeView, budget: nat, rounds: nat)
    requires
        budget <= rounds,
        tape.get() != 0,
        forall|t: TapeView, b: nat|
            t.get() != 0 && (#[trigger] exec(body, t, b)).finished ==> exec(body, t, b).tape.get()
                != 0,
    ensures
        !exec_loop(body, tape, budget, rounds).finished,
        exec_loop(body, tape, budget, rounds).budget == 0,
    decreases rounds,
{
    if budget != 0 {
        let pass = exec(body, tape, (budget - 1) as nat);
        lemma_exec_budget(body, tape, (budget - 1) as nat);
        if pass.finished {
            lemma_loop_never_finishes_within(body, pass.tape, pass.budget, (rounds - 1) as nat);
        }
    }
}

} // verus!
