use tapelang::instruction::spend;
use tapelang::instruction::Instruction;
use tapelang::instruction::{Dec, Inc, Loop, Nop, Read, Shl, Shr, Then, Write};
use tapelang::machine::run;
use tapelang::machine::run_with;
use tapelang::machine::Status;
use tapelang::memory::Memory;
use tapelang::parser::parse;
use tapelang::parser::Strictness;
use tapelang::parser::SyntaxError;
use tapelang::parser::SyntaxErrorKind;
use tapelang::program::Program;
use tapelang::tape::Tape;
use tapelang::uint::Uint;

fn uint(n: usize) -> Uint {
    Uint::from_usize(n)
}

fn row(values: &[usize]) -> Memory {
    let mut memory = Memory::new();
    for v in values {
        memory.push(uint(*v));
    }
    memory
}

fn plain(memory: &Memory) -> Vec<usize> {
    memory.reify().unwrap()
}

/// Runs `source` on a blank tape and gives the final state and what is left
/// of the budget.
fn final_state(source: &str, input: &[usize], budget: usize) -> (Tape, bool, usize) {
    let program = parse(source, Strictness::Lenient).unwrap();
    let mut tape = Tape::blank(row(input));
    let mut left = uint(budget);
    let finished = program.run(&mut tape, &mut left);
    (tape, finished, left.value().unwrap())
}

#[test]
fn three_increments() {
    let (tape, finished, _) = final_state("+++", &[], 1000);
    assert!(finished);
    assert_eq!(tape.memory().get(&uint(0)).value(), Some(3));
    assert_eq!(plain(tape.output()), Vec::<usize>::new());
    assert_eq!(tape.reify(), Some((0, vec![3], vec![], vec![])));

    let (output, status) = run("+++", Memory::new(), uint(1000));
    assert_eq!(status, Status::Finished);
    assert_eq!(plain(&output), Vec::<usize>::new());
}

#[test]
fn multiply_by_repeated_addition() {
    let (tape, finished, left) = final_state("+++[>++++<-]", &[], 1000);
    assert!(finished);
    assert_eq!(tape.memory().get(&uint(0)).value(), Some(0));
    assert_eq!(tape.memory().get(&uint(1)).value(), Some(12));
    assert_eq!(tape.reify(), Some((0, vec![0, 12], vec![], vec![])));
    // three increments, then three passes of one step and seven instructions
    assert_eq!(left, 1000 - 27);
}

#[test]
fn read_on_empty_input_changes_nothing() {
    let (tape, finished, left) = final_state(",", &[], 10);
    assert!(finished);
    assert_eq!(left, 9);
    assert_eq!(tape.memory().get(&uint(0)).value(), Some(0));
    assert_eq!(tape.reify(), Some((0, vec![], vec![], vec![])));

    let (output, status) = run(",", Memory::new(), uint(10));
    assert_eq!(status, Status::Finished);
    assert_eq!(plain(&output), Vec::<usize>::new());
}

#[test]
fn unmatched_open_bracket_is_refused() {
    let (output, status) = run("[++", Memory::new(), uint(1000));
    assert_eq!(
        status,
        Status::SyntaxError(SyntaxError { kind: SyntaxErrorKind::UnmatchedOpen, position: 0 })
    );
    assert_eq!(plain(&output), Vec::<usize>::new());
    // Nothing ran: not even with no budget at all is the answer another.
    let (_, status) = run("[++", Memory::new(), uint(0));
    assert_eq!(
        status,
        Status::SyntaxError(SyntaxError { kind: SyntaxErrorKind::UnmatchedOpen, position: 0 })
    );
}

#[test]
fn endless_loop_spends_the_whole_budget() {
    for n in [0usize, 1, 2, 3, 10, 1001] {
        let (tape, finished, left) = final_state("+[]", &[], n);
        assert!(!finished);
        assert_eq!(left, 0);
        if n >= 1 {
            assert_eq!(tape.memory().get(&uint(0)).value(), Some(1));
        }
        let (_, status) = run("+[]", Memory::new(), uint(n));
        assert_eq!(status, Status::BudgetExhausted);
    }
    // A body that moves and comes back, and adds to the cell it tests.
    for n in [5usize, 6, 7, 100] {
        let (_, finished, left) = final_state("+[>+<+]", &[], n);
        assert!(!finished);
        assert_eq!(left, 0);
    }
}

#[test]
fn budget_is_counted_exactly() {
    // "+++" needs three steps.
    let (_, status) = run("+++", Memory::new(), uint(3));
    assert_eq!(status, Status::Finished);
    let (_, status) = run("+++", Memory::new(), uint(2));
    assert_eq!(status, Status::BudgetExhausted);
    // "+++[>++++<-]" needs 27.
    let (_, finished, left) = final_state("+++[>++++<-]", &[], 27);
    assert!(finished);
    assert_eq!(left, 0);
    let (tape, finished, left) = final_state("+++[>++++<-]", &[], 26);
    assert!(!finished);
    assert_eq!(left, 0);
    assert_eq!(tape.reify(), Some((0, vec![1, 12], vec![], vec![])));
    // The empty program needs none.
    let (_, status) = run("", Memory::new(), uint(0));
    assert_eq!(status, Status::Finished);
    // A loop on a zero cell needs none either.
    let (_, status) = run("[+]", Memory::new(), uint(0));
    assert_eq!(status, Status::Finished);
}

#[test]
fn exhausted_run_keeps_its_output() {
    let (output, status) = run("+.+.+.[.]", Memory::new(), uint(10));
    assert_eq!(status, Status::BudgetExhausted);
    // six steps for "+.+.+.", then two passes of two steps each
    assert_eq!(plain(&output), vec![1, 2, 3, 3, 3]);
}

#[test]
fn echo_reads_and_writes() {
    let (output, status) = run(",.,.,.,.", row(&[7, 0, 9]), uint(100));
    assert_eq!(status, Status::Finished);
    // the fourth read finds nothing and leaves the 9 in the cell
    assert_eq!(plain(&output), vec![7, 0, 9, 9]);

    let (output, status) = run(",[.,]", row(&[3, 1, 4, 1, 5, 0, 9]), uint(1000));
    assert_eq!(status, Status::Finished);
    assert_eq!(plain(&output), vec![3, 1, 4, 1, 5]);
}

#[test]
fn decrement_and_shift_left_saturate() {
    let (tape, finished, _) = final_state("-<-<", &[], 100);
    assert!(finished);
    assert_eq!(tape.pointer().value(), Some(0));
    assert_eq!(tape.memory().get(&uint(0)).value(), Some(0));
    assert_eq!(tape.reify(), Some((0, vec![0], vec![], vec![])));

    let (tape, _, _) = final_state(">>><<<<<>", &[], 100);
    assert_eq!(tape.pointer().value(), Some(1));
}

#[test]
fn writing_far_right_fills_with_zeros() {
    let (tape, _, _) = final_state(">>>+", &[], 100);
    assert_eq!(tape.reify(), Some((3, vec![0, 0, 0, 1], vec![], vec![])));
    // Reading a cell does not make it.
    let (tape, _, _) = final_state(">>>.", &[], 100);
    assert_eq!(tape.reify(), Some((3, vec![], vec![], vec![0])));
}

#[test]
fn cells_have_no_upper_bound() {
    let (output, status) = run(",+.", {
        let mut input = Memory::new();
        input.push(Uint::from_u64(u64::MAX));
        input
    }, uint(10));
    assert_eq!(status, Status::Finished);
    assert_eq!(output.reify(), None);
    assert_eq!(output.len(), 1);
    let cell = output.get(&uint(0));
    assert_eq!(cell.to_u64(), None);
    assert_eq!(cell.prev().to_u64(), Some(u64::MAX));
}

#[test]
fn strict_mode_refuses_comments() {
    let (_, status) = run_with("+ +", Strictness::Strict, Memory::new(), uint(10));
    assert_eq!(
        status,
        Status::SyntaxError(SyntaxError { kind: SyntaxErrorKind::UnknownCharacter, position: 1 })
    );
    let (output, status) = run_with("+ +.", Strictness::Lenient, Memory::new(), uint(10));
    assert_eq!(status, Status::Finished);
    assert_eq!(plain(&output), vec![2]);
    let (output, status) = run_with("++.", Strictness::Strict, Memory::new(), uint(10));
    assert_eq!(status, Status::Finished);
    assert_eq!(plain(&output), vec![2]);
}

#[test]
fn typed_program_runs_like_its_text() {
    // +++[>++++<-]
    let typed = Then(
        Inc,
        Then(
            Inc,
            Then(Inc, Loop(Then(Shr, Then(Inc, Then(Inc, Then(Inc, Then(Inc, Then(Shl, Dec)))))))),
        ),
    );
    let mut tape = Tape::blank(Memory::new());
    let mut left = uint(1000);
    assert!(typed.apply_to(&mut tape, &mut left));
    assert_eq!(tape.reify(), Some((0, vec![0, 12], vec![], vec![])));
    assert_eq!(left.value(), Some(1000 - 27));

    let parsed = parse("+++[>++++<-]", Strictness::Strict).unwrap();
    let mut tape = Tape::blank(Memory::new());
    let mut left = uint(1000);
    assert!(parsed.apply_to(&mut tape, &mut left));
    assert_eq!(tape.reify(), Some((0, vec![0, 12], vec![], vec![])));
    assert_eq!(left.value(), Some(1000 - 27));
}

#[test]
fn each_instruction_costs_one_step() {
    let mut tape = Tape::blank(row(&[5]));
    let mut left = uint(7);
    assert!(Nop.apply_to(&mut tape, &mut left));
    assert!(Read.apply_to(&mut tape, &mut left));
    assert!(Write.apply_to(&mut tape, &mut left));
    assert!(Inc.apply_to(&mut tape, &mut left));
    assert!(Shr.apply_to(&mut tape, &mut left));
    assert!(Dec.apply_to(&mut tape, &mut left));
    assert!(Shl.apply_to(&mut tape, &mut left));
    assert_eq!(left.value(), Some(0));
    assert_eq!(tape.reify(), Some((0, vec![6, 0], vec![], vec![5])));
    assert!(!Nop.apply_to(&mut tape, &mut left));
    assert!(!Inc.apply_to(&mut tape, &mut left));
    assert_eq!(tape.reify(), Some((0, vec![6, 0], vec![], vec![5])));
}

#[test]
fn tape_steps_one_by_one() {
    let mut tape = Tape::new(uint(2), row(&[1, 2, 3]), row(&[9, 8]), row(&[4]));
    assert_eq!(tape.get().value(), Some(3));
    tape.inc();
    assert_eq!(tape.get().value(), Some(4));
    tape.dec();
    tape.dec();
    assert_eq!(tape.get().value(), Some(2));
    tape.write();
    tape.shl();
    tape.read();
    tape.shr();
    tape.shr();
    tape.shr();
    tape.read();
    tape.read();
    assert_eq!(tape.reify(), Some((4, vec![1, 9, 2, 0, 8], vec![], vec![4, 2])));
    assert_eq!(plain(tape.input()), Vec::<usize>::new());
    assert_eq!(plain(&tape.into_output()), vec![4, 2]);
}

#[test]
fn loop_on_the_tape_counts_down() {
    let mut tape = Tape::new(uint(0), row(&[4]), Memory::new(), Memory::new());
    let mut left = uint(100);
    assert!(tape.apply_while_nonzero(&Then(Dec, Write), &mut left));
    // four passes of one step and two instructions
    assert_eq!(left.value(), Some(100 - 12));
    assert_eq!(tape.reify(), Some((0, vec![0], vec![], vec![3, 2, 1, 0])));
}

#[test]
fn spend_takes_one_step() {
    let mut budget = uint(2);
    assert!(spend(&mut budget));
    assert_eq!(budget.value(), Some(1));
    assert!(spend(&mut budget));
    assert_eq!(budget.value(), Some(0));
    assert!(!spend(&mut budget));
    assert_eq!(budget.value(), Some(0));
}

#[test]
fn more_budget_changes_nothing_but_what_is_left() {
    let (tape, finished, left) = final_state("+++[>++++<-]>.", &[], 29);
    assert!(finished);
    assert_eq!(left, 0);
    let (more, finished, left) = final_state("+++[>++++<-]>.", &[], 29 + 71);
    assert!(finished);
    assert_eq!(left, 71);
    assert_eq!(tape.reify(), more.reify());
    assert_eq!(tape.reify(), Some((1, vec![0, 12], vec![], vec![12])));
}

#[test]
fn program_built_by_hand_runs() {
    let program = Program::Block(vec![
        Program::Read,
        Program::Loop(Box::new(Program::Block(vec![
            Program::Dec,
            Program::Shr,
            Program::Inc,
            Program::Inc,
            Program::Shl,
        ]))),
        Program::Nop,
        Program::Shr,
        Program::Write,
    ]);
    let mut tape = Tape::blank(row(&[21]));
    let mut left = uint(1000);
    assert!(program.run(&mut tape, &mut left));
    assert_eq!(tape.reify(), Some((1, vec![0, 42], vec![], vec![42])));
    // one read, 21 passes of one step and five instructions, and three more
    assert_eq!(left.value(), Some(1000 - (1 + 21 * 6 + 3)));
}

#[test]
fn tapes_compare_part_by_part() {
    let tape = Tape::new(uint(1), row(&[1, 2]), row(&[3]), row(&[4]));
    let mut copy = tape.clone();
    assert!(copy == tape);
    copy.shl();
    assert!(copy != tape);
    copy.shr();
    assert!(copy == tape);
    copy.write();
    assert!(copy != tape);
    assert!(Tape::blank(Memory::new()) == Tape::new(uint(0), row(&[]), row(&[]), row(&[])));
}
