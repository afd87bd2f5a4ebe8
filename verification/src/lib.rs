//! An interpreter for a small tape language: a pointer moves over a tape of
//! natural numbers, changes the cell under it, reads from an input queue and
//! writes to an output log, and loops run for as long as the cell under the
//! pointer is not zero.
//!
//! Every number in the machine is a [`uint::Uint`], a natural number without
//! an upper bound. Taking one from zero leaves zero and moving left of cell
//! zero stays at cell zero, so no instruction can fail. A program may run for
//! ever, so every run is given a number of steps that it may take.
//!
//! * [`uint`]: the numbers and their arithmetic.
//! * [`memory`]: rows of numbers, as tape, input queue and output log.
//! * [`tape`]: the state of the machine and what each instruction does to it.
//! * [`semantics`]: what a program means, for a given number of steps.
//! * [`instruction`]: the instructions as types, for programs whose shape is
//!   known when the code is compiled.
//! * [`program`]: programs as trees, for programs that are known only when
//!   they run.
//! * [`parser`]: from source text to a program.
//! * [`source`]: from a program to its source text, and back.
//! * [`brackets`]: which texts are programs.
//! * [`machine`]: running a source text from start to end.

pub mod brackets;
pub mod instruction;
pub mod machine;
pub mod memory;
pub mod parser;
pub mod program;
pub mod semantics;
pub mod source;
pub mod tape;
pub mod uint;
