//! From source text to a program.
//!
//! The text is read once, from left to right. `+ - < > , .` are the
//! instructions without parts, `[` opens a loop and `]` closes the loop that
//! was opened last. Every other character is a comment, which is passed over
//! or refused, as the caller asks.

use crate::program::Program;
use crate::semantics::Syntax;
use vstd::prelude::*;
use vstd::string::StringSliceAdditionalSpecFns;

verus! {

/// What becomes of a character that is no instruction.
#[derive(Clone, Copy, Debug, PartialEq, Eq, Structural)]
pub enum Strictness {
    /// It is passed over.
    Lenient,
    /// It is refused.
    Strict,
}

/// What is wrong with a source text.
#[derive(Clone, Copy, Debug, PartialEq, Eq, Structural)]
pub enum SyntaxErrorKind {
    /// A `[` that nothing closes.
    UnmatchedOpen,
    /// A `]` where no loop is open.
    UnmatchedClose,
    /// A character that is no instruction, in a text that may hold no other.
    UnknownCharacter,
}

/// Why a source text is no program.
#[derive(Clone, Copy, Debug, PartialEq, Eq, Structural)]
pub struct SyntaxError {
    /// What is wrong.
    pub kind: SyntaxErrorKind,
    /// The offset of the character in question, in bytes from the start of
    /// the text.
    pub position: usize,
}

/// The character `+`, which adds one to a cell.
pub const PLUS: u8 = 43;

/// The character `-`, which takes one from a cell.
pub const MINUS: u8 = 45;

/// The character `<`, which moves the pointer to the left.
pub const LESS: u8 = 60;

/// The character `>`, which moves the pointer to the right.
pub const GREATER: u8 = 62;

/// The character `,`, which reads a number.
pub const COMMA: u8 = 44;

/// The character `.`, which writes a number.
pub const DOT: u8 = 46;

/// The character `[`, which opens a loop.
pub const OPEN: u8 = 91;

/// The character `]`, which closes a loop.
pub const CLOSE: u8 = 93;

/// The instruction that the character `c` stands for, where it is one of the
/// six without parts.
pub open spec fn primitive(c: u8) -> Option<Syntax> {
    if c == PLUS {
        Some(Syntax::Inc)
    } else if c == MINUS {
        Some(Syntax::Dec)
    } else if c == LESS {
        Some(Syntax::Shl)
    } else if c == GREATER {
        Some(Syntax::Shr)
    } else if c == COMMA {
        Some(Syntax::Read)
    } else if c == DOT {
        Some(Syntax::Write)
    } else {
        None
    }
}

/// A loop that is open while the text inside it is read.
pub struct Frame {
    /// Where its `[` stands.
    pub opened_at: usize,
    /// The instructions that stood before that `[`, in the list to which the
    /// loop will be added when it is closed.
    pub before: Seq<Syntax>,
}

/// What reading `source` from the offset `at` on gives, with the loops of
/// `open` not yet closed, the innermost last, and with `items` read so far at
/// the innermost level.
pub open spec fn scan(
    source: Seq<u8>,
    strict: bool,
    at: nat,
    open: Seq<Frame>,
    items: Seq<Syntax>,
) -> Result<Syntax, SyntaxError>
    decreases source.len() - at,
{
    if at >= source.len() {
        if open.len() == 0 {
            Ok(Syntax::Block(items))
        } else {
            Err(SyntaxError { kind: SyntaxErrorKind::UnmatchedOpen, position: open.last().opened_at })
        }
    } else {
        let c = source[at as int];
        if c == OPEN {
            scan(
                source,
                strict,
                at + 1,
                open.push(Frame { opened_at: at as usize, before: items }),
                Seq::empty(),
            )
        } else if c == CLOSE {
            if open.len() == 0 {
                Err(SyntaxError { kind: SyntaxErrorKind::UnmatchedClose, position: at as usize })
            } else {
                scan(
                    source,
                    strict,
                    at + 1,
                    open.drop_last(),
                    open.last().before.push(Syntax::Loop(Box::new(Syntax::Block(items)))),
                )
            }
        } else {
            match primitive(c) {
                Some(p) => scan(source, strict, at + 1, open, items.push(p)),
                None => if strict {
                    Err(
                        SyntaxError {
                            kind: SyntaxErrorKind::UnknownCharacter,
                            position: at as usize,
                        },
                    )
                } else {
                    scan(source, strict, at + 1, open, items)
                },
            }
        }
    }
}

/// The program that `source` is, or what is wrong with it.
///
/// The program is a block. Each loop in it has a block as its body.
pub open spec fn parse_spec(source: Seq<u8>, strict: bool) -> Result<Syntax, SyntaxError> {
    scan(source, strict, 0, Seq::empty(), Seq::empty())
}

/// The trees of a list of programs.
pub open spec fn trees(items: Seq<Program>) -> Seq<Syntax> {
    Seq::new(items.len(), |k: int| items[k]@)
}

/// The open loops as the parser holds them.
pub open spec fn frames(open: Seq<(usize, Vec<Program>)>) -> Seq<Frame> {
    Seq::new(open.len(), |k: int| Frame { opened_at: open[k].0, before: trees(open[k].1@) })
}

/// The instruction that the character `c` stands for, where it is one of the
/// six without parts.
fn primitive_of(c: u8) -> (r: Option<Program>)
    ensures
        match r {
            Some(p) => primitive(c) == Some(p@),
            None => primitive(c) is None,
        },
{
    if c == PLUS {
        Some(Program::Inc)
    } else if c == MINUS {
        Some(Program::Dec)
    } else if c == LESS {
        Some(Program::Shl)
    } else if c == GREATER {
        Some(Program::Shr)
    } else if c == COMMA {
        Some(Program::Read)
    } else if c == DOT {
        Some(Program::Write)
    } else {
        None
    }
}

/// Reads a program from the bytes of its source text.
pub fn parse_bytes(source: &[u8], strictness: Strictness) -> (r: Result<Program, SyntaxError>)
    ensures
        match parse_spec(source@, strictness == Strictness::Strict) {
            Ok(tree) => r matches Ok(program) && program@ == tree,
            Err(error) => r == Err::<Program, SyntaxError>(error),
        },
{
    let strict = strictness == Strictness::Strict;
    let mut open: Vec<(usize, Vec<Program>)> = Vec::new();
    let mut items: Vec<Program> = Vec::new();
    let mut at: usize = 0;
    proof {
        assert(frames(open@) =~= Seq::<Frame>::empty());
        assert(trees(items@) =~= Seq::<Syntax>::empty());
    }
    while at < source.len()
        invariant
            at <= source.len(),
            strict == (strictness == Strictness::Strict),
            scan(source@, strict, at as nat, frames(open@), trees(items@)) == parse_spec(
                source@,
                strict,
            ),
        decreases source.len() - at,
    {
        let c = source[at];
        let ghost open_before = open@;
        let ghost items_before = items@;
        if c == OPEN {
            open.push((at, items));
            items = Vec::new();
            proof {
                assert(frames(open@) =~= frames(open_before).push(
                    Frame { opened_at: at, before: trees(items_before) },
                ));
                assert(trees(items@) =~= Seq::<Syntax>::empty());
            }
        } else if c == CLOSE {
            match open.pop() {
                Some((_, mut before)) => {
                    let ghost before_view = before@;
                    let body = Program::Block(items);
                    proof {
                        assert(body@ == Syntax::Block(trees(items_before))) by {
                            assert(body@->Block_0 =~= trees(items_before));
                        }
                    }
                    before.push(Program::Loop(Box::new(body)));
                    items = before;
                    proof {
                        assert(frames(open@) =~= frames(open_before).drop_last());
                        assert(frames(open_before).last().before == trees(before_view));
                        assert(trees(items@) =~= trees(before_view).push(
                            Syntax::Loop(Box::new(Syntax::Block(trees(items_before)))),
                        ));
                    }
                },
                None => {
                    proof {
                        assert(frames(open_before).len() == 0);
                    }
                    return Err(SyntaxError { kind: SyntaxErrorKind::UnmatchedClose, position: at });
                },
            }
        } else {
            match primitive_of(c) {
                Some(p) => {
                    let ghost tree = p@;
                    items.push(p);
                    proof {
                        assert(trees(items@) =~= trees(items_before).push(tree));
                    }
                },
                None => {
                    if strict {
                        return Err(
                            SyntaxError { kind: SyntaxErrorKind::UnknownCharacter, position: at },
                        );
                    }
                },
            }
        }
        at += 1;
    }
    if open.len() > 0 {
        let opened_at = open[open.len() - 1].0;
        proof {
            assert(frames(open@).last().opened_at == opened_at);
        }
        Err(SyntaxError { kind: SyntaxErrorKind::UnmatchedOpen, position: opened_at })
    } else {
        let program = Program::Block(items);
        proof {
            assert(frames(open@).len() == 0);
            assert(program@->Block_0 =~= trees(items@));
        }
        Ok(program)
    }
}

/// Reads a program from its source text.
pub fn parse(source: &str, strictness: Strictness) -> (r: Result<Program, SyntaxError>)
    ensures
        match parse_spec(source.spec_bytes(), strictness == Strictness::Strict) {
            Ok(tree) => r matches Ok(program) && program@ == tree,
            Err(error) => r == Err::<Program, SyntaxError>(error),
        },
{
    parse_bytes(source.as_bytes(), strictness)
}

} // verus!
