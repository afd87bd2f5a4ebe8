//! From a program back to its source text, and how reading and writing
//! answer each other.

use crate::parser::parse_spec;
use crate::parser::primitive;
use crate::parser::scan;
use crate::parser::Frame;
use crate::parser::SyntaxError;
use crate::parser::CLOSE;
use crate::parser::COMMA;
use crate::parser::DOT;
use crate::parser::GREATER;
use crate::parser::LESS;
use crate::parser::MINUS;
use crate::parser::OPEN;
use crate::parser::PLUS;
use crate::program::Program;
use crate::semantics::Syntax;
use vstd::prelude::*;

verus! {

/// Whether `c` is one of the eight characters of the language.
pub open spec fn is_operator(c: u8) -> bool {
    c == OPEN || c == CLOSE || primitive(c) is Some
}

/// The characters of the language in `source` from the offset `at` on, in
/// their order, without the comments between them.
pub open spec fn operators(source: Seq<u8>, at: nat) -> Seq<u8>
    decreases source.len() - at,
{
    if at >= source.len() {
        Seq::empty()
    } else if is_operator(source[at as int]) {
        seq![source[at as int]] + operators(source, at + 1)
    } else {
        operators(source, at + 1)
    }
}

/// The source text of the program `p`, without a comment in it.
pub open spec fn text(p: Syntax) -> Seq<u8>
    decreases p, 0nat,
{
    match p {
        Syntax::Nop => Seq::empty(),
        Syntax::Dec => seq![MINUS],
        Syntax::Inc => seq![PLUS],
        Syntax::Shl => seq![LESS],
        Syntax::Shr => seq![GREATER],
        Syntax::Read => seq![COMMA],
        Syntax::Write => seq![DOT],
        Syntax::Block(items) => texts(items, 0),
        Syntax::Loop(body) => seq![OPEN] + text(*body) + seq![CLOSE],
    }
}

/// The source texts of the programs of `items` from position `from` on, one
/// after the other.
pub open spec fn texts(items: Seq<Syntax>, from: nat) -> Seq<u8>
    decreases items, items.len() - from,
{
    if from >= items.len() {
        Seq::empty()
    } else {
        text(items[from as int]) + texts(items, from + 1)
    }
}

/// Whether `p` has the shape of a program that was read from a text: a block
/// of instructions, none of them a block itself or an instruction that does
/// nothing, and every loop among them with such a block as its body.
pub open spec fn is_parsed(p: Syntax) -> bool
    decreases p,
{
    p matches Syntax::Block(items) && forall|k: int|
        0 <= k < items.len() ==> is_item(#[trigger] items[k])
}

/// Whether `p` can stand in a block of a program that was read from a text.
pub open spec fn is_item(p: Syntax) -> bool
    decreases p,
{
    match p {
        Syntax::Nop => false,
        Syntax::Block(_) => false,
        Syntax::Loop(body) => is_parsed(*body),
        _ => true,
    }
}

/// Whether every program of `items` can stand in a block of a program that
/// was read from a text.
pub open spec fn are_items(items: Seq<Syntax>) -> bool {
    forall|k: int| 0 <= k < items.len() ==> is_item(#[trigger] items[k])
}

/// The text that was read when the parser stands inside the loops of `open`:
/// for each of them what stood before its `[`, and that `[`.
pub open spec fn opened(open: Seq<Frame>) -> Seq<u8>
    decreases open.len(),
{
    if open.len() == 0 {
        Seq::empty()
    } else {
        opened(open.drop_last()) + texts(open.last().before, 0) + seq![OPEN]
    }
}

/// Whether every list of instructions that `open` holds is made of
/// instructions that can stand in a block.
pub open spec fn are_frames(open: Seq<Frame>) -> bool {
    forall|k: int| 0 <= k < open.len() ==> are_items(#[trigger] open[k].before)
}

proof fn lemma_texts_push(items: Seq<Syntax>, p: Syntax, from: nat)
    requires
        from <= items.len(),
    ensures
        texts(items.push(p), from) == texts(items, from) + text(p),
    decreases items.len() - from,
{
    let longer = items.push(p);
    if from < items.len() {
        lemma_texts_push(items, p, from + 1);
        assert(longer[from as int] == items[from as int]);
        assert(texts(longer, from) == text(items[from as int]) + texts(longer, from + 1));
        assert(texts(longer, from) =~= texts(items, from) + text(p));
    } else {
        assert(texts(longer, from + 1) =~= Seq::<u8>::empty());
        assert(texts(longer, from) == text(p) + texts(longer, from + 1));
        assert(texts(longer, from) =~= texts(items, from) + text(p));
    }
}

proof fn lemma_primitive_text(c: u8)
    requires
        primitive(c) is Some,
    ensures
        text(primitive(c)->0) == seq![c],
        is_item(primitive(c)->0),
{
}

/// What the parser makes of a text is made of instructions that can stand in
/// a block, where what it holds when it starts is.
proof fn lemma_scan_is_parsed(
    source: Seq<u8>,
    strict: bool,
    at: nat,
    open: Seq<Frame>,
    items: Seq<Syntax>,
)
    requires
        are_frames(open),
        are_items(items),
        scan(source, strict, at, open, items) is Ok,
    ensures
        is_parsed(scan(source, strict, at, open, items)->Ok_0),
    decreases source.len() - at,
{
    if at < source.len() {
        let c = source[at as int];
        if c == OPEN {
            let deeper = open.push(Frame { opened_at: at as usize, before: items });
            assert(are_frames(deeper));
            lemma_scan_is_parsed(source, strict, at + 1, deeper, Seq::empty());
        } else if c == CLOSE {
            let body = Syntax::Block(items);
            let joined = open.last().before.push(Syntax::Loop(Box::new(body)));
            assert(is_parsed(body));
            assert(are_items(open.last().before));
            assert(are_items(joined));
            assert(are_frames(open.drop_last()));
            lemma_scan_is_parsed(source, strict, at + 1, open.drop_last(), joined);
        } else {
            match primitive(c) {
                Some(p) => {
                    lemma_primitive_text(c);
                    assert(are_items(items.push(p)));
                    lemma_scan_is_parsed(source, strict, at + 1, open, items.push(p));
                },
                None => {
                    lemma_scan_is_parsed(source, strict, at + 1, open, items);
                },
            }
        }
    }
}

/// The text of what the parser makes is the text that it has read and the
/// characters of the language in what it still has to read.
proof fn lemma_scan_text(
    source: Seq<u8>,
    strict: bool,
    at: nat,
    open: Seq<Frame>,
    items: Seq<Syntax>,
)
    requires
        scan(source, strict, at, open, items) is Ok,
    ensures
        text(scan(source, strict, at, open, items)->Ok_0) == opened(open) + texts(items, 0)
            + operators(source, at),
    decreases source.len() - at,
{
    let result = scan(source, strict, at, open, items)->Ok_0;
    let so_far = opened(open) + texts(items, 0);
    if at >= source.len() {
        assert(text(result) =~= so_far + operators(source, at));
    } else {
        let c = source[at as int];
        if c == OPEN {
            let deeper = open.push(Frame { opened_at: at as usize, before: items });
            lemma_scan_text(source, strict, at + 1, deeper, Seq::empty());
            assert(deeper.drop_last() =~= open);
            assert(opened(deeper) == so_far + seq![OPEN]);
            assert(texts(Seq::<Syntax>::empty(), 0) =~= Seq::<u8>::empty());
            assert(text(result) =~= so_far + operators(source, at));
        } else if c == CLOSE {
            let body = Syntax::Block(items);
            let before = open.last().before;
            let joined = before.push(Syntax::Loop(Box::new(body)));
            lemma_scan_text(source, strict, at + 1, open.drop_last(), joined);
            lemma_texts_push(before, Syntax::Loop(Box::new(body)), 0);
            assert(text(body) == texts(items, 0));
            assert(text(Syntax::Loop(Box::new(body))) == seq![OPEN] + text(body) + seq![CLOSE]);
            assert(text(result) =~= so_far + operators(source, at));
        } else {
            match primitive(c) {
                Some(p) => {
                    lemma_primitive_text(c);
                    lemma_scan_text(source, strict, at + 1, open, items.push(p));
                    lemma_texts_push(items, p, 0);
                    assert(text(result) =~= so_far + operators(source, at));
                },
                None => {
                    lemma_scan_text(source, strict, at + 1, open, items);
                },
            }
        }
    }
}

/// A program that was read from a text is a block of instructions, and every
/// loop in it has such a block as its body.
pub proof fn lemma_parse_is_parsed(source: Seq<u8>, strict: bool)
    requires
        parse_spec(source, strict) is Ok,
    ensures
        is_parsed(parse_spec(source, strict)->Ok_0),
{
    lemma_scan_is_parsed(source, strict, 0, Seq::empty(), Seq::empty());
}

/// Reading loses nothing and adds nothing: the text of a program that was
/// read from `source` is `source` without its comments.
pub proof fn lemma_parse_keeps_operators(source: Seq<u8>, strict: bool)
    requires
        parse_spec(source, strict) is Ok,
    ensures
        text(parse_spec(source, strict)->Ok_0) == operators(source, 0),
{
    lemma_scan_text(source, strict, 0, Seq::empty(), Seq::empty());
    assert(opened(Seq::<Frame>::empty()) =~= Seq::<u8>::empty());
    assert(texts(Seq::<Syntax>::empty(), 0) =~= Seq::<u8>::empty());
    assert(Seq::<u8>::empty() + Seq::<u8>::empty() + operators(source, 0) =~= operators(source, 0));
}

/// The parser reads the text of a list of instructions as that list: where
/// the text of `more` from position `from` on stands in `source` at the
/// offset `at`, the parser that comes to `at` goes on behind that text with
/// those instructions added to what it holds.
proof fn lemma_scan_reads(
    source: Seq<u8>,
    strict: bool,
    at: nat,
    open: Seq<Frame>,
    items: Seq<Syntax>,
    more: Seq<Syntax>,
    from: nat,
)
    requires
        from <= more.len(),
        are_items(more),
        at + texts(more, from).len() <= source.len(),
        source.subrange(at as int, at as int + texts(more, from).len()) == texts(more, from),
    ensures
        scan(source, strict, at, open, items) == scan(
            source,
            strict,
            at + texts(more, from).len(),
            open,
            items + more.subrange(from as int, more.len() as int),
        ),
    decreases more, more.len() - from,
{
    let all = texts(more, from);
    let read = source.subrange(at as int, at as int + all.len());
    let left = more.subrange(from as int, more.len() as int);
    if from >= more.len() {
        assert(items + left =~= items);
    } else {
        let first = more[from as int];
        let rest = texts(more, from + 1);
        let next = more.subrange(from as int + 1, more.len() as int);
        assert(all == text(first) + rest);
        assert(is_item(first));
        assert(items.push(first) + next =~= items + left);
        match first {
            Syntax::Loop(body) => {
                let inner = body->Block_0;
                let inside = texts(inner, 0);
                let deeper = open.push(Frame { opened_at: at as usize, before: items });
                let close = at + 1 + inside.len();
                assert(*body == Syntax::Block(inner));
                assert(text(*body) == inside);
                assert(text(first) == seq![OPEN] + text(*body) + seq![CLOSE]);
                assert(are_items(inner));
                assert(source[at as int] == read[0]);
                assert(source[close as int] == read[1 + inside.len() as int]);
                assert(source.subrange(at as int + 1, close as int) =~= inside) by {
                    assert forall|k: int| 0 <= k < inside.len() implies source[at + 1 + k]
                        == inside[k] by {
                        assert(source[at + 1 + k] == read[1 + k]);
                    }
                }
                lemma_scan_reads(source, strict, at + 1, deeper, Seq::empty(), inner, 0);
                assert(Seq::<Syntax>::empty() + inner.subrange(0, inner.len() as int) =~= inner);
                assert(deeper.drop_last() =~= open);
                assert(scan(source, strict, at, open, items) == scan(
                    source,
                    strict,
                    close + 1,
                    open,
                    items.push(first),
                ));
                assert(source.subrange(close as int + 1, close as int + 1 + rest.len()) =~= rest) by {
                    assert forall|k: int| 0 <= k < rest.len() implies source[close + 1 + k]
                        == rest[k] by {
                        assert(source[close + 1 + k] == read[2 + inside.len() + k]);
                    }
                }
                lemma_scan_reads(source, strict, close + 1, open, items.push(first), more, from + 1);
            },
            _ => {
                let c = text(first)[0];
                assert(text(first) == seq![c]);
                assert(primitive(c) == Some(first));
                assert(source[at as int] == read[0]);
                assert(source.subrange(at as int + 1, at as int + 1 + rest.len()) =~= rest) by {
                    assert forall|k: int| 0 <= k < rest.len() implies source[at + 1 + k]
                        == rest[k] by {
                        assert(source[at + 1 + k] == read[1 + k]);
                    }
                }
                lemma_scan_reads(source, strict, at + 1, open, items.push(first), more, from + 1);
            },
        }
    }
}

/// Writing a program and reading it again gives the program back, where it
/// has the shape of one that was read from a text.
pub proof fn lemma_parse_of_text(p: Syntax, strict: bool)
    requires
        is_parsed(p),
    ensures
        parse_spec(text(p), strict) == Ok::<Syntax, SyntaxError>(p),
{
    let items = p->Block_0;
    let source = text(p);
    assert(source.subrange(0, source.len() as int) =~= source);
    lemma_scan_reads(source, strict, 0, Seq::empty(), Seq::empty(), items, 0);
    assert(Seq::<Syntax>::empty() + items.subrange(0, items.len() as int) =~= items);
}

/// Two programs with the shape of one that was read from a text are the same
/// program where their texts are the same.
pub proof fn lemma_text_is_injective(p: Syntax, q: Syntax)
    requires
        is_parsed(p),
        is_parsed(q),
        text(p) == text(q),
    ensures
        p == q,
{
    lemma_parse_of_text(p, false);
    lemma_parse_of_text(q, false);
}

impl Program {
    /// Adds the source text of the program to `out`.
    fn write_source(&self, out: &mut Vec<u8>)
        ensures
            final(out)@ == old(out)@ + text(self@),
        decreases self,
    {
        match self {
            Program::Nop => {
                assert(out@ =~= old(out)@ + text(self@));
            },
            Program::Dec => {
                out.push(MINUS);
            },
            Program::Inc => {
                out.push(PLUS);
            },
            Program::Shl => {
                out.push(LESS);
            },
            Program::Shr => {
                out.push(GREATER);
            },
            Program::Read => {
                out.push(COMMA);
            },
            Program::Write => {
                out.push(DOT);
            },
            Program::Block(items) => {
                let ghost list = self@->Block_0;
                let mut k: usize = 0;
                proof {
                    assert(text(self@) == texts(list, 0));
                }
                while k < items.len()
                    invariant
                        k <= items.len(),
                        *self == Program::Block(*items),
                        self@ == Syntax::Block(list),
                        old(out)@ + texts(list, 0) == out@ + texts(list, k as nat),
                    decreases items.len() - k,
                {
                    let ghost before = out@;
                    items[k].write_source(out);
                    proof {
                        assert(list[k as int] == items[k as int]@);
                        assert(before + texts(list, k as nat) =~= out@ + texts(list, (k + 1) as nat));
                    }
                    k += 1;
                }
                proof {
                    assert(out@ + texts(list, k as nat) =~= out@);
                }
            },
            Program::Loop(body) => {
                out.push(OPEN);
                body.write_source(out);
                out.push(CLOSE);
                proof {
                    assert(out@ =~= old(out)@ + (seq![OPEN] + text(body@) + seq![CLOSE]));
                }
            },
        }
    }

    /// The source text of the program, without a comment in it.
    pub fn source(&self) -> (r: Vec<u8>)
        ensures
            r@ == text(self@),
    {
        let mut out: Vec<u8> = Vec::new();
        self.write_source(&mut out);
        proof {
            assert(Seq::<u8>::empty() + text(self@) =~= text(self@));
        }
        out
    }
}

} // verus!
