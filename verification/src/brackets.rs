//! Which texts are programs, said without reading them: a text is a program
//! where every `]` closes a `[` before it and every `[` is closed.

use crate::parser::parse_spec;
use crate::parser::scan;
use crate::parser::Frame;
use crate::parser::SyntaxError;
use crate::parser::SyntaxErrorKind;
use crate::parser::CLOSE;
use crate::parser::OPEN;
use crate::semantics::Syntax;
use crate::source::is_operator;
use crate::source::is_parsed;
use crate::source::lemma_parse_is_parsed;
use crate::source::lemma_parse_keeps_operators;
use crate::source::lemma_text_is_injective;
use crate::source::operators;
use crate::source::text;
use vstd::prelude::*;

verus! {

/// What the character `c` does to the number of open loops.
pub open spec fn turn(c: u8) -> int {
    if c == OPEN {
        1
    } else if c == CLOSE {
        -1
    } else {
        0
    }
}

/// The `[` less the `]` among the first `upto` characters of `source`: the
/// number of loops that are open behind them, where no `]` among them came
/// too early.
pub open spec fn depth(source: Seq<u8>, upto: nat) -> int
    decreases upto,
{
    if upto == 0 || upto > source.len() {
        0
    } else {
        depth(source, (upto - 1) as nat) + turn(source[upto - 1])
    }
}

/// Whether the character at the offset `at` cannot be read: a `]` with no
/// loop open, or a comment where none may stand.
pub open spec fn is_fault(source: Seq<u8>, strict: bool, at: nat) -> bool {
    at < source.len() && ({
        ||| source[at as int] == CLOSE && depth(source, at) == 0
        ||| strict && !is_operator(source[at as int])
    })
}

/// Whether every character from the offset `from` up to the offset `upto`
/// can be read.
pub open spec fn no_fault(source: Seq<u8>, strict: bool, from: nat, upto: nat) -> bool {
    forall|k: nat| from <= k < upto ==> !#[trigger] is_fault(source, strict, k)
}

/// What is wrong with the character at `at`, where it cannot be read.
pub open spec fn fault(source: Seq<u8>, at: nat) -> SyntaxError {
    SyntaxError {
        kind: if source[at as int] == CLOSE {
            SyntaxErrorKind::UnmatchedClose
        } else {
            SyntaxErrorKind::UnknownCharacter
        },
        position: at as usize,
    }
}

/// Whether the character at `at` is a `[` that nothing behind it closes.
pub open spec fn is_unclosed(source: Seq<u8>, at: nat) -> bool {
    &&& at < source.len()
    &&& source[at as int] == OPEN
    &&& forall|k: nat| at < k <= source.len() ==> #[trigger] depth(source, k) > depth(source, at)
}

/// Whether every character of `source` can be read and no loop is open at its
/// end.
pub open spec fn is_balanced(source: Seq<u8>, strict: bool) -> bool {
    no_fault(source, strict, 0, source.len()) && depth(source, source.len()) == 0
}

/// Whether the loops that the parser holds open at the offset `at` are the
/// `[` before `at` that nothing has closed yet, the outermost first.
spec fn tracks(source: Seq<u8>, at: nat, open: Seq<Frame>) -> bool {
    forall|k: int|
        0 <= k < open.len() ==> {
            let p = (#[trigger] open[k]).opened_at as nat;
            &&& p < at
            &&& source[p as int] == OPEN
            &&& depth(source, p) == k
            &&& forall|j: nat| p < j <= at ==> #[trigger] depth(source, j) > k
        }
}

proof fn lemma_depth_step(source: Seq<u8>, at: nat)
    requires
        at < source.len(),
    ensures
        depth(source, at + 1) == depth(source, at) + turn(source[at as int]),
{
}

/// While every character can be read, no more loops are closed than were
/// opened.
proof fn lemma_depth_not_negative(source: Seq<u8>, strict: bool, upto: nat)
    requires
        upto <= source.len(),
        no_fault(source, strict, 0, upto),
    ensures
        depth(source, upto) >= 0,
    decreases upto,
{
    if upto > 0 {
        let before = (upto - 1) as nat;
        lemma_depth_not_negative(source, strict, before);
        assert(!is_fault(source, strict, before));
    }
}

/// Where a character cannot be read, one of them is the first.
proof fn lemma_first_fault(source: Seq<u8>, strict: bool, upto: nat) -> (first: nat)
    requires
        !no_fault(source, strict, 0, upto),
    ensures
        first < upto,
        is_fault(source, strict, first),
        no_fault(source, strict, 0, first),
    decreases upto,
{
    if upto == 0 {
        0
    } else {
        let before = (upto - 1) as nat;
        if no_fault(source, strict, 0, before) {
            assert(is_fault(source, strict, before));
            before
        } else {
            lemma_first_fault(source, strict, before)
        }
    }
}

/// The parser stops at the first character that cannot be read.
proof fn lemma_scan_fault(
    source: Seq<u8>,
    strict: bool,
    at: nat,
    open: Seq<Frame>,
    items: Seq<Syntax>,
    first: nat,
)
    requires
        at <= first,
        open.len() == depth(source, at),
        no_fault(source, strict, at, first),
        is_fault(source, strict, first),
    ensures
        scan(source, strict, at, open, items) == Err::<Syntax, SyntaxError>(fault(source, first)),
    decreases first - at,
{
    if at < first {
        let c = source[at as int];
        assert(!is_fault(source, strict, at));
        lemma_depth_step(source, at);
        if c == OPEN {
            let deeper = open.push(Frame { opened_at: at as usize, before: items });
            lemma_scan_fault(source, strict, at + 1, deeper, Seq::empty(), first);
        } else if c == CLOSE {
            let joined = open.last().before.push(Syntax::Loop(Box::new(Syntax::Block(items))));
            lemma_scan_fault(source, strict, at + 1, open.drop_last(), joined, first);
        } else {
            match crate::parser::primitive(c) {
                Some(p) => {
                    lemma_scan_fault(source, strict, at + 1, open, items.push(p), first);
                },
                None => {
                    lemma_scan_fault(source, strict, at + 1, open, items, first);
                },
            }
        }
    }
}

/// The parser comes to the end of a text in which every character can be
/// read, and there it finds the loops open that were opened and not closed.
proof fn lemma_scan_end(
    source: Seq<u8>,
    strict: bool,
    at: nat,
    open: Seq<Frame>,
    items: Seq<Syntax>,
)
    requires
        at <= source.len() <= usize::MAX,
        open.len() == depth(source, at),
        tracks(source, at, open),
        no_fault(source, strict, at, source.len()),
    ensures
        depth(source, source.len()) == 0 ==> scan(source, strict, at, open, items) is Ok,
        depth(source, source.len()) > 0 ==> {
            &&& scan(source, strict, at, open, items) matches Err(error)
            &&& error.kind == SyntaxErrorKind::UnmatchedOpen
            &&& is_unclosed(source, error.position as nat)
            &&& forall|k: nat| k > error.position ==> !is_unclosed(source, k)
        },
    decreases source.len() - at,
{
    let end = source.len();
    if at >= end {
        if open.len() > 0 {
            let last = open.len() - 1;
            let p = open[last].opened_at as nat;
            assert(is_unclosed(source, p));
            assert forall|k: nat| k > p implies !is_unclosed(source, k) by {
                if is_unclosed(source, k) {
                    assert(depth(source, k) > last);
                    assert(depth(source, end) > depth(source, k));
                }
            }
        }
    } else {
        let c = source[at as int];
        assert(!is_fault(source, strict, at));
        lemma_depth_step(source, at);
        if c == OPEN {
            let deeper = open.push(Frame { opened_at: at as usize, before: items });
            assert(tracks(source, at + 1, deeper)) by {
                assert forall|k: int| 0 <= k < deeper.len() implies {
                    let p = (#[trigger] deeper[k]).opened_at as nat;
                    &&& p < at + 1
                    &&& source[p as int] == OPEN
                    &&& depth(source, p) == k
                    &&& forall|j: nat| p < j <= at + 1 ==> #[trigger] depth(source, j) > k
                } by {
                    if k < open.len() {
                        assert(deeper[k] == open[k]);
                    }
                }
            }
            lemma_scan_end(source, strict, at + 1, deeper, Seq::empty());
        } else if c == CLOSE {
            let fewer = open.drop_last();
            let joined = open.last().before.push(Syntax::Loop(Box::new(Syntax::Block(items))));
            assert(tracks(source, at + 1, fewer)) by {
                assert forall|k: int| 0 <= k < fewer.len() implies {
                    let p = (#[trigger] fewer[k]).opened_at as nat;
                    &&& p < at + 1
                    &&& source[p as int] == OPEN
                    &&& depth(source, p) == k
                    &&& forall|j: nat| p < j <= at + 1 ==> #[trigger] depth(source, j) > k
                } by {
                    assert(fewer[k] == open[k]);
                }
            }
            lemma_scan_end(source, strict, at + 1, fewer, joined);
        } else {
            assert(tracks(source, at + 1, open)) by {
                assert forall|k: int| 0 <= k < open.len() implies {
                    let p = (#[trigger] open[k]).opened_at as nat;
                    &&& p < at + 1
                    &&& source[p as int] == OPEN
                    &&& depth(source, p) == k
                    &&& forall|j: nat| p < j <= at + 1 ==> #[trigger] depth(source, j) > k
                } by {}
            }
            match crate::parser::primitive(c) {
                Some(p) => {
                    lemma_scan_end(source, strict, at + 1, open, items.push(p));
                },
                None => {
                    lemma_scan_end(source, strict, at + 1, open, items);
                },
            }
        }
    }
}

/// A text is refused for the first character in it that cannot be read.
pub proof fn lemma_parse_fault(source: Seq<u8>, strict: bool, first: nat)
    requires
        is_fault(source, strict, first),
        no_fault(source, strict, 0, first),
    ensures
        parse_spec(source, strict) == Err::<Syntax, SyntaxError>(fault(source, first)),
{
    lemma_scan_fault(source, strict, 0, Seq::empty(), Seq::empty(), first);
}

/// A text in which every character can be read and a loop is left open is
/// refused for the last `[` that nothing closes.
pub proof fn lemma_parse_unclosed(source: Seq<u8>, strict: bool)
    requires
        source.len() <= usize::MAX,
        no_fault(source, strict, 0, source.len()),
        depth(source, source.len()) != 0,
    ensures
        parse_spec(source, strict) matches Err(error) && error.kind
            == SyntaxErrorKind::UnmatchedOpen && is_unclosed(source, error.position as nat)
            && forall|k: nat| k > error.position ==> !is_unclosed(source, k),
{
    lemma_depth_not_negative(source, strict, source.len());
    lemma_scan_end(source, strict, 0, Seq::empty(), Seq::empty());
}

/// A text is a program exactly where every character in it can be read and
/// no loop is left open at its end.
pub proof fn lemma_parse_succeeds(source: Seq<u8>, strict: bool)
    requires
        source.len() <= usize::MAX,
    ensures
        parse_spec(source, strict) is Ok <==> is_balanced(source, strict),
{
    if !no_fault(source, strict, 0, source.len()) {
        let first = lemma_first_fault(source, strict, source.len());
        lemma_parse_fault(source, strict, first);
    } else {
        lemma_depth_not_negative(source, strict, source.len());
        lemma_scan_end(source, strict, 0, Seq::empty(), Seq::empty());
    }
}

/// The program that a text is: the one program with the shape of a program
/// that was read whose text is that text without its comments.
pub proof fn lemma_parse_result(source: Seq<u8>, strict: bool, p: Syntax)
    requires
        source.len() <= usize::MAX,
    ensures
        parse_spec(source, strict) == Ok::<Syntax, SyntaxError>(p) <==> {
            &&& is_balanced(source, strict)
            &&& is_parsed(p)
            &&& text(p) == operators(source, 0)
        },
{
    lemma_parse_succeeds(source, strict);
    if parse_spec(source, strict) is Ok {
        let q = parse_spec(source, strict)->Ok_0;
        lemma_parse_is_parsed(source, strict);
        lemma_parse_keeps_operators(source, strict);
        if is_parsed(p) && text(p) == operators(source, 0) {
            lemma_text_is_injective(p, q);
        }
    }
}

} // verus!
