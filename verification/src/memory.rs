//! A growable row of numbers, used as tape, as input queue and as output log.
//!
//! As a tape it has no end: a cell that was never written holds zero, and
//! writing to one fills the row with zeros up to it.

use crate::uint::pred;
use crate::uint::succ;
use crate::uint::Uint;
use vstd::prelude::*;
use vstd::std_specs::cmp::PartialEqSpecImpl;

verus! {

/// The number in cell `i` of the row `s`: zero past the end.
pub open spec fn cell_at(s: Seq<nat>, i: nat) -> nat {
    if i < s.len() {
        s[i as int]
    } else {
        0
    }
}

/// A row of `n` zeros.
pub open spec fn zeros(n: nat) -> Seq<nat> {
    Seq::new(n, |k: int| 0nat)
}

/// The row `s`, with zeros added at the end where it is too short to have a
/// cell `i`.
pub open spec fn reaching(s: Seq<nat>, i: nat) -> Seq<nat> {
    if i < s.len() {
        s
    } else {
        s + zeros((i + 1 - s.len()) as nat)
    }
}

/// The row `s` with `v` in cell `i`.
pub open spec fn with_cell(s: Seq<nat>, i: nat, v: nat) -> Seq<nat> {
    reaching(s, i).update(i as int, v)
}

/// A row of numbers.
#[derive(Debug)]
pub struct Memory {
    cells: Vec<Uint>,
}

impl View for Memory {
    type V = Seq<nat>;

    closed spec fn view(&self) -> Seq<nat> {
        Seq::new(self.cells@.len(), |k: int| self.cells@[k]@)
    }
}

impl Memory {
    /// The empty row.
    pub fn new() -> (r: Memory)
        ensures
            r@ == Seq::<nat>::empty(),
    {
        let r = Memory { cells: Vec::new() };
        proof {
            assert(r@ =~= Seq::<nat>::empty());
        }
        r
    }

    /// The row that holds `values`.
    pub fn from_values(values: &[usize]) -> (r: Memory)
        ensures
            r@ == values@.map_values(|n: usize| n as nat),
    {
        let mut cells: Vec<Uint> = Vec::new();
        let mut k: usize = 0;
        while k < values.len()
            invariant
                k <= values@.len(),
                cells@.len() == k,
                forall|j: int| 0 <= j < k ==> cells@[j]@ == values@[j],
            decreases values.len() - k,
        {
            cells.push(Uint::from_usize(values[k]));
            k += 1;
        }
        let r = Memory { cells };
        proof {
            assert(r@ =~= values@.map_values(|n: usize| n as nat));
        }
        r
    }

    /// How many cells the row holds.
    pub fn len(&self) -> (r: usize)
        ensures
            r == self@.len(),
    {
        self.cells.len()
    }

    /// Whether `index` is below `len`.
    fn below(index: &Uint, len: usize) -> (r: bool)
        ensures
            r == (index@ < len),
    {
        match index.value() {
            Some(k) => k < len,
            None => false,
        }
    }

    /// The number in cell `index`: zero where the row does not reach that far.
    pub fn get(&self, index: &Uint) -> (r: Uint)
        ensures
            r@ == cell_at(self@, index@),
    {
        let len = self.cells.len();
        match index.value() {
            Some(k) => if k < len {
                proof {
                    assert(self@[k as int] == self.cells@[k as int]@);
                }
                self.cells[k].clone()
            } else {
                Uint::zero()
            },
            None => Uint::zero(),
        }
    }

    /// Adds zeros at the end until the row has a cell `index`, and gives the
    /// place of that cell in the row.
    ///
    /// A row is held in memory cell by cell, so it ends where the memory of
    /// the machine ends: to reach a cell beyond that takes more memory than
    /// there is.
    fn reach(&mut self, index: &Uint) -> (place: usize)
        ensures
            final(self)@ == reaching(old(self)@, index@),
            place == index@,
            place < final(self)@.len(),
    {
        while !Memory::below(index, self.cells.len())
            invariant
                self@.len() >= old(self)@.len(),
                self@.len() <= old(self)@.len() || self@.len() <= index@ + 1,
                self@ == old(self)@ + zeros((self@.len() - old(self)@.len()) as nat),
            decreases index@ + 1 - self.cells.len(),
        {
            let ghost before = self@;
            self.cells.push(Uint::zero());
            proof {
                assert(self@ =~= before.push(0));
                assert(self@ =~= old(self)@ + zeros((self@.len() - old(self)@.len()) as nat));
            }
        }
        proof {
            assert(zeros(0) =~= Seq::<nat>::empty());
            assert(old(self)@ + zeros(0) =~= old(self)@);
            assert(index@ < self.cells.len());
        }
        index.value().unwrap()
    }

    /// Puts `value` in cell `index`. Where the row does not reach that far,
    /// the cells between its end and `index` come to hold zero.
    pub fn set(&mut self, index: &Uint, value: Uint)
        ensures
            final(self)@ == with_cell(old(self)@, index@, value@),
    {
        let place = self.reach(index);
        let ghost reached = self@;
        self.cells[place] = value;
        proof {
            assert(self@ =~= reached.update(place as int, value@));
        }
    }

    /// Adds one to cell `index`.
    pub fn inc(&mut self, index: &Uint)
        ensures
            final(self)@ == with_cell(old(self)@, index@, succ(cell_at(old(self)@, index@))),
    {
        let value = self.get(index).next();
        self.set(index, value);
    }

    /// Takes one from cell `index`; a zero stays zero.
    pub fn dec(&mut self, index: &Uint)
        ensures
            final(self)@ == with_cell(old(self)@, index@, pred(cell_at(old(self)@, index@))),
    {
        let value = self.get(index).prev();
        self.set(index, value);
    }

    /// Adds `value` at the end of the row.
    pub fn push(&mut self, value: Uint)
        ensures
            final(self)@ == old(self)@.push(value@),
    {
        self.cells.push(value);
        proof {
            assert(self@ =~= old(self)@.push(value@));
        }
    }

    /// Takes the first number off the row, where there is one.
    pub fn pop_front(&mut self) -> (r: Option<Uint>)
        ensures
            match r {
                Some(first) => old(self)@.len() > 0 && first@ == old(self)@[0] && final(self)@
                    == old(self)@.drop_first(),
                None => old(self)@.len() == 0 && final(self)@ == old(self)@,
            },
    {
        if self.cells.len() == 0 {
            None
        } else {
            let first = self.cells.remove(0);
            proof {
                assert(self@ =~= old(self)@.drop_first());
            }
            Some(first)
        }
    }

    /// The first number of the row, or `fallback` where the row is empty.
    pub fn head_or(&self, fallback: Uint) -> (r: Uint)
        ensures
            r@ == if self@.len() > 0 {
                self@[0]
            } else {
                fallback@
            },
    {
        if self.cells.len() > 0 {
            self.cells[0].clone()
        } else {
            fallback
        }
    }

    /// The row without its first number; the empty row for the empty row.
    pub fn tail(&self) -> (r: Memory)
        ensures
            r@ == if self@.len() > 0 {
                self@.drop_first()
            } else {
                self@
            },
    {
        let mut rest: Vec<Uint> = Vec::new();
        let mut k: usize = 1;
        while k < self.cells.len()
            invariant
                1 <= k,
                k <= self.cells@.len() || self.cells@.len() == 0,
                rest@.len() == if self.cells@.len() == 0 {
                    0
                } else {
                    k - 1
                },
                forall|j: int| 0 <= j < rest@.len() ==> rest@[j]@ == self.cells@[j + 1]@,
            decreases self.cells.len() - k,
        {
            rest.push(self.cells[k].clone());
            k += 1;
        }
        let r = Memory { cells: rest };
        proof {
            if self@.len() > 0 {
                assert(r@ =~= self@.drop_first());
            } else {
                assert(r@ =~= self@);
            }
        }
        r
    }

    /// The row as machine integers, where every number in it is small enough
    /// to be one.
    pub fn reify(&self) -> (r: Option<Vec<usize>>)
        ensures
            match r {
                Some(values) => values@.map_values(|n: usize| n as nat) == self@,
                None => exists|k: int| 0 <= k < self@.len() && self@[k] > usize::MAX,
            },
    {
        let mut values: Vec<usize> = Vec::new();
        let mut k: usize = 0;
        while k < self.cells.len()
            invariant
                k <= self.cells@.len(),
                values@.len() == k,
                forall|j: int| 0 <= j < k ==> values@[j] == self@[j],
            decreases self.cells.len() - k,
        {
            match self.cells[k].value() {
                Some(n) => {
                    values.push(n);
                },
                None => {
                    proof {
                        assert(self@[k as int] > usize::MAX);
                    }
                    return None;
                },
            }
            k += 1;
        }
        proof {
            assert(values@.map_values(|n: usize| n as nat) =~= self@);
        }
        Some(values)
    }
}

impl Clone for Memory {
    fn clone(&self) -> (r: Self)
        ensures
            r@ == self@,
    {
        let mut cells: Vec<Uint> = Vec::new();
        let mut k: usize = 0;
        while k < self.cells.len()
            invariant
                k <= self.cells@.len(),
                cells@.len() == k,
                forall|j: int| 0 <= j < k ==> cells@[j]@ == self.cells@[j]@,
            decreases self.cells.len() - k,
        {
            cells.push(self.cells[k].clone());
            k += 1;
        }
        let r = Memory { cells };
        proof {
            assert(r@ =~= self@);
        }
        r
    }
}

impl PartialEq for Memory {
    fn eq(&self, other: &Self) -> (r: bool) {
        if self.cells.len() != other.cells.len() {
            return false;
        }
        let mut k: usize = 0;
        while k < self.cells.len()
            invariant
                k <= self.cells@.len(),
                self.cells@.len() == other.cells@.len(),
                forall|j: int| 0 <= j < k ==> self.cells@[j]@ == other.cells@[j]@,
            decreases self.cells.len() - k,
        {
            if self.cells[k] != other.cells[k] {
                proof {
                    assert(self@[k as int] != other@[k as int]);
                }
                return false;
            }
            k += 1;
        }
        proof {
            assert(self@ =~= other@);
        }
        true
    }
}

impl Eq for Memory {

}

impl PartialEqSpecImpl for Memory {
    open spec fn obeys_eq_spec() -> bool {
        true
    }

    open spec fn eq_spec(&self, other: &Self) -> bool {
        self@ == other@
    }
}

/// A cell holds what was last put in it, and putting a number in one cell
/// changes no other.
pub proof fn lemma_get_after_set(s: Seq<nat>, i: nat, j: nat, v: nat)
    ensures
        cell_at(with_cell(s, i, v), i) == v,
        j != i ==> cell_at(with_cell(s, i, v), j) == cell_at(s, j),
{
}

} // verus!
