//! Natural numbers of any size.
//!
//! A [`Uint`] never overflows and never goes below zero: [`Uint::next`] always
//! has room, [`Uint::prev`] of zero is zero, and [`Uint::sub`] gives zero when
//! the subtrahend is the larger number.

use vstd::prelude::*;
use vstd::std_specs::cmp::PartialEqSpecImpl;

mod limbs;

verus! {

/// How one number stands to another.
#[derive(Clone, Copy, Debug, PartialEq, Eq, Structural)]
pub enum Comparison {
    /// The first is smaller.
    LT,
    /// The two are the same number.
    EQ,
    /// The first is larger.
    GT,
}

/// The number after `n`.
pub open spec fn succ(n: nat) -> nat {
    n + 1
}

/// The number before `n`, and zero for zero.
pub open spec fn pred(n: nat) -> nat {
    if n == 0 {
        0
    } else {
        (n - 1) as nat
    }
}

/// `a - b` where `a` is at least `b`, and zero otherwise.
pub open spec fn monus(a: nat, b: nat) -> nat {
    if a >= b {
        (a - b) as nat
    } else {
        0
    }
}

/// How `a` stands to `b`.
pub open spec fn order(a: nat, b: nat) -> Comparison {
    if a < b {
        Comparison::LT
    } else if a == b {
        Comparison::EQ
    } else {
        Comparison::GT
    }
}

/// A natural number of any size.
///
/// Held as digits in base 2^32, least significant first, with no zero digit
/// at the most significant end; zero has no digits.
#[derive(Debug)]
pub struct Uint {
    limbs: Vec<u32>,
}

impl View for Uint {
    type V = nat;

    closed spec fn view(&self) -> nat {
        limbs::value(self.limbs@)
    }
}

impl Uint {
    #[verifier::type_invariant]
    spec fn canonical(&self) -> bool {
        limbs::canonical(self.limbs@)
    }

    /// The number zero.
    pub fn zero() -> (r: Uint)
        ensures
            r@ == 0,
    {
        Uint { limbs: Vec::new() }
    }

    /// The number `n`.
    pub fn from_u64(n: u64) -> (r: Uint)
        ensures
            r@ == n,
    {
        let mut digits: Vec<u32> = Vec::new();
        if n >= limbs::BASE {
            digits.push((n % limbs::BASE) as u32);
            digits.push((n / limbs::BASE) as u32);
            proof {
                limbs::lemma_value_two((n % limbs::BASE) as u32, (n / limbs::BASE) as u32);
                assert(digits@ =~= seq![(n % limbs::BASE) as u32, (n / limbs::BASE) as u32]);
            }
        } else if n > 0 {
            digits.push(n as u32);
            proof {
                limbs::lemma_value_one(n as u32);
                assert(digits@ =~= seq![n as u32]);
            }
        }
        Uint { limbs: digits }
    }

    /// The number `n`.
    pub fn from_usize(n: usize) -> (r: Uint)
        ensures
            r@ == n,
    {
        Uint::from_u64(n as u64)
    }

    /// The number as a `u64`, where it is small enough to be one.
    pub fn to_u64(&self) -> (r: Option<u64>)
        ensures
            match r {
                Some(n) => n == self@,
                None => self@ > u64::MAX,
            },
    {
        proof {
            use_type_invariant(self);
        }
        let len = self.limbs.len();
        if len == 0 {
            Some(0)
        } else if len == 1 {
            proof {
                limbs::lemma_value_one(self.limbs[0]);
                assert(self.limbs@ =~= seq![self.limbs[0]]);
            }
            Some(self.limbs[0] as u64)
        } else if len == 2 {
            proof {
                limbs::lemma_value_two(self.limbs[0], self.limbs[1]);
                assert(self.limbs@ =~= seq![self.limbs[0], self.limbs[1]]);
            }
            Some(self.limbs[0] as u64 + self.limbs[1] as u64 * limbs::BASE)
        } else {
            proof {
                limbs::lemma_canonical_at_least_weight(self.limbs@);
                limbs::lemma_weight_monotonic(2, (len - 1) as nat);
                assert(limbs::weight(2) == 0x1_0000_0000_0000_0000) by {
                    reveal_with_fuel(limbs::weight, 3);
                }
            }
            None
        }
    }

    /// The number as a `usize`, where it is small enough to be one.
    pub fn value(&self) -> (r: Option<usize>)
        ensures
            match r {
                Some(n) => n == self@,
                None => self@ > usize::MAX,
            },
    {
        match self.to_u64() {
            Some(n) => if n <= usize::MAX as u64 {
                Some(n as usize)
            } else {
                None
            },
            None => None,
        }
    }

    /// Whether the number is zero.
    pub fn is_zero(&self) -> (r: bool)
        ensures
            r == (self@ == 0),
    {
        proof {
            use_type_invariant(self);
            limbs::lemma_canonical_zero(self.limbs@);
        }
        self.limbs.len() == 0
    }

    /// The number after this one.
    pub fn next(&self) -> (r: Uint)
        ensures
            r@ == succ(self@),
    {
        let none: Vec<u32> = Vec::new();
        Uint { limbs: limbs::trim(limbs::add_limbs(&self.limbs, &none, true)) }
    }

    /// The number before this one; zero has nothing before it and stays zero.
    pub fn prev(&self) -> (r: Uint)
        ensures
            r@ == pred(self@),
    {
        if self.is_zero() {
            Uint::zero()
        } else {
            let none: Vec<u32> = Vec::new();
            Uint { limbs: limbs::trim(limbs::sub_limbs(&self.limbs, &none, true)) }
        }
    }

    /// The sum of this number and `rhs`.
    pub fn add(&self, rhs: &Uint) -> (r: Uint)
        ensures
            r@ == self@ + rhs@,
    {
        Uint { limbs: limbs::trim(limbs::add_limbs(&self.limbs, &rhs.limbs, false)) }
    }

    /// This number less `rhs`, and zero where `rhs` is the larger.
    pub fn sub(&self, rhs: &Uint) -> (r: Uint)
        ensures
            r@ == monus(self@, rhs@),
            rhs@ >= self@ ==> r@ == 0,
    {
        proof {
            use_type_invariant(self);
            use_type_invariant(rhs);
        }
        match limbs::compare_limbs(&self.limbs, &rhs.limbs) {
            Comparison::GT => {
                proof {
                    if rhs.limbs@.len() > self.limbs@.len() {
                        limbs::lemma_longer_is_greater(rhs.limbs@, self.limbs@);
                    }
                }
                Uint { limbs: limbs::trim(limbs::sub_limbs(&self.limbs, &rhs.limbs, false)) }
            },
            _ => Uint::zero(),
        }
    }

    /// `lhs` less this number, and zero where this number is the larger.
    pub fn rev_sub(&self, lhs: &Uint) -> (r: Uint)
        ensures
            r@ == monus(lhs@, self@),
    {
        lhs.sub(self)
    }

    /// The product of this number and `rhs`, plus `extra`.
    pub fn mult_and_add(&self, rhs: &Uint, extra: &Uint) -> (r: Uint)
        ensures
            r@ == self@ * rhs@ + extra@,
    {
        let product = limbs::mul_limbs(&self.limbs, &rhs.limbs);
        Uint { limbs: limbs::trim(limbs::add_limbs(&product, &extra.limbs, false)) }
    }

    /// The product of this number and `rhs`.
    pub fn mult(&self, rhs: &Uint) -> (r: Uint)
        ensures
            r@ == self@ * rhs@,
    {
        Uint { limbs: limbs::trim(limbs::mul_limbs(&self.limbs, &rhs.limbs)) }
    }

    /// How this number stands to `rhs`.
    pub fn compare(&self, rhs: &Uint) -> (r: Comparison)
        ensures
            r == order(self@, rhs@),
    {
        proof {
            use_type_invariant(self);
            use_type_invariant(rhs);
        }
        limbs::compare_limbs(&self.limbs, &rhs.limbs)
    }

    /// Whether this number is larger than `rhs`.
    pub fn is_gt(&self, rhs: &Uint) -> (r: bool)
        ensures
            r == (self@ > rhs@),
    {
        match self.compare(rhs) {
            Comparison::GT => true,
            _ => false,
        }
    }

    /// Whether this number is `rhs` or larger.
    pub fn is_gte(&self, rhs: &Uint) -> (r: bool)
        ensures
            r == (self@ >= rhs@),
    {
        match self.compare(rhs) {
            Comparison::LT => false,
            _ => true,
        }
    }

    /// Whether this number is smaller than `rhs`.
    pub fn is_lt(&self, rhs: &Uint) -> (r: bool)
        ensures
            r == (self@ < rhs@),
    {
        match self.compare(rhs) {
            Comparison::LT => true,
            _ => false,
        }
    }

    /// Whether this number is `rhs` or smaller.
    pub fn is_lte(&self, rhs: &Uint) -> (r: bool)
        ensures
            r == (self@ <= rhs@),
    {
        match self.compare(rhs) {
            Comparison::GT => false,
            _ => true,
        }
    }
}

impl Clone for Uint {
    fn clone(&self) -> (r: Self)
        ensures
            r@ == self@,
    {
        proof {
            use_type_invariant(self);
        }
        let digits = self.limbs.clone();
        proof {
            assert(digits@ =~= self.limbs@);
        }
        Uint { limbs: digits }
    }
}

impl PartialEq for Uint {
    fn eq(&self, other: &Self) -> (r: bool) {
        match self.compare(other) {
            Comparison::EQ => true,
            _ => false,
        }
    }
}

impl Eq for Uint {

}

impl PartialEqSpecImpl for Uint {
    open spec fn obeys_eq_spec() -> bool {
        true
    }

    open spec fn eq_spec(&self, other: &Self) -> bool {
        self@ == other@
    }
}

/// Subtracting a number that is at least as large leaves zero.
pub proof fn lemma_sub_saturates(a: nat, b: nat)
    requires
        b >= a,
    ensures
        monus(a, b) == 0,
{
}

/// Zero is its own predecessor.
pub proof fn lemma_pred_of_zero()
    ensures
        pred(0) == 0,
{
}

/// Stepping back from a number other than zero and forward again returns to
/// it.
pub proof fn lemma_succ_of_pred(n: nat)
    requires
        n != 0,
    ensures
        succ(pred(n)) == n,
{
}

/// A number is zero exactly where it compares as equal to zero.
pub proof fn lemma_zero_by_order(n: nat)
    ensures
        n == 0 <==> order(n, 0) == Comparison::EQ,
{
}

} // verus!
