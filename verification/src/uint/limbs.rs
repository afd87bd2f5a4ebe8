//! Little-endian digit strings in base 2^32 and the arithmetic on them.
//!
//! A string may end in zero digits here; [`trim`] removes them.

use super::order;
use super::Comparison;
use vstd::prelude::*;

verus! {

/// The base of the digits.
pub const BASE: u64 = 0x1_0000_0000;

/// `BASE` to the power `k`: what a one in position `k` is worth.
pub open spec fn weight(k: nat) -> nat
    decreases k,
{
    if k == 0 {
        1
    } else {
        BASE as nat * weight((k - 1) as nat)
    }
}

/// The number that the digits `s` stand for, least significant digit first.
pub open spec fn value(s: Seq<u32>) -> nat
    decreases s.len(),
{
    if s.len() == 0 {
        0
    } else {
        value(s.drop_last()) + s.last() as nat * weight((s.len() - 1) as nat)
    }
}

/// The digit in position `i`, zero beyond the end of `s`.
pub open spec fn digit(s: Seq<u32>, i: int) -> nat {
    if 0 <= i < s.len() {
        s[i] as nat
    } else {
        0
    }
}

/// The number that the lowest `i` digits of `s` stand for.
pub open spec fn low(s: Seq<u32>, i: int) -> nat {
    if i <= 0 {
        0
    } else if i >= s.len() {
        value(s)
    } else {
        value(s.take(i))
    }
}

/// No zero digit in the most significant position.
pub open spec fn canonical(s: Seq<u32>) -> bool {
    s.len() > 0 ==> s.last() != 0
}

pub proof fn lemma_weight_positive(k: nat)
    ensures
        weight(k) >= 1,
    decreases k,
{
    if k > 0 {
        lemma_weight_positive((k - 1) as nat);
    }
}

pub proof fn lemma_weight_monotonic(j: nat, k: nat)
    requires
        j <= k,
    ensures
        weight(j) <= weight(k),
    decreases k,
{
    if j < k {
        lemma_weight_monotonic(j, (k - 1) as nat);
        lemma_weight_positive((k - 1) as nat);
    }
}

pub proof fn lemma_value_push(s: Seq<u32>, x: u32)
    ensures
        value(s.push(x)) == value(s) + x as nat * weight(s.len()),
{
    assert(s.push(x).drop_last() =~= s);
}

pub proof fn lemma_low_step(s: Seq<u32>, i: int)
    requires
        0 <= i,
    ensures
        low(s, i + 1) == low(s, i) + digit(s, i) * weight(i as nat),
{
    if i < s.len() {
        let t = s.take(i + 1);
        assert(t.drop_last() =~= s.take(i));
        assert(value(t) == value(t.drop_last()) + t.last() as nat * weight(i as nat));
        if i + 1 == s.len() {
            assert(t =~= s);
        }
        assert(value(s.take(0)) == 0);
    } else {
        assert(digit(s, i) * weight(i as nat) == 0) by (nonlinear_arith)
            requires
                digit(s, i) == 0,
        ;
    }
}

pub proof fn lemma_value_below_weight(s: Seq<u32>)
    ensures
        value(s) < weight(s.len()),
    decreases s.len(),
{
    if s.len() > 0 {
        lemma_value_below_weight(s.drop_last());
        let w = weight((s.len() - 1) as nat);
        let d = s.last() as nat;
        assert(d * w + w <= BASE as nat * w) by (nonlinear_arith)
            requires
                d + 1 <= BASE as nat,
        ;
    }
}

pub proof fn lemma_canonical_at_least_weight(s: Seq<u32>)
    requires
        s.len() > 0,
        s.last() != 0,
    ensures
        value(s) >= weight((s.len() - 1) as nat),
{
    let w = weight((s.len() - 1) as nat);
    let d = s.last() as nat;
    assert(d * w >= w) by (nonlinear_arith)
        requires
            d >= 1,
    ;
}

/// A string without a leading zero stands for zero only if it is empty.
pub proof fn lemma_canonical_zero(s: Seq<u32>)
    requires
        canonical(s),
    ensures
        value(s) == 0 <==> s.len() == 0,
{
    if s.len() > 0 {
        lemma_canonical_at_least_weight(s);
        lemma_weight_positive((s.len() - 1) as nat);
    }
}

/// Of two strings without leading zeros the longer one stands for more.
pub proof fn lemma_longer_is_greater(a: Seq<u32>, b: Seq<u32>)
    requires
        canonical(a),
        a.len() > b.len(),
    ensures
        value(a) > value(b),
{
    lemma_canonical_at_least_weight(a);
    lemma_value_below_weight(b);
    lemma_weight_monotonic(b.len(), (a.len() - 1) as nat);
}

/// Two strings of one length that agree above position `k` compare as their
/// digits in position `k` do.
pub proof fn lemma_decided_at(a: Seq<u32>, b: Seq<u32>, k: int)
    requires
        a.len() == b.len(),
        0 <= k < a.len(),
        a[k] < b[k],
        forall|j: int| k < j < a.len() ==> a[j] == b[j],
    ensures
        value(a) < value(b),
    decreases a.len(),
{
    let n = a.len();
    let w = weight((n - 1) as nat);
    if k == n - 1 {
        lemma_value_below_weight(a.drop_last());
        let x = a[k] as nat;
        let y = b[k] as nat;
        assert(x * w + w <= y * w) by (nonlinear_arith)
            requires
                x + 1 <= y,
        ;
    } else {
        lemma_decided_at(a.drop_last(), b.drop_last(), k);
    }
}

pub proof fn lemma_value_cons(x: u32, t: Seq<u32>)
    ensures
        value(seq![x] + t) == x as nat + BASE as nat * value(t),
    decreases t.len(),
{
    let s = seq![x] + t;
    if t.len() == 0 {
        assert(s.drop_last() =~= Seq::<u32>::empty());
        assert(s.last() == x);
        assert(weight(0) == 1);
        assert(value(s.drop_last()) == 0);
        assert(value(s) == value(s.drop_last()) + s.last() as nat * weight(0));
        assert(value(t) == 0);
    } else {
        assert(s.drop_last() =~= seq![x] + t.drop_last());
        lemma_value_cons(x, t.drop_last());
        let w = weight((t.len() - 1) as nat);
        let d = t.last() as nat;
        let v = value(t.drop_last());
        assert(s.last() == t.last());
        assert(s.len() - 1 == t.len());
        assert(value(s) == value(s.drop_last()) + s.last() as nat * weight(t.len()));
        assert(value(s.drop_last()) == x as nat + BASE as nat * v);
        assert(value(t) == v + d * w);
        assert(weight(t.len()) == BASE as nat * w);
        assert(x as nat + BASE as nat * v + d * (BASE as nat * w) == x as nat + BASE as nat * (v + d
            * w)) by (nonlinear_arith);
    }
}

/// One for `true`, zero for `false`.
pub open spec fn unit(b: bool) -> nat {
    if b {
        1
    } else {
        0
    }
}

/// Removes the zero digits from the most significant end.
pub fn trim(digits: Vec<u32>) -> (r: Vec<u32>)
    ensures
        canonical(r@),
        value(r@) == value(digits@),
{
    let mut r = digits;
    while r.len() > 0 && r[r.len() - 1] == 0
        invariant
            value(r@) == value(digits@),
        decreases r.len(),
    {
        proof {
            assert(r@.last() as nat * weight((r@.len() - 1) as nat) == 0) by (nonlinear_arith)
                requires
                    r@.last() == 0,
            ;
            assert(r@.subrange(0, r@.len() - 1) =~= r@.drop_last());
        }
        r.pop();
    }
    r
}

/// The sum of two digit strings and a carry.
pub fn add_limbs(a: &Vec<u32>, b: &Vec<u32>, carry_in: bool) -> (r: Vec<u32>)
    ensures
        value(r@) == value(a@) + value(b@) + unit(carry_in),
{
    let n: usize = if a.len() >= b.len() {
        a.len()
    } else {
        b.len()
    };
    let mut r: Vec<u32> = Vec::new();
    let mut carry: u64 = if carry_in {
        1
    } else {
        0
    };
    let mut i: usize = 0;
    while i < n
        invariant
            i <= n,
            a.len() <= n,
            b.len() <= n,
            r@.len() == i,
            carry <= 1,
            value(r@) + carry * weight(i as nat) == low(a@, i as int) + low(b@, i as int) + unit(
                carry_in,
            ),
        decreases n - i,
    {
        let x: u64 = if i < a.len() {
            a[i] as u64
        } else {
            0
        };
        let y: u64 = if i < b.len() {
            b[i] as u64
        } else {
            0
        };
        let sum: u64 = x + y + carry;
        let d: u32 = (sum % BASE) as u32;
        let c: u64 = sum / BASE;
        proof {
            let w = weight(i as nat);
            lemma_low_step(a@, i as int);
            lemma_low_step(b@, i as int);
            lemma_value_push(r@, d);
            assert(x == digit(a@, i as int));
            assert(y == digit(b@, i as int));
            assert(d * w + c * (BASE as nat * w) == carry * w + x * w + y * w)
                by (nonlinear_arith)
                requires
                    d + BASE * c == x + y + carry,
            ;
        }
        r.push(d);
        carry = c;
        i += 1;
    }
    if carry != 0 {
        proof {
            lemma_value_push(r@, 1);
        }
        r.push(1);
    }
    r
}

/// The difference of two digit strings, less a borrow.
pub fn sub_limbs(a: &Vec<u32>, b: &Vec<u32>, borrow_in: bool) -> (r: Vec<u32>)
    requires
        b.len() <= a.len(),
        value(a@) >= value(b@) + unit(borrow_in),
    ensures
        value(r@) == value(a@) - value(b@) - unit(borrow_in),
{
    let n: usize = a.len();
    let mut r: Vec<u32> = Vec::new();
    let mut borrow: u64 = if borrow_in {
        1
    } else {
        0
    };
    let mut i: usize = 0;
    while i < n
        invariant
            i <= n,
            n == a.len(),
            b.len() <= n,
            r@.len() == i,
            borrow <= 1,
            value(r@) + low(b@, i as int) + unit(borrow_in) == low(a@, i as int) + borrow * weight(
                i as nat,
            ),
        decreases n - i,
    {
        let x: u64 = a[i] as u64;
        let y: u64 = if i < b.len() {
            b[i] as u64
        } else {
            0
        };
        let t: u64 = y + borrow;
        let d: u32 = if x >= t {
            (x - t) as u32
        } else {
            (x + BASE - t) as u32
        };
        let c: u64 = if x >= t {
            0
        } else {
            1
        };
        proof {
            let w = weight(i as nat);
            lemma_low_step(a@, i as int);
            lemma_low_step(b@, i as int);
            lemma_value_push(r@, d);
            assert(y == digit(b@, i as int));
            assert(d * w + y * w + borrow * w == x * w + c * (BASE as nat * w))
                by (nonlinear_arith)
                requires
                    d + y + borrow == x + BASE * c,
            ;
        }
        r.push(d);
        borrow = c;
        i += 1;
    }
    proof {
        lemma_value_below_weight(r@);
        if borrow == 1 {
            assert(borrow * weight(n as nat) == weight(n as nat)) by (nonlinear_arith)
                requires
                    borrow == 1,
            ;
        } else {
            assert(borrow * weight(n as nat) == 0) by (nonlinear_arith)
                requires
                    borrow == 0,
            ;
        }
    }
    r
}

/// The product of a digit string and one digit.
pub fn mul_small(a: &Vec<u32>, m: u32) -> (r: Vec<u32>)
    ensures
        value(r@) == value(a@) * m,
{
    let n: usize = a.len();
    let mut r: Vec<u32> = Vec::new();
    let mut carry: u64 = 0;
    let mut i: usize = 0;
    while i < n
        invariant
            i <= n,
            n == a.len(),
            r@.len() == i,
            carry < BASE,
            value(r@) + carry * weight(i as nat) == low(a@, i as int) * m,
        decreases n - i,
    {
        let x: u64 = a[i] as u64;
        assert(x * (m as u64) <= 0xffff_fffe_0000_0001) by (nonlinear_arith)
            requires
                x <= 0xffff_ffff,
                m <= 0xffff_ffff,
        ;
        let product: u64 = x * (m as u64) + carry;
        let d: u32 = (product % BASE) as u32;
        let c: u64 = product / BASE;
        proof {
            let w = weight(i as nat);
            let l = low(a@, i as int);
            lemma_low_step(a@, i as int);
            lemma_value_push(r@, d);
            assert(d * w + c * (BASE as nat * w) + l * m == carry * w + (l + x * w) * m)
                by (nonlinear_arith)
                requires
                    d + BASE * c == x * m + carry,
            ;
        }
        r.push(d);
        carry = c;
        i += 1;
    }
    if carry != 0 {
        proof {
            lemma_value_push(r@, carry as u32);
        }
        r.push(carry as u32);
    }
    r
}

/// The digit string times `BASE`: every digit moves up one position.
pub fn shift_up(a: &Vec<u32>) -> (r: Vec<u32>)
    ensures
        value(r@) == BASE as nat * value(a@),
{
    let mut r: Vec<u32> = Vec::new();
    r.push(0);
    let mut i: usize = 0;
    while i < a.len()
        invariant
            i <= a.len(),
            r@ == seq![0u32] + a@.take(i as int),
        decreases a.len() - i,
    {
        r.push(a[i]);
        proof {
            assert(r@ =~= seq![0u32] + a@.take(i + 1));
        }
        i += 1;
    }
    proof {
        assert(a@.take(a.len() as int) =~= a@);
        lemma_value_cons(0, a@);
    }
    r
}

/// The number that the digits of `s` from position `j` upwards stand for,
/// with position `j` counted as the lowest.
pub open spec fn high(s: Seq<u32>, j: int) -> nat {
    value(s.skip(j))
}

pub proof fn lemma_high_step(s: Seq<u32>, j: int)
    requires
        0 <= j < s.len(),
    ensures
        high(s, j) == s[j] as nat + BASE as nat * high(s, j + 1),
{
    assert(s.skip(j) =~= seq![s[j]] + s.skip(j + 1));
    lemma_value_cons(s[j], s.skip(j + 1));
}

/// The product of two digit strings.
pub fn mul_limbs(a: &Vec<u32>, b: &Vec<u32>) -> (r: Vec<u32>)
    ensures
        value(r@) == value(a@) * value(b@),
{
    let mut acc: Vec<u32> = Vec::new();
    let mut j: usize = b.len();
    proof {
        assert(b@.skip(b.len() as int) =~= Seq::<u32>::empty());
        assert(value(a@) * high(b@, j as int) == 0) by (nonlinear_arith)
            requires
                high(b@, j as int) == 0,
        ;
    }
    while j > 0
        invariant
            j <= b.len(),
            value(acc@) == value(a@) * high(b@, j as int),
        decreases j,
    {
        j -= 1;
        let shifted = shift_up(&acc);
        let part = mul_small(a, b[j]);
        proof {
            lemma_high_step(b@, j as int);
            let v = value(a@);
            let h = high(b@, j + 1);
            let d = b[j as int] as nat;
            assert(BASE as nat * (v * h) + v * d == v * (d + BASE as nat * h))
                by (nonlinear_arith);
        }
        acc = add_limbs(&shifted, &part, false);
    }
    proof {
        assert(b@.skip(0) =~= b@);
    }
    acc
}

/// How the numbers of two canonical digit strings compare.
pub fn compare_limbs(a: &Vec<u32>, b: &Vec<u32>) -> (r: Comparison)
    requires
        canonical(a@),
        canonical(b@),
    ensures
        r == order(value(a@), value(b@)),
{
    if a.len() > b.len() {
        proof {
            lemma_longer_is_greater(a@, b@);
        }
        return Comparison::GT;
    }
    if a.len() < b.len() {
        proof {
            lemma_longer_is_greater(b@, a@);
        }
        return Comparison::LT;
    }
    let mut i: usize = a.len();
    while i > 0
        invariant
            i <= a.len(),
            a.len() == b.len(),
            forall|j: int| i <= j < a.len() ==> a[j] == b[j],
        decreases i,
    {
        i -= 1;
        if a[i] > b[i] {
            proof {
                lemma_decided_at(b@, a@, i as int);
            }
            return Comparison::GT;
        }
        if a[i] < b[i] {
            proof {
                lemma_decided_at(a@, b@, i as int);
            }
            return Comparison::LT;
        }
    }
    proof {
        assert(a@ =~= b@);
    }
    Comparison::EQ
}

pub proof fn lemma_value_one(x: u32)
    ensures
        value(seq![x]) == x,
{
    let none = Seq::<u32>::empty();
    assert(seq![x] =~= none.push(x));
    lemma_value_push(none, x);
    assert(value(none) == 0);
    assert(x as nat * weight(0) == x) by (nonlinear_arith)
        requires
            weight(0) == 1,
    ;
}

pub proof fn lemma_value_two(x: u32, y: u32)
    ensures
        value(seq![x, y]) == x + y * BASE,
{
    assert(seq![x, y] =~= seq![x].push(y));
    lemma_value_push(seq![x], y);
    lemma_value_one(x);
    assert(weight(1) == BASE as nat * weight(0));
    assert(y as nat * weight(1) == y * BASE) by (nonlinear_arith)
        requires
            weight(1) == BASE as nat,
    ;
}

} // verus!
