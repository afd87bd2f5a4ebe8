use tapelang::uint::Comparison;
use tapelang::uint::Uint;

fn uint(n: usize) -> Uint {
    Uint::from_usize(n)
}

fn check(actual: Uint, expected: usize, what: &str) {
    assert_eq!(actual.value(), Some(expected), "{} == {}", what, expected);
}

fn check_bool(actual: bool, expected: bool, what: &str) {
    assert_eq!(actual, expected, "{} == {}", what, expected);
}

/// 2^64 + 5, which no machine integer of 64 bits holds.
fn beyond_u64() -> Uint {
    Uint::from_u64(u64::MAX).next().add(&uint(5))
}

#[test]
fn test() {
    check(uint(0), 0, "0");
    check(uint(5), 5, "5");
    check(uint(7).next(), 8, "7.next");
    check(uint(4).add(&uint(3)), 7, "4 + 3");
    check(uint(4).sub(&uint(3)), 1, "4 - 3");
    check(uint(5).sub(&uint(3)), 2, "5 - 3");
    check(uint(5).sub(&uint(2)), 3, "5 - 2");
    check(uint(3).sub(&uint(4)), 0, "3 - 4");
    check(uint(3).mult_and_add(&uint(4), &uint(0)), 12, "3 * 4 + 0");
    check(uint(3).prev(), 2, "3.prev");

    check_bool(uint(3).is_gt(&uint(2)), true, "3 > 2");
    check_bool(uint(3).is_gt(&uint(3)), false, "3 > 3");
    check_bool(uint(3).is_gt(&uint(4)), false, "3 > 4");

    check_bool(uint(3).is_gte(&uint(2)), true, "3 >= 2");
    check_bool(uint(3).is_gte(&uint(3)), true, "3 >= 3");
    check_bool(uint(3).is_gte(&uint(4)), false, "3 >= 4");

    check_bool(uint(3).is_lt(&uint(2)), false, "3 < 2");
    check_bool(uint(3).is_lt(&uint(3)), false, "3 < 3");
    check_bool(uint(3).is_lt(&uint(4)), true, "3 < 4");

    check_bool(uint(3).is_lte(&uint(2)), false, "3 <= 2");
    check_bool(uint(3).is_lte(&uint(3)), true, "3 <= 3");
    check_bool(uint(3).is_lte(&uint(4)), true, "3 <= 4");

    check(uint(2).mult(&uint(3)), 6, "2 * 3");
    check(uint(2).mult_and_add(&uint(3), &uint(5)), 11, "2 * 3 + 5");
}

#[test]
fn zero_is_zero() {
    assert!(Uint::zero().is_zero());
    assert_eq!(Uint::zero().value(), Some(0));
    assert_eq!(Uint::zero().to_u64(), Some(0));
    assert!(!uint(1).is_zero());
    assert_eq!(Uint::zero(), uint(0));
}

#[test]
fn prev_of_zero_is_zero() {
    assert_eq!(Uint::zero().prev().value(), Some(0));
    assert!(Uint::zero().prev().is_zero());
}

#[test]
fn next_of_prev_is_the_number() {
    for n in [1usize, 2, 3, 255, 256, 65535, 4294967295, 4294967296, 4294967297] {
        assert_eq!(uint(n).prev().next().value(), Some(n));
        assert_eq!(uint(n).prev().value(), Some(n - 1));
    }
}

#[test]
fn sub_saturates_at_zero() {
    assert_eq!(uint(3).sub(&uint(3)).value(), Some(0));
    assert_eq!(uint(3).sub(&uint(1000)).value(), Some(0));
    assert_eq!(Uint::zero().sub(&uint(1)).value(), Some(0));
    assert_eq!(uint(7).sub(&beyond_u64()).value(), Some(0));
    assert_eq!(uint(7).rev_sub(&uint(10)).value(), Some(3));
    assert_eq!(uint(10).rev_sub(&uint(7)).value(), Some(0));
}

#[test]
fn next_carries_into_a_new_digit() {
    let top = Uint::from_u64(u64::MAX);
    assert_eq!(top.to_u64(), Some(u64::MAX));
    let over = top.next();
    assert_eq!(over.to_u64(), None);
    assert_eq!(over.value(), None);
    assert_eq!(over.prev().to_u64(), Some(u64::MAX));
    assert_eq!(Uint::from_u64(0xffff_ffff).next().to_u64(), Some(0x1_0000_0000));
    assert_eq!(Uint::from_u64(0x1_0000_0000).prev().to_u64(), Some(0xffff_ffff));
}

#[test]
fn add_and_sub_across_digits() {
    let a = Uint::from_u64(0xffff_ffff_ffff_ffff);
    let b = Uint::from_u64(1);
    let sum = a.add(&b);
    assert_eq!(sum.to_u64(), None);
    assert_eq!(sum.sub(&b).to_u64(), Some(0xffff_ffff_ffff_ffff));
    assert_eq!(sum.sub(&a).to_u64(), Some(1));
    assert_eq!(
        Uint::from_u64(0x1234_5678_9abc_def0).add(&Uint::from_u64(0x0fed_cba9_8765_4321)).to_u64(),
        Some(0x2222_2222_2222_2211)
    );
    assert_eq!(
        Uint::from_u64(0x2222_2222_2222_2211).sub(&Uint::from_u64(0x0fed_cba9_8765_4321)).to_u64(),
        Some(0x1234_5678_9abc_def0)
    );
    assert_eq!(
        Uint::from_u64(0x1_0000_0000).sub(&Uint::from_u64(1)).to_u64(),
        Some(0xffff_ffff)
    );
}

#[test]
fn mult_is_exact() {
    assert_eq!(uint(0).mult(&uint(12345)).value(), Some(0));
    assert_eq!(uint(12345).mult(&uint(0)).value(), Some(0));
    assert_eq!(uint(1).mult(&uint(12345)).value(), Some(12345));
    assert_eq!(
        Uint::from_u64(0xffff_ffff).mult(&Uint::from_u64(0xffff_ffff)).to_u64(),
        Some(0xffff_fffe_0000_0001)
    );
    assert_eq!(
        Uint::from_u64(123_456_789).mult(&Uint::from_u64(987_654_321)).to_u64(),
        Some(121_932_631_112_635_269)
    );
    // (2^64 - 1)^2 = (2^64 - 2) * 2^64 + 1
    let top = Uint::from_u64(u64::MAX);
    let square = top.mult(&top);
    assert_eq!(square.to_u64(), None);
    let two_to_64 = top.next();
    let expected = Uint::from_u64(u64::MAX - 1).mult_and_add(&two_to_64, &Uint::from_u64(1));
    assert_eq!(square, expected);
    assert_eq!(square.compare(&expected), Comparison::EQ);
    assert_eq!(square.sub(&expected).value(), Some(0));
    assert_eq!(square.sub(&Uint::from_u64(1)).sub(&Uint::from_u64(u64::MAX - 1).mult(&two_to_64)).value(), Some(0));
}

#[test]
fn compare_orders_numbers() {
    assert_eq!(uint(3).compare(&uint(4)), Comparison::LT);
    assert_eq!(uint(4).compare(&uint(4)), Comparison::EQ);
    assert_eq!(uint(5).compare(&uint(4)), Comparison::GT);
    assert_eq!(Uint::zero().compare(&Uint::zero()), Comparison::EQ);
    assert_eq!(uint(1).compare(&beyond_u64()), Comparison::LT);
    assert_eq!(beyond_u64().compare(&uint(1)), Comparison::GT);
    assert_eq!(beyond_u64().compare(&beyond_u64()), Comparison::EQ);
    assert_eq!(
        Uint::from_u64(0x2_0000_0001).compare(&Uint::from_u64(0x1_ffff_ffff)),
        Comparison::GT
    );
    assert_eq!(
        Uint::from_u64(0x1_0000_0002).compare(&Uint::from_u64(0x1_0000_0003)),
        Comparison::LT
    );
    assert!(uint(4) == uint(4));
    assert!(uint(4) != uint(5));
}

#[test]
fn clone_keeps_the_number() {
    let n = beyond_u64();
    let m = n.clone();
    assert_eq!(n, m);
    assert_eq!(m.sub(&Uint::from_u64(u64::MAX)).value(), Some(6));
}

#[test]
fn value_is_none_beyond_the_machine() {
    assert_eq!(uint(usize::MAX).value(), Some(usize::MAX));
    assert_eq!(uint(usize::MAX).next().value(), None);
    assert_eq!(Uint::from_u64(u64::MAX).next().to_u64(), None);
}
