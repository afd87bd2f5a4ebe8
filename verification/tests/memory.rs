use tapelang::memory::Memory;
use tapelang::uint::Uint;

fn uint(n: usize) -> Uint {
    Uint::from_usize(n)
}

fn row(values: &[usize]) -> Memory {
    let mut memory = Memory::new();
    for v in values {
        memory.push(uint(*v));
    }
    memory
}

#[test]
fn get_is_zero_beyond_the_end() {
    let memory = row(&[5, 6]);
    assert_eq!(memory.get(&uint(0)).value(), Some(5));
    assert_eq!(memory.get(&uint(1)).value(), Some(6));
    assert_eq!(memory.get(&uint(2)).value(), Some(0));
    assert_eq!(memory.get(&uint(1_000_000)).value(), Some(0));
    assert_eq!(memory.get(&Uint::from_u64(u64::MAX).next()).value(), Some(0));
    assert_eq!(Memory::new().get(&uint(0)).value(), Some(0));
    assert_eq!(memory.len(), 2);
}

#[test]
fn set_then_get_gives_the_value() {
    let mut memory = row(&[5, 6, 7]);
    memory.set(&uint(1), uint(60));
    assert_eq!(memory.get(&uint(1)).value(), Some(60));
    assert_eq!(memory.get(&uint(0)).value(), Some(5));
    assert_eq!(memory.get(&uint(2)).value(), Some(7));
    assert_eq!(memory.get(&uint(3)).value(), Some(0));
    assert_eq!(memory.reify(), Some(vec![5, 60, 7]));
}

#[test]
fn set_beyond_the_end_fills_with_zeros() {
    let mut memory = row(&[5]);
    memory.set(&uint(4), uint(9));
    assert_eq!(memory.reify(), Some(vec![5, 0, 0, 0, 9]));
    assert_eq!(memory.get(&uint(4)).value(), Some(9));
    assert_eq!(memory.get(&uint(3)).value(), Some(0));
    let mut empty = Memory::new();
    empty.set(&uint(0), uint(1));
    assert_eq!(empty.reify(), Some(vec![1]));
}

#[test]
fn inc_and_dec_change_one_cell() {
    let mut memory = row(&[5, 0]);
    memory.inc(&uint(0));
    memory.dec(&uint(1));
    assert_eq!(memory.reify(), Some(vec![6, 0]));
    memory.dec(&uint(0));
    memory.dec(&uint(0));
    assert_eq!(memory.reify(), Some(vec![4, 0]));
    memory.inc(&uint(3));
    assert_eq!(memory.reify(), Some(vec![4, 0, 0, 1]));
    memory.dec(&uint(5));
    assert_eq!(memory.reify(), Some(vec![4, 0, 0, 1, 0, 0]));
}

#[test]
fn pop_front_takes_the_first() {
    let mut memory = row(&[1, 2, 3]);
    assert_eq!(memory.pop_front().map(|n| n.value()), Some(Some(1)));
    assert_eq!(memory.reify(), Some(vec![2, 3]));
    assert_eq!(memory.pop_front().map(|n| n.value()), Some(Some(2)));
    assert_eq!(memory.pop_front().map(|n| n.value()), Some(Some(3)));
    assert!(memory.pop_front().is_none());
    assert!(memory.pop_front().is_none());
    assert_eq!(memory.reify(), Some(vec![]));
}

#[test]
fn push_adds_at_the_end() {
    let mut memory = Memory::new();
    memory.push(uint(3));
    memory.push(uint(1));
    memory.push(uint(2));
    assert_eq!(memory.reify(), Some(vec![3, 1, 2]));
    assert_eq!(memory.len(), 3);
}

#[test]
fn head_and_tail() {
    let memory = row(&[1, 2, 3]);
    assert_eq!(memory.head_or(uint(9)).value(), Some(1));
    assert_eq!(memory.tail().reify(), Some(vec![2, 3]));
    assert_eq!(memory.tail().tail().tail().reify(), Some(vec![]));
    let empty = Memory::new();
    assert_eq!(empty.head_or(uint(9)).value(), Some(9));
    assert_eq!(empty.tail().reify(), Some(vec![]));
}

#[test]
fn reify_is_none_for_a_number_too_large() {
    let mut memory = row(&[1, 2]);
    memory.push(uint(usize::MAX).next());
    assert_eq!(memory.reify(), None);
    assert_eq!(memory.pop_front().map(|n| n.value()), Some(Some(1)));
    assert_eq!(memory.reify(), None);
    memory.set(&uint(1), uint(7));
    assert_eq!(memory.reify(), Some(vec![2, 7]));
}

#[test]
fn from_values_holds_the_values() {
    let memory = Memory::from_values(&[4, 0, 9]);
    assert_eq!(memory.len(), 3);
    assert_eq!(memory.reify(), Some(vec![4, 0, 9]));
    assert_eq!(memory.get(&uint(2)).value(), Some(9));
    assert_eq!(Memory::from_values(&[]).reify(), Some(vec![]));
    assert_eq!(Memory::from_values(&[usize::MAX]).reify(), Some(vec![usize::MAX]));
}

#[test]
fn rows_compare_cell_by_cell() {
    assert!(row(&[1, 2, 3]) == Memory::from_values(&[1, 2, 3]));
    assert!(row(&[1, 2, 3]) != row(&[1, 2]));
    assert!(row(&[1, 2, 3]) != row(&[1, 2, 4]));
    assert!(Memory::new() == row(&[]));
    // a row that was filled with zeros is longer than one that was not
    assert!(row(&[1]) != row(&[1, 0]));
    let mut copy = row(&[1, 2, 3]).clone();
    assert!(copy == row(&[1, 2, 3]));
    copy.inc(&uint(0));
    assert!(copy == row(&[2, 2, 3]));
}
