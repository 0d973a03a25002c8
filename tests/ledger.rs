use jlrs_sched::ledger::{BorrowError, BorrowState, ByteRange, Ledger, ranges_contend};

fn r(start: u64, end: u64) -> ByteRange {
    ByteRange::new(start, end)
}

#[test]
fn disjoint_exclusive_borrows_coexist() {
    let mut l = Ledger::new();
    assert_eq!(l.try_borrow_mut(r(0, 16)), Ok(()));
    assert_eq!(l.try_borrow_mut(r(16, 32)), Ok(()));
    assert_eq!(l.state_of(r(0, 16)), Some(BorrowState::Exclusive));
    assert_eq!(l.state_of(r(16, 32)), Some(BorrowState::Exclusive));
}

#[test]
fn overlapping_borrow_mut_is_refused_both_ways() {
    let mut l = Ledger::new();
    assert_eq!(l.try_borrow(r(0, 16)), Ok(()));
    assert_eq!(l.try_borrow_mut(r(8, 24)), Err(BorrowError::AlreadyBorrowed));
    let mut l2 = Ledger::new();
    assert_eq!(l2.try_borrow_mut(r(8, 24)), Ok(()));
    assert_eq!(l2.try_borrow_mut(r(0, 16)), Err(BorrowError::AlreadyBorrowed));
    assert_eq!(l2.try_borrow(r(0, 16)), Err(BorrowError::AlreadyExclusivelyBorrowed));
    assert_eq!(l2.try_borrow(r(8, 24)), Err(BorrowError::AlreadyExclusivelyBorrowed));
}

#[test]
fn shared_borrows_stack_up() {
    let mut l = Ledger::new();
    assert_eq!(l.try_borrow(r(0, 8)), Ok(()));
    assert_eq!(l.try_borrow(r(0, 8)), Ok(()));
    assert_eq!(l.try_borrow(r(4, 12)), Ok(()));
    assert_eq!(l.state_of(r(0, 8)), Some(BorrowState::Shared(2)));
    assert_eq!(l.state_of(r(4, 12)), Some(BorrowState::Shared(1)));
}

#[test]
fn clone_then_two_unborrows_release_fully() {
    let mut l = Ledger::new();
    assert_eq!(l.try_borrow(r(0, 8)), Ok(()));
    l.clone_shared(r(0, 8));
    assert_eq!(l.state_of(r(0, 8)), Some(BorrowState::Shared(2)));
    l.unborrow_shared(r(0, 8));
    assert_eq!(l.state_of(r(0, 8)), Some(BorrowState::Shared(1)));
    l.unborrow_shared(r(0, 8));
    assert_eq!(l.state_of(r(0, 8)), None);
    assert_eq!(l.try_borrow_mut(r(0, 8)), Ok(()));
}

#[test]
fn unborrow_owned_frees_the_range() {
    let mut l = Ledger::new();
    assert_eq!(l.try_borrow_mut(r(0, 8)), Ok(()));
    l.unborrow_owned(r(0, 8));
    assert_eq!(l.state_of(r(0, 8)), None);
    assert_eq!(l.try_borrow(r(0, 8)), Ok(()));
}

#[test]
fn replace_moves_the_exclusive_record() {
    let mut l = Ledger::new();
    assert_eq!(l.try_borrow_mut(r(0, 8)), Ok(()));
    assert_eq!(l.try_borrow_mut(r(0, 16)), Err(BorrowError::AlreadyBorrowed));
    assert_eq!(l.replace_borrow_mut(r(0, 8), r(0, 16)), Ok(()));
    assert_eq!(l.state_of(r(0, 8)), None);
    assert_eq!(l.state_of(r(0, 16)), Some(BorrowState::Exclusive));
    assert_eq!(l.try_borrow_mut(r(0, 16)), Err(BorrowError::AlreadyBorrowed));
    assert_eq!(l.try_borrow(r(8, 9)), Err(BorrowError::AlreadyExclusivelyBorrowed));
}

#[test]
fn replace_onto_borrowed_memory_is_refused() {
    let mut l = Ledger::new();
    assert_eq!(l.try_borrow_mut(r(0, 8)), Ok(()));
    assert_eq!(l.try_borrow(r(8, 16)), Ok(()));
    assert_eq!(l.replace_borrow_mut(r(0, 8), r(0, 12)), Err(BorrowError::AlreadyBorrowed));
    assert_eq!(l.state_of(r(0, 8)), Some(BorrowState::Exclusive));
    assert_eq!(l.state_of(r(8, 16)), Some(BorrowState::Shared(1)));
}

#[test]
fn empty_ranges_contend_with_themselves_and_what_encloses_them() {
    assert!(ranges_contend(r(4, 4), r(4, 4)));
    assert!(ranges_contend(r(4, 4), r(0, 8)));
    assert!(!ranges_contend(r(8, 8), r(0, 8)));
    assert!(ranges_contend(r(0, 8), r(7, 9)));
    assert!(!ranges_contend(r(0, 8), r(8, 9)));
    let mut l = Ledger::new();
    assert_eq!(l.try_borrow_mut(r(8, 8)), Ok(()));
    assert_eq!(l.try_borrow(r(8, 8)), Err(BorrowError::AlreadyExclusivelyBorrowed));
    assert_eq!(l.try_borrow_mut(r(0, 8)), Ok(()));
}
