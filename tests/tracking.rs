use jlrs_sched::error::JlrsError;
use jlrs_sched::ledger::{BorrowError, BorrowState, ByteRange, Ledger};
use jlrs_sched::tracking::{AccessKind, Array, ElementLayout, Resize, TrackArray};

fn vector(ptr: u64, len: u64) -> Array {
    Array::new(ptr, 8, vec![len], ElementLayout::Bits(8)).unwrap()
}

#[test]
fn data_range_covers_all_elements() {
    let a = Array::new(1000, 4, vec![2, 3], ElementLayout::Bits(4)).unwrap();
    assert_eq!(a.data_range(), ByteRange::new(1000, 1024));
    assert_eq!(a.n_elements(), 6);
    assert_eq!(a.dimensions(), vec![2, 3]);
}

#[test]
fn descriptions_that_overflow_are_refused() {
    assert!(Array::new(0, 1, vec![u64::MAX, 2], ElementLayout::Bits(1)).is_none());
    assert!(Array::new(u64::MAX - 3, 8, vec![1], ElementLayout::Bits(8)).is_none());
    assert!(Array::new(0, 1, vec![2, u64::MAX], ElementLayout::Bits(1)).is_none());
    assert!(Array::new(0, 1, vec![u64::MAX, 0, 2], ElementLayout::Bits(1)).is_some());
    assert!(Array::new(0, 8, vec![0], ElementLayout::Bits(8)).is_some());
}

#[test]
fn shared_and_exclusive_views_exclude_each_other() {
    let mut l = Ledger::new();
    let a = vector(64, 4);
    let v = a.track(&mut l).unwrap();
    assert_eq!(a.track_mut(&mut l).err(), Some(JlrsError::Borrow(BorrowError::AlreadyBorrowed)));
    let w = v.clone_tracked(&mut l);
    assert_eq!(l.state_of(a.data_range()), Some(BorrowState::Shared(2)));
    v.release(&mut l);
    w.release(&mut l);
    assert_eq!(l.state_of(a.data_range()), None);
    let m = a.track_mut(&mut l).unwrap();
    assert_eq!(
        a.track(&mut l).err(),
        Some(JlrsError::Borrow(BorrowError::AlreadyExclusivelyBorrowed))
    );
    m.release(&mut l);
    assert_eq!(l.state_of(a.data_range()), None);
}

#[test]
fn grow_end_moves_the_record() {
    let mut l = Ledger::new();
    let a = vector(64, 4);
    let mut m = a.track_mut(&mut l).unwrap();
    assert_eq!(m.grow_end(2, 64, &mut l), Ok(()));
    assert_eq!(m.deref().dimensions(), vec![6]);
    assert_eq!(l.state_of(ByteRange::new(64, 96)), None);
    assert_eq!(l.state_of(ByteRange::new(64, 112)), Some(BorrowState::Exclusive));
}

#[test]
fn resizes_at_both_ends() {
    let mut l = Ledger::new();
    let a = vector(64, 4);
    let mut m = a.track_mut(&mut l).unwrap();
    assert_eq!(m.del_end(1, 64, &mut l), Ok(()));
    assert_eq!(l.state_of(ByteRange::new(64, 88)), Some(BorrowState::Exclusive));
    assert_eq!(m.grow_begin(2, 48, &mut l), Ok(()));
    assert_eq!(l.state_of(ByteRange::new(48, 88)), Some(BorrowState::Exclusive));
    assert_eq!(m.del_begin(3, 72, &mut l), Ok(()));
    assert_eq!(l.state_of(ByteRange::new(72, 88)), Some(BorrowState::Exclusive));
    assert_eq!(m.deref().dimensions(), vec![2]);
}

#[test]
fn refused_resizes_change_nothing() {
    let mut l = Ledger::new();
    let a = vector(64, 4);
    let mut m = a.track_mut(&mut l).unwrap();
    assert_eq!(m.resize(Resize::DelEnd, 5, 64, &mut l), Err(JlrsError::OutOfBounds));
    assert_eq!(m.resize(Resize::GrowBegin, 9, u64::MAX - 8, &mut l), Err(JlrsError::OutOfBounds));
    let b = vector(96, 1);
    let other = b.track(&mut l).unwrap();
    assert_eq!(
        m.resize(Resize::GrowEnd, 1, 64, &mut l),
        Err(JlrsError::Borrow(BorrowError::AlreadyBorrowed))
    );
    assert_eq!(l.state_of(ByteRange::new(64, 96)), Some(BorrowState::Exclusive));
    assert_eq!(m.deref().dimensions(), vec![4]);
    other.release(&mut l);
    let square = Array::new(200, 8, vec![2, 2], ElementLayout::Bits(8)).unwrap();
    let mut sq = square.track_mut(&mut l).unwrap();
    assert_eq!(sq.grow_end(1, 200, &mut l), Err(JlrsError::NotOneDimensional));
    assert_eq!(l.state_of(ByteRange::new(200, 232)), Some(BorrowState::Exclusive));
}

#[test]
fn accessors_check_the_layout() {
    let mut l = Ledger::new();
    let a = vector(64, 4);
    let v = a.track(&mut l).unwrap();
    let acc = v.bits_data(ElementLayout::Bits(8)).unwrap();
    assert_eq!(acc.kind, AccessKind::Bits);
    assert_eq!(acc.element_range(1), Some(ByteRange::new(72, 80)));
    assert_eq!(acc.element_range(4), None);
    assert_eq!(v.bits_data(ElementLayout::Bits(4)).err(), Some(JlrsError::InvalidLayout));
    assert!(v.inline_data(ElementLayout::Bits(8)).is_ok());
    assert_eq!(v.managed_data().err(), Some(JlrsError::InvalidLayout));
    assert_eq!(v.union_data().err(), Some(JlrsError::InvalidLayout));
    assert_eq!(v.indeterminate_data().kind, AccessKind::Indeterminate);
    let typed = v.try_as_typed(ElementLayout::Bits(8), &mut l).unwrap();
    assert_eq!(l.state_of(a.data_range()), Some(BorrowState::Shared(1)));
    assert_eq!(typed.try_as_typed(ElementLayout::Managed, &mut l).err(), Some(JlrsError::InvalidLayout));
    assert_eq!(l.state_of(a.data_range()), None);
}

#[test]
fn mutable_accessors_on_managed_buffers() {
    let mut l = Ledger::new();
    let a = Array::new(128, 8, vec![3], ElementLayout::Managed).unwrap();
    let mut m = a.track_mut(&mut l).unwrap();
    let acc = m.managed_data_mut().unwrap();
    assert!(acc.mutable);
    assert!(m.value_data_mut().is_ok());
    assert_eq!(m.bits_data_mut(ElementLayout::Bits(8)).err(), Some(JlrsError::InvalidLayout));
    assert_eq!(m.union_data_mut().err(), Some(JlrsError::InvalidLayout));
    assert_eq!(m.inline_data_mut(ElementLayout::Managed).err(), Some(JlrsError::InvalidLayout));
    let any = m.indeterminate_data_mut();
    assert_eq!(any.element_range(2), Some(ByteRange::new(144, 152)));
    assert!(any.mutable);
}

#[test]
fn grow_end_into_a_new_place_succeeds_next_to_a_borrowed_buffer() {
    let mut l = Ledger::new();
    let a = vector(4096, 4);
    let mut m = a.track_mut(&mut l).unwrap();
    let neighbour = Array::new(4128, 8, vec![2], ElementLayout::Bits(8)).unwrap();
    let other = neighbour.track_mut(&mut l).unwrap();
    assert_eq!(m.grow_end(2, 8192, &mut l), Ok(()));
    assert_eq!(l.state_of(ByteRange::new(4096, 4128)), None);
    assert_eq!(l.state_of(ByteRange::new(8192, 8240)), Some(BorrowState::Exclusive));
    assert_eq!(m.deref().dimensions(), vec![6]);
    assert_eq!(m.grow_end(1, 4120, &mut l), Err(JlrsError::Borrow(BorrowError::AlreadyBorrowed)));
    assert_eq!(l.state_of(ByteRange::new(8192, 8240)), Some(BorrowState::Exclusive));
    other.release(&mut l);
}
