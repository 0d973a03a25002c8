//! The borrow ledger: which byte ranges are borrowed, and how.
//!
//! A range may be borrowed by any number of shared holders, or by one exclusive holder. The
//! ledger is modelled as a map from a range's `(start, end)` key to its borrow state.

use vstd::prelude::*;

verus! {

/// The half-open span of addresses `[start, end)`.
#[derive(Clone, Copy, Debug, PartialEq, Eq, Structural)]
pub struct ByteRange {
    pub start: u64,
    pub end: u64,
}

impl ByteRange {
    /// The range as a `(start, end)` pair, the ledger's key.
    pub open spec fn key(self) -> (u64, u64) {
        (self.start, self.end)
    }

    pub fn new(start: u64, end: u64) -> (r: ByteRange)
        ensures
            r.start == start,
            r.end == end,
    {
        ByteRange { start, end }
    }
}

/// How a range is held: by `n >= 1` shared holders, or by a single exclusive one.
#[derive(Clone, Copy, Debug, PartialEq, Eq, Structural)]
pub enum BorrowState {
    Shared(u64),
    Exclusive,
}

/// One entry of the ledger.
#[derive(Clone, Copy, Debug, PartialEq, Eq, Structural)]
pub struct BorrowRecord {
    pub range: ByteRange,
    pub state: BorrowState,
}

/// Why a borrow was refused.
#[derive(Clone, Copy, Debug, PartialEq, Eq, Structural)]
pub enum BorrowError {
    /// A shared borrow met an exclusive borrow of the same memory.
    AlreadyExclusivelyBorrowed,
    /// An exclusive borrow met some other borrow of the same memory.
    AlreadyBorrowed,
}

/// The abstract state of a ledger.
pub type LedgerModel = Map<(u64, u64), BorrowState>;

/// The two spans share at least one address.
pub open spec fn spans_overlap(a: (u64, u64), b: (u64, u64)) -> bool {
    a.0 < b.1 && b.0 < a.1
}

/// Borrows of `a` and `b` concern the same memory: the spans are equal (empty spans
/// included) or overlap.
pub open spec fn contends(a: (u64, u64), b: (u64, u64)) -> bool {
    a == b || spans_overlap(a, b)
}

/// Some exclusive record contends with `r`.
pub open spec fn exclusive_conflict(m: LedgerModel, r: (u64, u64)) -> bool {
    exists|k: (u64, u64)| #[trigger] m.contains_key(k) && m[k] == BorrowState::Exclusive && contends(k, r)
}

/// Some record, shared or exclusive, contends with `r`.
pub open spec fn any_conflict(m: LedgerModel, r: (u64, u64)) -> bool {
    exists|k: (u64, u64)| #[trigger] m.contains_key(k) && contends(k, r)
}

/// A shared borrow of `r` is granted.
pub open spec fn can_borrow(m: LedgerModel, r: (u64, u64)) -> bool {
    !exclusive_conflict(m, r)
}

/// An exclusive borrow of `r` is granted.
pub open spec fn can_borrow_mut(m: LedgerModel, r: (u64, u64)) -> bool {
    !any_conflict(m, r)
}

/// The number of shared holders of exactly `r` (zero when there is no shared record).
pub open spec fn shared_count(m: LedgerModel, r: (u64, u64)) -> nat {
    if m.contains_key(r) {
        match m[r] {
            BorrowState::Shared(n) => n as nat,
            BorrowState::Exclusive => 0,
        }
    } else {
        0
    }
}

/// `r` holds a shared record.
pub open spec fn is_shared(m: LedgerModel, r: (u64, u64)) -> bool {
    m.contains_key(r) && m[r] is Shared
}

/// `r` holds an exclusive record.
pub open spec fn is_exclusive(m: LedgerModel, r: (u64, u64)) -> bool {
    m.contains_key(r) && m[r] == BorrowState::Exclusive
}

/// The ledger after one more shared holder of `r`.
pub open spec fn after_borrow(m: LedgerModel, r: (u64, u64)) -> LedgerModel {
    m.insert(r, BorrowState::Shared((shared_count(m, r) + 1) as u64))
}

/// The ledger after an exclusive borrow of `r`.
pub open spec fn after_borrow_mut(m: LedgerModel, r: (u64, u64)) -> LedgerModel {
    m.insert(r, BorrowState::Exclusive)
}

/// The ledger after one shared holder of `r` lets go.
pub open spec fn after_unborrow_shared(m: LedgerModel, r: (u64, u64)) -> LedgerModel {
    if shared_count(m, r) <= 1 {
        m.remove(r)
    } else {
        m.insert(r, BorrowState::Shared((shared_count(m, r) - 1) as u64))
    }
}

/// The ledger after the exclusive holder of `r` lets go.
pub open spec fn after_unborrow_owned(m: LedgerModel, r: (u64, u64)) -> LedgerModel {
    m.remove(r)
}

/// The exclusive record of `old` may move to `new`: no other record contends with `new`.
pub open spec fn can_replace(m: LedgerModel, old: (u64, u64), new: (u64, u64)) -> bool {
    can_borrow_mut(m.remove(old), new)
}

/// The ledger after the exclusive record of `old` was moved to `new`.
pub open spec fn after_replace(m: LedgerModel, old: (u64, u64), new: (u64, u64)) -> LedgerModel {
    m.remove(old).insert(new, BorrowState::Exclusive)
}

/// The invariant of the ledger: shared records count at least one holder, and an exclusive
/// record contends with no other record.
pub open spec fn model_wf(m: LedgerModel) -> bool {
    &&& forall|k: (u64, u64)| #[trigger] m.contains_key(k) && m[k] is Shared ==> shared_count(m, k) >= 1
    &&& forall|k1: (u64, u64), k2: (u64, u64)|
        #![trigger m.contains_key(k1), m.contains_key(k2)]
        m.contains_key(k1) && m.contains_key(k2) && k1 != k2 && m[k1] == BorrowState::Exclusive
            ==> !contends(k1, k2)
}


/// Record `j` of `s` contends with `r` (and is exclusive, when `excl` asks for that).
pub open spec fn conflict_at(s: Seq<BorrowRecord>, j: int, r: (u64, u64), excl: bool) -> bool {
    (!excl || s[j].state == BorrowState::Exclusive) && contends(s[j].range.key(), r)
}

/// Some record of `s` other than the one at `skip` contends with `r`.
pub open spec fn seq_conflict(s: Seq<BorrowRecord>, r: (u64, u64), excl: bool, skip: int) -> bool {
    exists|j: int| 0 <= j < s.len() && j != skip && #[trigger] conflict_at(s, j, r, excl)
}

/// No two records of `s` share a range.
pub open spec fn keys_distinct(s: Seq<BorrowRecord>) -> bool {
    forall|i: int, j: int|
        0 <= i < s.len() && 0 <= j < s.len() && i != j ==> #[trigger] s[i].range.key()
            != #[trigger] s[j].range.key()
}

/// Some record of `s` has the range `k`.
pub open spec fn holds_key(s: Seq<BorrowRecord>, k: (u64, u64)) -> bool {
    exists|i: int| 0 <= i < s.len() && #[trigger] s[i].range.key() == k
}

/// The map that a list of records with distinct ranges stands for.
pub open spec fn model_of(s: Seq<BorrowRecord>) -> LedgerModel {
    Map::new(
        |k: (u64, u64)| holds_key(s, k),
        |k: (u64, u64)| s[choose|i: int| 0 <= i < s.len() && #[trigger] s[i].range.key() == k].state,
    )
}

proof fn lemma_model_at(s: Seq<BorrowRecord>, i: int)
    requires
        keys_distinct(s),
        0 <= i < s.len(),
    ensures
        model_of(s).contains_key(s[i].range.key()),
        model_of(s)[s[i].range.key()] == s[i].state,
{
    let k = s[i].range.key();
    assert(holds_key(s, k));
    let j = choose|j: int| 0 <= j < s.len() && #[trigger] s[j].range.key() == k;
    assert(j == i);
}

proof fn lemma_model_key(s: Seq<BorrowRecord>, k: (u64, u64)) -> (i: int)
    requires
        keys_distinct(s),
        model_of(s).contains_key(k),
    ensures
        0 <= i < s.len(),
        s[i].range.key() == k,
        model_of(s)[k] == s[i].state,
{
    let i = choose|i: int| 0 <= i < s.len() && #[trigger] s[i].range.key() == k;
    lemma_model_at(s, i);
    i
}

proof fn lemma_model_push(s: Seq<BorrowRecord>, x: BorrowRecord)
    requires
        keys_distinct(s),
        !model_of(s).contains_key(x.range.key()),
    ensures
        keys_distinct(s.push(x)),
        model_of(s.push(x)) == model_of(s).insert(x.range.key(), x.state),
{
    let t = s.push(x);
    assert forall|i: int, j: int|
        0 <= i < t.len() && 0 <= j < t.len() && i != j implies #[trigger] t[i].range.key()
            != #[trigger] t[j].range.key() by {
        if i < s.len() && j < s.len() {
        } else if i < s.len() {
            assert(s[i].range.key() == t[i].range.key());
        } else {
            assert(s[j].range.key() == t[j].range.key());
        }
    }
    let m = model_of(s).insert(x.range.key(), x.state);
    assert forall|k: (u64, u64)| #[trigger] model_of(t).contains_key(k) <==> m.contains_key(k) by {
        if model_of(t).contains_key(k) {
            let i = lemma_model_key(t, k);
            if i < s.len() {
                lemma_model_at(s, i);
            }
        }
        if m.contains_key(k) && k != x.range.key() {
            let i = lemma_model_key(s, k);
            lemma_model_at(t, i);
        }
        if k == x.range.key() {
            lemma_model_at(t, s.len() as int);
        }
    }
    assert forall|k: (u64, u64)| #[trigger] model_of(t).contains_key(k) implies model_of(t)[k] == m[k] by {
        let i = lemma_model_key(t, k);
        if i < s.len() {
            lemma_model_at(s, i);
        }
    }
    assert(model_of(t) =~= m);
}

proof fn lemma_model_retarget(s: Seq<BorrowRecord>, i: int, x: BorrowRecord)
    requires
        keys_distinct(s),
        0 <= i < s.len(),
        forall|j: int| 0 <= j < s.len() && j != i ==> s[j].range.key() != x.range.key(),
    ensures
        keys_distinct(s.update(i, x)),
        model_of(s.update(i, x)) == model_of(s).remove(s[i].range.key()).insert(x.range.key(), x.state),
{
    let t = s.update(i, x);
    assert forall|a: int, b: int|
        0 <= a < t.len() && 0 <= b < t.len() && a != b implies #[trigger] t[a].range.key()
            != #[trigger] t[b].range.key() by {
        if a != i && b != i {
            assert(s[a].range.key() != s[b].range.key());
        } else if a == i {
            assert(s[b].range.key() != x.range.key());
        } else {
            assert(s[a].range.key() != x.range.key());
        }
    }
    let m = model_of(s).remove(s[i].range.key()).insert(x.range.key(), x.state);
    assert forall|k: (u64, u64)| #[trigger] model_of(t).contains_key(k) <==> m.contains_key(k) by {
        if model_of(t).contains_key(k) {
            let j = lemma_model_key(t, k);
            if j != i {
                lemma_model_at(s, j);
            }
        }
        if m.contains_key(k) && k != x.range.key() {
            let j = lemma_model_key(s, k);
            lemma_model_at(t, j);
        }
        if k == x.range.key() {
            lemma_model_at(t, i);
        }
    }
    assert forall|k: (u64, u64)| #[trigger] model_of(t).contains_key(k) implies model_of(t)[k] == m[k] by {
        let j = lemma_model_key(t, k);
        if j != i {
            lemma_model_at(s, j);
        }
    }
    assert(model_of(t) =~= m);
}

proof fn lemma_model_remove(s: Seq<BorrowRecord>, i: int)
    requires
        keys_distinct(s),
        0 <= i < s.len(),
    ensures
        keys_distinct(s.remove(i)),
        model_of(s.remove(i)) == model_of(s).remove(s[i].range.key()),
{
    let t = s.remove(i);
    assert forall|a: int, b: int|
        0 <= a < t.len() && 0 <= b < t.len() && a != b implies #[trigger] t[a].range.key()
            != #[trigger] t[b].range.key() by {
        let sa = if a < i { a } else { a + 1 };
        let sb = if b < i { b } else { b + 1 };
        assert(t[a] == s[sa]);
        assert(t[b] == s[sb]);
    }
    let m = model_of(s).remove(s[i].range.key());
    assert forall|k: (u64, u64)| #[trigger] model_of(t).contains_key(k) <==> m.contains_key(k) by {
        if model_of(t).contains_key(k) {
            let j = lemma_model_key(t, k);
            let sj = if j < i { j } else { j + 1 };
            assert(t[j] == s[sj]);
            lemma_model_at(s, sj);
        }
        if m.contains_key(k) {
            let j = lemma_model_key(s, k);
            let tj = if j < i { j } else { j - 1 };
            assert(t[tj] == s[j]);
            lemma_model_at(t, tj);
        }
    }
    assert forall|k: (u64, u64)| #[trigger] model_of(t).contains_key(k) implies model_of(t)[k] == m[k] by {
        let j = lemma_model_key(t, k);
        let sj = if j < i { j } else { j + 1 };
        assert(t[j] == s[sj]);
        lemma_model_at(s, sj);
    }
    assert(model_of(t) =~= m);
}

/// A scan of the records agrees with the model: the record at `skip`, if any, is left out.
proof fn lemma_conflict_bridge(s: Seq<BorrowRecord>, r: (u64, u64), excl: bool, skip: int)
    requires
        keys_distinct(s),
    ensures
        !(0 <= skip < s.len()) ==> (seq_conflict(s, r, excl, skip) <==> (if excl {
            exclusive_conflict(model_of(s), r)
        } else {
            any_conflict(model_of(s), r)
        })),
        0 <= skip < s.len() ==> (seq_conflict(s, r, false, skip) <==> any_conflict(
            model_of(s).remove(s[skip].range.key()),
            r,
        )),
{
    let m = model_of(s);
    let mm = if 0 <= skip < s.len() { m.remove(s[skip].range.key()) } else { m };
    if seq_conflict(s, r, excl, skip) {
        let j = choose|j: int| 0 <= j < s.len() && j != skip && #[trigger] conflict_at(s, j, r, excl);
        lemma_model_at(s, j);
        let k = s[j].range.key();
        assert(mm.contains_key(k));
    }
    if !(0 <= skip < s.len()) && excl && exclusive_conflict(m, r) {
        let k = choose|k: (u64, u64)| #[trigger] m.contains_key(k) && m[k] == BorrowState::Exclusive && contends(k, r);
        let j = lemma_model_key(s, k);
        assert(conflict_at(s, j, r, excl));
    }
    if !excl && any_conflict(mm, r) {
        let k = choose|k: (u64, u64)| #[trigger] mm.contains_key(k) && contends(k, r);
        let j = lemma_model_key(s, k);
        assert(conflict_at(s, j, r, excl));
    }
    if 0 <= skip < s.len() && seq_conflict(s, r, false, skip) {
        let j = choose|j: int| 0 <= j < s.len() && j != skip && #[trigger] conflict_at(s, j, r, false);
        lemma_model_at(s, j);
        assert(mm.contains_key(s[j].range.key()));
    }
    if 0 <= skip < s.len() && any_conflict(mm, r) {
        let k = choose|k: (u64, u64)| #[trigger] mm.contains_key(k) && contends(k, r);
        let j = lemma_model_key(s, k);
        assert(conflict_at(s, j, r, false));
    }
}


proof fn lemma_wf_after_borrow(m: LedgerModel, r: (u64, u64))
    requires
        model_wf(m),
        can_borrow(m, r),
        shared_count(m, r) < u64::MAX,
    ensures
        model_wf(after_borrow(m, r)),
{
    let m2 = after_borrow(m, r);
    assert forall|k1: (u64, u64), k2: (u64, u64)|
        #![trigger m2.contains_key(k1), m2.contains_key(k2)]
        m2.contains_key(k1) && m2.contains_key(k2) && k1 != k2 && m2[k1] == BorrowState::Exclusive
            implies !contends(k1, k2) by {
        if k2 == r {
            assert(m.contains_key(k1));
        }
    }
}

proof fn lemma_wf_after_borrow_mut(m: LedgerModel, r: (u64, u64))
    requires
        model_wf(m),
        can_borrow_mut(m, r),
    ensures
        model_wf(after_borrow_mut(m, r)),
{
    let m2 = after_borrow_mut(m, r);
    assert forall|k1: (u64, u64), k2: (u64, u64)|
        #![trigger m2.contains_key(k1), m2.contains_key(k2)]
        m2.contains_key(k1) && m2.contains_key(k2) && k1 != k2 && m2[k1] == BorrowState::Exclusive
            implies !contends(k1, k2) by {
        if k1 == r {
            assert(m.contains_key(k2));
        } else if k2 == r {
            assert(m.contains_key(k1));
        }
    }
}

proof fn lemma_wf_after_unborrow_shared(m: LedgerModel, r: (u64, u64))
    requires
        model_wf(m),
        is_shared(m, r),
    ensures
        model_wf(after_unborrow_shared(m, r)),
{
    let m2 = after_unborrow_shared(m, r);
    assert forall|k1: (u64, u64), k2: (u64, u64)|
        #![trigger m2.contains_key(k1), m2.contains_key(k2)]
        m2.contains_key(k1) && m2.contains_key(k2) && k1 != k2 && m2[k1] == BorrowState::Exclusive
            implies !contends(k1, k2) by {
        assert(m.contains_key(k1) && m.contains_key(k2));
    }
}

proof fn lemma_wf_after_replace(m: LedgerModel, old: (u64, u64), new: (u64, u64))
    requires
        model_wf(m),
        can_replace(m, old, new),
    ensures
        model_wf(after_replace(m, old, new)),
{
    let m1 = m.remove(old);
    assert forall|k1: (u64, u64), k2: (u64, u64)|
        #![trigger m1.contains_key(k1), m1.contains_key(k2)]
        m1.contains_key(k1) && m1.contains_key(k2) && k1 != k2 && m1[k1] == BorrowState::Exclusive
            implies !contends(k1, k2) by {
        assert(m.contains_key(k1) && m.contains_key(k2));
    }
    lemma_wf_after_borrow_mut(m1, new);
}

/// The registry of borrowed ranges.
pub struct Ledger {
    records: Vec<BorrowRecord>,
}

impl Ledger {
    /// The ledger as a map from a range's key to its borrow state.
    pub closed spec fn view(&self) -> LedgerModel {
        model_of(self.records@)
    }

    /// The records have distinct ranges and their map meets the ledger's invariant.
    pub closed spec fn wf(&self) -> bool {
        keys_distinct(self.records@) && model_wf(self@)
    }

    /// A well-formed ledger meets the invariant of its model.
    pub proof fn lemma_wf_model(&self)
        requires
            self.wf(),
        ensures
            model_wf(self@),
    {
    }

    /// An empty ledger.
    pub fn new() -> (l: Ledger)
        ensures
            l.wf(),
            l@ == LedgerModel::empty(),
    {
        let l = Ledger { records: Vec::new() };
        assert(l@ =~= LedgerModel::empty());
        l
    }

    /// What the ledger says of exactly `range`.
    pub fn state_of(&self, range: ByteRange) -> (r: Option<BorrowState>)
        requires
            self.wf(),
        ensures
            r == (if self@.contains_key(range.key()) {
                Some(self@[range.key()])
            } else {
                None
            }),
    {
        match self.position(range) {
            Some(i) => {
                proof {
                    lemma_model_at(self.records@, i as int);
                }
                Some(self.records[i].state)
            },
            None => None,
        }
    }

    fn position(&self, range: ByteRange) -> (r: Option<usize>)
        requires
            self.wf(),
        ensures
            match r {
                Some(i) => i < self.records@.len() && self.records@[i as int].range == range,
                None => !self@.contains_key(range.key()),
            },
    {
        let mut i: usize = 0;
        while i < self.records.len()
            invariant
                self.wf(),
                i <= self.records@.len(),
                forall|j: int| 0 <= j < i ==> #[trigger] self.records@[j].range.key() != range.key(),
            decreases self.records@.len() - i,
        {
            if self.records[i].range == range {
                return Some(i);
            }
            i += 1;
        }
        None
    }

    /// Looks for a record other than the one at `skip` that contends with `range` (and is
    /// exclusive, when `excl` asks for that).
    fn scan(&self, range: ByteRange, excl: bool, skip: usize) -> (found: bool)
        requires
            self.wf(),
        ensures
            found == seq_conflict(self.records@, range.key(), excl, skip as int),
    {
        let mut i: usize = 0;
        while i < self.records.len()
            invariant
                self.wf(),
                i <= self.records@.len(),
                forall|j: int| 0 <= j < i && j != skip ==> !#[trigger] conflict_at(self.records@, j, range.key(), excl),
            decreases self.records@.len() - i,
        {
            let rec = self.records[i];
            if i != skip && (!excl || rec.state == BorrowState::Exclusive) && ranges_contend(
                rec.range,
                range,
            ) {
                assert(conflict_at(self.records@, i as int, range.key(), excl));
                return true;
            }
            i += 1;
        }
        false
    }

    /// Adds a shared holder of `range`, unless an exclusive borrow contends with it.
    pub fn try_borrow(&mut self, range: ByteRange) -> (r: Result<(), BorrowError>)
        requires
            old(self).wf(),
            shared_count(old(self)@, range.key()) < u64::MAX,
        ensures
            final(self).wf(),
            r is Ok <==> can_borrow(old(self)@, range.key()),
            r is Ok ==> final(self)@ == after_borrow(old(self)@, range.key()),
            r is Err ==> r == Err::<(), BorrowError>(BorrowError::AlreadyExclusivelyBorrowed)
                && *final(self) == *old(self),
    {
        let n = self.records.len();
        proof {
            lemma_conflict_bridge(self.records@, range.key(), true, n as int);
        }
        if self.scan(range, true, n) {
            return Err(BorrowError::AlreadyExclusivelyBorrowed);
        }
        proof {
            lemma_wf_after_borrow(self@, range.key());
        }
        match self.position(range) {
            Some(i) => {
                proof {
                    lemma_model_at(self.records@, i as int);
                }
                match self.records[i].state {
                    BorrowState::Shared(c) => {
                        let rec = BorrowRecord { range, state: BorrowState::Shared(c + 1) };
                        proof {
                            lemma_model_retarget(self.records@, i as int, rec);
                        }
                        self.records.set(i, rec);
                        proof {
                            assert(self@ =~= after_borrow(old(self)@, range.key()));
                        }
                    },
                    BorrowState::Exclusive => {
                        proof {
                            assert(contends(range.key(), range.key()));
                            assert(exclusive_conflict(self@, range.key()));
                        }
                        return Err(BorrowError::AlreadyExclusivelyBorrowed);
                    },
                }
            },
            None => {
                let rec = BorrowRecord { range, state: BorrowState::Shared(1) };
                proof {
                    lemma_model_push(self.records@, rec);
                }
                self.records.push(rec);
            },
        }
        Ok(())
    }

    /// Adds an exclusive holder of `range`, unless any borrow contends with it.
    pub fn try_borrow_mut(&mut self, range: ByteRange) -> (r: Result<(), BorrowError>)
        requires
            old(self).wf(),
        ensures
            final(self).wf(),
            r is Ok <==> can_borrow_mut(old(self)@, range.key()),
            r is Ok ==> final(self)@ == after_borrow_mut(old(self)@, range.key()),
            r is Err ==> r == Err::<(), BorrowError>(BorrowError::AlreadyBorrowed)
                && *final(self) == *old(self),
    {
        let n = self.records.len();
        proof {
            lemma_conflict_bridge(self.records@, range.key(), false, n as int);
        }
        if self.scan(range, false, n) {
            return Err(BorrowError::AlreadyBorrowed);
        }
        proof {
            lemma_wf_after_borrow_mut(self@, range.key());
            assert(!self@.contains_key(range.key())) by {
                if self@.contains_key(range.key()) {
                    assert(contends(range.key(), range.key()));
                }
            }
        }
        let rec = BorrowRecord { range, state: BorrowState::Exclusive };
        proof {
            lemma_model_push(self.records@, rec);
        }
        self.records.push(rec);
        Ok(())
    }

    /// Adds one more holder to a range that is already borrowed shared.
    pub fn clone_shared(&mut self, range: ByteRange)
        requires
            old(self).wf(),
            is_shared(old(self)@, range.key()),
            shared_count(old(self)@, range.key()) < u64::MAX,
        ensures
            final(self).wf(),
            final(self)@ == after_borrow(old(self)@, range.key()),
    {
        proof {
            assert(can_borrow(self@, range.key())) by {
                if exclusive_conflict(self@, range.key()) {
                    let k = choose|k: (u64, u64)| #[trigger] self@.contains_key(k)
                        && self@[k] == BorrowState::Exclusive && contends(k, range.key());
                    assert(k != range.key());
                    assert(self@.contains_key(range.key()));
                }
            }
        }
        let r = self.try_borrow(range);
    }

    /// Lets one shared holder of `range` go; the record leaves with its last holder.
    pub fn unborrow_shared(&mut self, range: ByteRange)
        requires
            old(self).wf(),
            is_shared(old(self)@, range.key()),
        ensures
            final(self).wf(),
            final(self)@ == after_unborrow_shared(old(self)@, range.key()),
    {
        proof {
            lemma_wf_after_unborrow_shared(self@, range.key());
        }
        match self.position(range) {
            Some(i) => {
                proof {
                    lemma_model_at(self.records@, i as int);
                }
                match self.records[i].state {
                    BorrowState::Shared(c) => {
                        if c <= 1 {
                            proof {
                                lemma_model_remove(self.records@, i as int);
                            }
                            self.records.remove(i);
                        } else {
                            let rec = BorrowRecord { range, state: BorrowState::Shared(c - 1) };
                            proof {
                                lemma_model_retarget(self.records@, i as int, rec);
                            }
                            self.records.set(i, rec);
                            proof {
                                assert(self@ =~= after_unborrow_shared(old(self)@, range.key()));
                            }
                        }
                    },
                    BorrowState::Exclusive => {},
                }
            },
            None => {},
        }
    }

    /// Lets the exclusive holder of `range` go.
    pub fn unborrow_owned(&mut self, range: ByteRange)
        requires
            old(self).wf(),
            is_exclusive(old(self)@, range.key()),
        ensures
            final(self).wf(),
            final(self)@ == after_unborrow_owned(old(self)@, range.key()),
    {
        match self.position(range) {
            Some(i) => {
                proof {
                    lemma_model_remove(self.records@, i as int);
                    let m = self@;
                    let m2 = m.remove(range.key());
                    assert forall|k1: (u64, u64), k2: (u64, u64)|
                        #![trigger m2.contains_key(k1), m2.contains_key(k2)]
                        m2.contains_key(k1) && m2.contains_key(k2) && k1 != k2 && m2[k1]
                            == BorrowState::Exclusive implies !contends(k1, k2) by {
                        assert(m.contains_key(k1) && m.contains_key(k2));
                    }
                }
                self.records.remove(i);
            },
            None => {},
        }
    }

    /// Moves the exclusive record of `old_range` to `new_range` in one step, so that the
    /// memory is never left unborrowed. Refused, with the ledger unchanged, when some other
    /// record contends with `new_range`.
    pub fn replace_borrow_mut(&mut self, old_range: ByteRange, new_range: ByteRange) -> (r: Result<
        (),
        BorrowError,
    >)
        requires
            old(self).wf(),
            is_exclusive(old(self)@, old_range.key()),
        ensures
            final(self).wf(),
            r is Ok <==> can_replace(old(self)@, old_range.key(), new_range.key()),
            r is Ok ==> final(self)@ == after_replace(
                old(self)@,
                old_range.key(),
                new_range.key(),
            ),
            r is Err ==> r == Err::<(), BorrowError>(BorrowError::AlreadyBorrowed)
                && *final(self) == *old(self),
    {
        match self.position(old_range) {
            Some(i) => {
                proof {
                    lemma_conflict_bridge(self.records@, new_range.key(), false, i as int);
                }
                if self.scan(new_range, false, i) {
                    return Err(BorrowError::AlreadyBorrowed);
                }
                let rec = BorrowRecord { range: new_range, state: BorrowState::Exclusive };
                proof {
                    lemma_wf_after_replace(self@, old_range.key(), new_range.key());
                    assert forall|j: int| 0 <= j < self.records@.len() && j != i implies self.records@[j].range.key()
                        != new_range.key() by {
                        if self.records@[j].range.key() == new_range.key() {
                            assert(conflict_at(self.records@, j, new_range.key(), false));
                        }
                    }
                    lemma_model_retarget(self.records@, i as int, rec);
                }
                self.records.set(i, rec);
                Ok(())
            },
            None => Err(BorrowError::AlreadyBorrowed),
        }
    }
}

/// An exclusive borrow of `a` never stands in the way of an exclusive borrow of a range `b`
/// that shares no memory with it: whatever `b` could get before, it can still get after, and
/// both end up held exclusively.
pub proof fn law_disjoint_exclusive_borrows(m: LedgerModel, a: (u64, u64), b: (u64, u64))
    requires
        !contends(a, b),
    ensures
        can_borrow_mut(m, b) ==> can_borrow_mut(after_borrow_mut(m, a), b),
        can_borrow_mut(m, a) && can_borrow_mut(m, b) ==> {
            let m2 = after_borrow_mut(after_borrow_mut(m, a), b);
            is_exclusive(m2, a) && is_exclusive(m2, b)
        },
{
    let m1 = after_borrow_mut(m, a);
    if can_borrow_mut(m, b) && any_conflict(m1, b) {
        let k = choose|k: (u64, u64)| #[trigger] m1.contains_key(k) && contends(k, b);
        assert(m.contains_key(k));
    }
}

/// While any borrow of `b` is outstanding, an exclusive borrow of a range `a` that contends
/// with it is refused, and the other way round.
pub proof fn law_contending_borrow_mut_refused(m: LedgerModel, a: (u64, u64), b: (u64, u64))
    requires
        contends(a, b),
    ensures
        m.contains_key(b) ==> !can_borrow_mut(m, a),
        m.contains_key(a) ==> !can_borrow_mut(m, b),
        is_exclusive(m, b) ==> !can_borrow(m, a),
        is_exclusive(m, a) ==> !can_borrow(m, b),
{
    assert(contends(b, a));
    if m.contains_key(b) {
        assert(m.contains_key(b) && contends(b, a));
    }
    if m.contains_key(a) {
        assert(m.contains_key(a) && contends(a, b));
    }
}

/// A range borrowed shared once and then cloned is released in full by two unborrows: the
/// ledger is as it was before, the count is zero, and an exclusive borrow is granted again.
pub proof fn law_clone_then_unborrow_twice(m: LedgerModel, r: (u64, u64))
    requires
        can_borrow_mut(m, r),
    ensures
        ({
            let once = after_borrow(m, r);
            let cloned = after_borrow(once, r);
            let released = after_unborrow_shared(after_unborrow_shared(cloned, r), r);
            &&& shared_count(once, r) == 1
            &&& shared_count(cloned, r) == 2
            &&& released == m
            &&& shared_count(released, r) == 0
            &&& can_borrow_mut(released, r)
        }),
{
    assert(contends(r, r));
    assert(!m.contains_key(r));
    let once = after_borrow(m, r);
    let cloned = after_borrow(once, r);
    let one_left = after_unborrow_shared(cloned, r);
    assert(shared_count(one_left, r) == 1);
    let released = after_unborrow_shared(one_left, r);
    assert(released =~= m);
}

/// Moving an exclusive record from `old` to `new` leaves no moment in which neither is held:
/// before the move `old` is held, after it `new` is held (or, when the move is refused, `old`
/// still is), and an exclusive or shared borrow of the held range is refused throughout. When
/// the two ranges contend, as with an in-place resize, `new` cannot be borrowed before the move
/// either.
pub proof fn law_replace_leaves_no_gap(m: LedgerModel, old: (u64, u64), new: (u64, u64))
    requires
        model_wf(m),
        is_exclusive(m, old),
    ensures
        !can_borrow_mut(m, old) && !can_borrow(m, old),
        contends(old, new) ==> !can_borrow_mut(m, new),
        can_replace(m, old, new) ==> {
            let moved = after_replace(m, old, new);
            is_exclusive(moved, new) && !can_borrow_mut(moved, new) && !can_borrow(moved, new)
        },
{
    assert(contends(old, old));
    assert(m.contains_key(old));
    let moved = after_replace(m, old, new);
    assert(contends(new, new));
    if can_replace(m, old, new) {
        assert(moved.contains_key(new));
    }
    if contends(old, new) {
        assert(m.contains_key(old) && contends(old, new));
    }
}

/// Whether borrows of `a` and `b` concern the same memory.
pub fn ranges_contend(a: ByteRange, b: ByteRange) -> (r: bool)
    ensures
        r == contends(a.key(), b.key()),
{
    a == b || (a.start < b.end && b.start < a.end)
}

} // verus!
