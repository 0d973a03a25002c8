//! Tracked views of array buffers. A view exists only together with its record in the
//! ledger: a shared view with a shared record of the buffer's range, an exclusive view with
//! the exclusive one. Releasing a view removes or decrements its record exactly once.

use crate::error::{JlrsError, JlrsResult};
use crate::ledger::{
    after_borrow, after_borrow_mut, after_replace, after_unborrow_owned, after_unborrow_shared,
    can_borrow, can_borrow_mut, can_replace, is_exclusive, is_shared, shared_count, BorrowError,
    ByteRange, Ledger,
};
use vstd::prelude::*;

verus! {

/// How the elements of a buffer are stored.
#[derive(Clone, Copy, Debug, PartialEq, Eq, Structural)]
pub enum ElementLayout {
    /// Plain bits of the given size, with no references to managed data.
    Bits(u64),
    /// Stored inline, of the given size, but holding references to managed data.
    InlinePtr(u64),
    /// References to managed objects.
    Managed,
    /// A union of bits types with a selector per element.
    Union,
}

/// The kind of access an accessor grants.
#[derive(Clone, Copy, Debug, PartialEq, Eq, Structural)]
pub enum AccessKind {
    Bits,
    Inline,
    Managed,
    Value,
    Union,
    Indeterminate,
}

/// The number of elements that `dims` describe, computed one dimension at a time; `None`
/// when a step leaves the range of `u64`.
pub open spec fn checked_product(dims: Seq<u64>) -> Option<nat>
    decreases dims.len(),
{
    if dims.len() == 0 {
        Some(1)
    } else {
        match checked_product(dims.drop_last()) {
            Some(p) => if p * dims.last() <= u64::MAX {
                Some((p * dims.last()) as nat)
            } else {
                None
            },
            None => None,
        }
    }
}

/// The bytes of `n` elements of `elem_size` bytes from `ptr`.
pub open spec fn span_of(ptr: u64, elem_size: u64, n: u64) -> (u64, u64) {
    (ptr, (ptr + elem_size * n) as u64)
}

/// The layouts an accessor of `kind` may view.
pub open spec fn accessor_allows(kind: AccessKind, layout: ElementLayout) -> bool {
    match kind {
        AccessKind::Bits => layout is Bits,
        AccessKind::Inline => layout is Bits || layout is InlinePtr,
        AccessKind::Managed => layout is Managed,
        AccessKind::Value => layout is Managed,
        AccessKind::Union => layout is Union,
        AccessKind::Indeterminate => true,
    }
}

/// A buffer of the host's heap, described by plain values.
pub struct Array {
    ptr: u64,
    elem_size: u64,
    dims: Vec<u64>,
    len: u64,
    layout: ElementLayout,
}

impl Array {
    /// The address of the first element.
    pub closed spec fn ptr(&self) -> u64 {
        self.ptr
    }

    /// The size of one element in bytes.
    pub closed spec fn elem_size(&self) -> u64 {
        self.elem_size
    }

    /// The dimensions.
    pub closed spec fn dims(&self) -> Seq<u64> {
        self.dims@
    }

    /// The number of elements.
    pub closed spec fn len(&self) -> u64 {
        self.len
    }

    /// How the elements are stored.
    pub closed spec fn layout(&self) -> ElementLayout {
        self.layout
    }

    /// The element count matches the dimensions and the buffer ends within the address space.
    pub open spec fn wf(&self) -> bool {
        &&& checked_product(self.dims()) == Some(self.len() as nat)
        &&& self.ptr() + self.elem_size() * self.len() <= u64::MAX
    }

    /// The key of the range the buffer occupies.
    pub open spec fn span(&self) -> (u64, u64) {
        span_of(self.ptr(), self.elem_size(), self.len())
    }

    /// Describes a buffer at `ptr` with elements of `elem_size` bytes and the given
    /// dimensions; `None` when the element count or the buffer's end does not fit in `u64`.
    pub fn new(ptr: u64, elem_size: u64, dims: Vec<u64>, layout: ElementLayout) -> (r: Option<
        Array,
    >)
        ensures
            r is Some <==> checked_product(dims@) is Some && ptr + elem_size * checked_product(
                dims@,
            )->Some_0 <= u64::MAX,
            r is Some ==> {
                let a = r->Some_0;
                &&& a.wf()
                &&& a.ptr() == ptr
                &&& a.elem_size() == elem_size
                &&& a.dims() == dims@
                &&& a.layout() == layout
            },
    {
        let mut n: u64 = 1;
        let mut i: usize = 0;
        while i < dims.len()
            invariant
                i <= dims@.len(),
                checked_product(dims@.take(i as int)) == Some(n as nat),
            decreases dims@.len() - i,
        {
            proof {
                assert(dims@.take(i as int + 1).drop_last() =~= dims@.take(i as int));
            }
            match n.checked_mul(dims[i]) {
                Some(m) => {
                    n = m;
                },
                None => {
                    proof {
                        lemma_product_stays_none(dims@, i as int + 1);
                        assert(dims@.take(dims@.len() as int) =~= dims@);
                    }
                    return None;
                },
            }
            i += 1;
        }
        proof {
            assert(dims@.take(dims@.len() as int) =~= dims@);
        }
        let bytes = match n.checked_mul(elem_size) {
            Some(b) => b,
            None => {
                proof {
                    assert(elem_size * n == n * elem_size) by (nonlinear_arith);
                }
                return None;
            },
        };
        match ptr.checked_add(bytes) {
            Some(_) => {
                proof {
                    assert(elem_size * n == n * elem_size) by (nonlinear_arith);
                }
                Some(Array { ptr, elem_size, dims, len: n, layout })
            },
            None => {
                proof {
                    assert(elem_size * n == n * elem_size) by (nonlinear_arith);
                }
                None
            },
        }
    }

    /// The dimensions.
    pub fn dimensions(&self) -> (r: Vec<u64>)
        ensures
            r@ == self.dims(),
    {
        let mut r: Vec<u64> = Vec::new();
        let mut i: usize = 0;
        while i < self.dims.len()
            invariant
                i <= self.dims@.len(),
                r@ == self.dims@.take(i as int),
            decreases self.dims@.len() - i,
        {
            r.push(self.dims[i]);
            i += 1;
            proof {
                assert(r@ =~= self.dims@.take(i as int));
            }
        }
        proof {
            assert(self.dims@.take(i as int) =~= self.dims@);
        }
        r
    }

    /// The element layout.
    pub fn element_layout(&self) -> (r: ElementLayout)
        ensures
            r == self.layout(),
    {
        self.layout
    }

    /// The number of elements.
    pub fn n_elements(&self) -> (r: u64)
        ensures
            r == self.len(),
    {
        self.len
    }

    /// Borrows the buffer shared and returns the view that holds the borrow.
    pub fn track(&self, ledger: &mut Ledger) -> (r: JlrsResult<TrackedArray>)
        requires
            self.wf(),
            old(ledger).wf(),
            shared_count(old(ledger)@, self.span()) < u64::MAX,
        ensures
            final(ledger).wf(),
            r is Ok <==> can_borrow(old(ledger)@, self.span()),
            r is Ok ==> same_buffer(r->Ok_0.array(), *self) && final(ledger)@ == after_borrow(
                old(ledger)@,
                self.span(),
            ),
            r is Err ==> r == Err::<TrackedArray, JlrsError>(
                JlrsError::Borrow(BorrowError::AlreadyExclusivelyBorrowed),
            ) && *final(ledger) == *old(ledger),
    {
        match ledger.try_borrow(self.data_range()) {
            Ok(()) => Ok(TrackedArray { array: self.copy_of(), typed: false }),
            Err(e) => Err(JlrsError::Borrow(e)),
        }
    }

    /// Borrows the buffer exclusively and returns the view that holds the borrow.
    pub fn track_mut(&self, ledger: &mut Ledger) -> (r: JlrsResult<TrackedArrayMut>)
        requires
            self.wf(),
            old(ledger).wf(),
        ensures
            final(ledger).wf(),
            r is Ok <==> can_borrow_mut(old(ledger)@, self.span()),
            r is Ok ==> same_buffer(r->Ok_0.array(), *self) && final(ledger)@ == after_borrow_mut(
                old(ledger)@,
                self.span(),
            ),
            r is Err ==> r == Err::<TrackedArrayMut, JlrsError>(
                JlrsError::Borrow(BorrowError::AlreadyBorrowed),
            ) && *final(ledger) == *old(ledger),
    {
        match ledger.try_borrow_mut(self.data_range()) {
            Ok(()) => Ok(
                TrackedArrayMut { shared: TrackedArray { array: self.copy_of(), typed: false } },
            ),
            Err(e) => Err(JlrsError::Borrow(e)),
        }
    }

    fn copy_of(&self) -> (r: Array)
        ensures
            same_buffer(r, *self),
    {
        let dims = self.dimensions();
        proof {
            assert(dims@ =~= self.dims@);
        }
        Array { ptr: self.ptr, elem_size: self.elem_size, dims, len: self.len, layout: self.layout }
    }
}

/// The two descriptions describe the same buffer.
pub open spec fn same_buffer(a: Array, b: Array) -> bool {
    &&& a.ptr() == b.ptr()
    &&& a.elem_size() == b.elem_size()
    &&& a.dims() == b.dims()
    &&& a.len() == b.len()
    &&& a.layout() == b.layout()
}

proof fn lemma_product_stays_none(dims: Seq<u64>, i: int)
    requires
        0 <= i <= dims.len(),
        checked_product(dims.take(i)) is None,
    ensures
        checked_product(dims) is None,
    decreases dims.len() - i,
{
    if i < dims.len() {
        assert(dims.take(i + 1).drop_last() =~= dims.take(i));
        lemma_product_stays_none(dims, i + 1);
    } else {
        assert(dims.take(i) =~= dims);
    }
}

/// Which end of a one-dimensional buffer a resize works on, and in which direction.
#[derive(Clone, Copy, Debug, PartialEq, Eq, Structural)]
pub enum Resize {
    GrowEnd,
    DelEnd,
    GrowBegin,
    DelBegin,
}

/// How many elements a buffer of `len` elements holds after the resize by `amount`; `None`
/// when it would lose more elements than it has, or count more than `u64` can.
pub open spec fn new_len_of(op: Resize, len: u64, amount: u64) -> Option<u64> {
    match op {
        Resize::GrowEnd | Resize::GrowBegin => if len + amount <= u64::MAX {
            Some((len + amount) as u64)
        } else {
            None
        },
        Resize::DelEnd | Resize::DelBegin => if amount <= len {
            Some((len - amount) as u64)
        } else {
            None
        },
    }
}

/// The access that a request of `kind` for elements laid out as `requested` gets to a buffer
/// whose elements are laid out as `actual`: the kind must suit the layout, and a request that
/// names a layout must name the buffer's own.
pub open spec fn access_ok(kind: AccessKind, requested: ElementLayout, actual: ElementLayout) -> bool {
    &&& accessor_allows(kind, actual)
    &&& (kind is Bits || kind is Inline) ==> requested == actual
}

/// What a resize of the exclusively held buffer `a` by `amount` returns, and what the buffer
/// `b` and the ledger `m2` are afterwards, given the ledger `m` before, when the engine has
/// placed the resized buffer at `new_ptr`. A buffer that does not have exactly one dimension is
/// refused, and so is a new extent that leaves its bounds; otherwise the resize is taken exactly
/// when no other record contends with the new range, and the exclusive record moves to it.
pub open spec fn resized(
    a: Array,
    m: crate::ledger::LedgerModel,
    op: Resize,
    amount: u64,
    new_ptr: u64,
    r: JlrsResult<()>,
    b: Array,
    m2: crate::ledger::LedgerModel,
) -> bool {
    if a.dims().len() != 1 {
        r == Err::<(), JlrsError>(JlrsError::NotOneDimensional)
    } else if new_len_of(op, a.len(), amount) is None || new_ptr + a.elem_size()
        * new_len_of(op, a.len(), amount)->Some_0 > u64::MAX {
        r == Err::<(), JlrsError>(JlrsError::OutOfBounds)
    } else {
        let n = new_len_of(op, a.len(), amount)->Some_0;
        let new_span = span_of(new_ptr, a.elem_size(), n);
        &&& r is Ok <==> can_replace(m, a.span(), new_span)
        &&& r is Ok ==> b.ptr() == new_ptr && b.len() == n && b.dims() == seq![n] && b.elem_size()
            == a.elem_size() && b.layout() == a.layout() && m2 == after_replace(m, a.span(), new_span)
        &&& r is Err ==> r == Err::<(), JlrsError>(JlrsError::Borrow(BorrowError::AlreadyBorrowed))
    }
}

/// The description of the elements that an accessor of `kind` sees in `a`.
pub open spec fn accessor_of(a: Array, kind: AccessKind, mutable: bool) -> ArrayAccessor {
    ArrayAccessor { ptr: a.ptr(), elem_size: a.elem_size(), len: a.len(), kind, mutable }
}

/// A view of the elements of a buffer: where each one lies, and what may be done with it.
#[derive(Clone, Copy, Debug, PartialEq, Eq, Structural)]
pub struct ArrayAccessor {
    pub ptr: u64,
    pub elem_size: u64,
    pub len: u64,
    pub kind: AccessKind,
    pub mutable: bool,
}

impl ArrayAccessor {
    /// The bytes of element `i`; `None` past the end.
    pub fn element_range(&self, i: u64) -> (r: Option<ByteRange>)
        requires
            self.ptr + self.elem_size * self.len <= u64::MAX,
        ensures
            i < self.len ==> r == Some(
                ByteRange {
                    start: (self.ptr + self.elem_size * i) as u64,
                    end: (self.ptr + self.elem_size * (i + 1)) as u64,
                },
            ),
            i >= self.len ==> r is None,
    {
        if i >= self.len {
            return None;
        }
        proof {
            assert(self.elem_size * (i + 1) <= self.elem_size * self.len) by (nonlinear_arith)
                requires
                    i < self.len,
            ;
            assert(self.elem_size * i + self.elem_size == self.elem_size * (i + 1)) by (nonlinear_arith);
        }
        let start = self.ptr + self.elem_size * i;
        Some(ByteRange { start, end: start + self.elem_size })
    }
}

/// A buffer borrowed shared: the ledger holds a shared record of its range for as long as the
/// view lives.
pub struct TrackedArray {
    array: Array,
    typed: bool,
}

impl TrackedArray {
    /// The buffer viewed.
    pub closed spec fn array(&self) -> Array {
        self.array
    }

    /// The view was checked against an element layout.
    pub closed spec fn is_typed(&self) -> bool {
        self.typed
    }

    /// The ledger holds this view's borrow.
    pub open spec fn held_in(&self, l: crate::ledger::LedgerModel) -> bool {
        is_shared(l, self.array().span())
    }

    /// The dimensions of the buffer.
    pub fn dimensions(&self) -> (r: Vec<u64>)
        ensures
            r@ == self.array().dims(),
    {
        self.array.dimensions()
    }

    /// Another view of the same buffer; the ledger counts one more shared holder, and the
    /// layout is not checked again.
    pub fn clone_tracked(&self, ledger: &mut Ledger) -> (r: TrackedArray)
        requires
            self.array().wf(),
            old(ledger).wf(),
            self.held_in(old(ledger)@),
            shared_count(old(ledger)@, self.array().span()) < u64::MAX,
        ensures
            final(ledger).wf(),
            final(ledger)@ == after_borrow(old(ledger)@, self.array().span()),
            same_buffer(r.array(), self.array()),
            r.is_typed() == self.is_typed(),
    {
        ledger.clone_shared(self.array.data_range());
        TrackedArray { array: self.array.copy_of(), typed: self.typed }
    }

    /// Ends the view: the ledger counts one shared holder less.
    pub fn release(self, ledger: &mut Ledger)
        requires
            self.array().wf(),
            old(ledger).wf(),
            self.held_in(old(ledger)@),
        ensures
            final(ledger).wf(),
            final(ledger)@ == after_unborrow_shared(old(ledger)@, self.array().span()),
    {
        ledger.unborrow_shared(self.array.data_range());
    }

    /// The same borrow, viewed with the element layout `layout`, which must be the buffer's.
    /// The borrow passes to the new view unchanged; on a mismatch it is released.
    pub fn try_as_typed(self, layout: ElementLayout, ledger: &mut Ledger) -> (r: JlrsResult<
        TrackedArray,
    >)
        requires
            self.array().wf(),
            old(ledger).wf(),
            self.held_in(old(ledger)@),
        ensures
            final(ledger).wf(),
            r is Ok <==> layout == self.array().layout(),
            r is Ok ==> r->Ok_0.array() == self.array() && r->Ok_0.is_typed() && *final(ledger)
                == *old(ledger),
            r is Err ==> r == Err::<TrackedArray, JlrsError>(JlrsError::InvalidLayout)
                && final(ledger)@ == after_unborrow_shared(old(ledger)@, self.array().span()),
    {
        if layout == self.array.layout {
            Ok(TrackedArray { array: self.array, typed: true })
        } else {
            self.release(ledger);
            Err(JlrsError::InvalidLayout)
        }
    }

    /// The same borrow viewed with the element layout `layout`, which the caller knows to be
    /// the buffer's.
    pub fn as_typed_unchecked(self, layout: ElementLayout) -> (r: TrackedArray)
        requires
            layout == self.array().layout(),
        ensures
            r.array() == self.array(),
            r.is_typed(),
    {
        TrackedArray { array: self.array, typed: true }
    }

    fn access(&self, kind: AccessKind, requested: ElementLayout, mutable: bool) -> (r: JlrsResult<
        ArrayAccessor,
    >)
        ensures
            r is Ok <==> access_ok(kind, requested, self.array().layout()),
            r is Ok ==> r->Ok_0 == accessor_of(self.array(), kind, mutable),
            r is Err ==> r == Err::<ArrayAccessor, JlrsError>(JlrsError::InvalidLayout),
    {
        let actual = self.array.layout;
        let allowed = match kind {
            AccessKind::Bits => matches!(actual, ElementLayout::Bits(_)) && requested == actual,
            AccessKind::Inline => (matches!(actual, ElementLayout::Bits(_)) || matches!(actual, ElementLayout::InlinePtr(_))) && requested == actual,
            AccessKind::Managed => matches!(actual, ElementLayout::Managed),
            AccessKind::Value => matches!(actual, ElementLayout::Managed),
            AccessKind::Union => matches!(actual, ElementLayout::Union),
            AccessKind::Indeterminate => true,
        };
        if allowed {
            Ok(
                ArrayAccessor {
                    ptr: self.array.ptr,
                    elem_size: self.array.elem_size,
                    len: self.array.len,
                    kind,
                    mutable,
                },
            )
        } else {
            Err(JlrsError::InvalidLayout)
        }
    }

    /// Reads the elements as bits of the layout `requested`, which must be the buffer's.
    pub fn bits_data(&self, requested: ElementLayout) -> (r: JlrsResult<ArrayAccessor>)
        ensures
            r is Ok <==> access_ok(AccessKind::Bits, requested, self.array().layout()),
            r is Ok ==> r->Ok_0 == accessor_of(self.array(), AccessKind::Bits, false),
            r is Err ==> r == Err::<ArrayAccessor, JlrsError>(JlrsError::InvalidLayout),
    {
        self.access(AccessKind::Bits, requested, false)
    }

    /// Reads the elements as inline values of the layout `requested`, which must be the
    /// buffer's.
    pub fn inline_data(&self, requested: ElementLayout) -> (r: JlrsResult<ArrayAccessor>)
        ensures
            r is Ok <==> access_ok(AccessKind::Inline, requested, self.array().layout()),
            r is Ok ==> r->Ok_0 == accessor_of(self.array(), AccessKind::Inline, false),
            r is Err ==> r == Err::<ArrayAccessor, JlrsError>(JlrsError::InvalidLayout),
    {
        self.access(AccessKind::Inline, requested, false)
    }

    /// Reads the elements as references to managed objects.
    pub fn managed_data(&self) -> (r: JlrsResult<ArrayAccessor>)
        ensures
            r is Ok <==> self.array().layout() is Managed,
            r is Ok ==> r->Ok_0 == accessor_of(self.array(), AccessKind::Managed, false),
            r is Err ==> r == Err::<ArrayAccessor, JlrsError>(JlrsError::InvalidLayout),
    {
        self.access(AccessKind::Managed, ElementLayout::Managed, false)
    }

    /// Reads the elements as values of any type.
    pub fn value_data(&self) -> (r: JlrsResult<ArrayAccessor>)
        ensures
            r is Ok <==> self.array().layout() is Managed,
            r is Ok ==> r->Ok_0 == accessor_of(self.array(), AccessKind::Value, false),
            r is Err ==> r == Err::<ArrayAccessor, JlrsError>(JlrsError::InvalidLayout),
    {
        self.access(AccessKind::Value, ElementLayout::Managed, false)
    }

    /// Reads the elements of a union of bits types.
    pub fn union_data(&self) -> (r: JlrsResult<ArrayAccessor>)
        ensures
            r is Ok <==> self.array().layout() is Union,
            r is Ok ==> r->Ok_0 == accessor_of(self.array(), AccessKind::Union, false),
            r is Err ==> r == Err::<ArrayAccessor, JlrsError>(JlrsError::InvalidLayout),
    {
        self.access(AccessKind::Union, ElementLayout::Union, false)
    }

    /// Reads the elements without assuming anything of their layout.
    pub fn indeterminate_data(&self) -> (r: ArrayAccessor)
        ensures
            r == accessor_of(self.array(), AccessKind::Indeterminate, false),
    {
        match self.access(AccessKind::Indeterminate, self.array.layout, false) {
            Ok(a) => a,
            Err(_) => ArrayAccessor {
                ptr: self.array.ptr,
                elem_size: self.array.elem_size,
                len: self.array.len,
                kind: AccessKind::Indeterminate,
                mutable: false,
            },
        }
    }
}

/// A buffer borrowed exclusively: the ledger holds the exclusive record of its range for as
/// long as the view lives.
pub struct TrackedArrayMut {
    shared: TrackedArray,
}

impl TrackedArrayMut {
    /// The buffer viewed.
    pub closed spec fn array(&self) -> Array {
        self.shared.array
    }

    /// The ledger holds this view's borrow.
    pub open spec fn held_in(&self, l: crate::ledger::LedgerModel) -> bool {
        is_exclusive(l, self.array().span())
    }

    /// The view for reading.
    pub fn deref(&self) -> (r: &TrackedArray)
        ensures
            r.array() == self.array(),
    {
        &self.shared
    }

    /// Ends the view: the exclusive record goes.
    pub fn release(self, ledger: &mut Ledger)
        requires
            self.array().wf(),
            old(ledger).wf(),
            self.held_in(old(ledger)@),
        ensures
            final(ledger).wf(),
            final(ledger)@ == after_unborrow_owned(old(ledger)@, self.array().span()),
    {
        ledger.unborrow_owned(self.shared.array.data_range());
    }

    /// Writes the elements as bits of the layout `requested`, which must be the buffer's.
    pub fn bits_data_mut(&mut self, requested: ElementLayout) -> (r: JlrsResult<ArrayAccessor>)
        ensures
            *final(self) == *old(self),
            r is Ok <==> access_ok(AccessKind::Bits, requested, old(self).array().layout()),
            r is Ok ==> r->Ok_0 == accessor_of(old(self).array(), AccessKind::Bits, true),
    {
        self.shared.access(AccessKind::Bits, requested, true)
    }

    /// Writes the elements as inline values of the layout `requested`, which must be the
    /// buffer's.
    pub fn inline_data_mut(&mut self, requested: ElementLayout) -> (r: JlrsResult<ArrayAccessor>)
        ensures
            *final(self) == *old(self),
            r is Ok <==> access_ok(AccessKind::Inline, requested, old(self).array().layout()),
            r is Ok ==> r->Ok_0 == accessor_of(old(self).array(), AccessKind::Inline, true),
    {
        self.shared.access(AccessKind::Inline, requested, true)
    }

    /// Writes the elements as references to managed objects.
    pub fn managed_data_mut(&mut self) -> (r: JlrsResult<ArrayAccessor>)
        ensures
            *final(self) == *old(self),
            r is Ok <==> old(self).array().layout() is Managed,
            r is Ok ==> r->Ok_0 == accessor_of(old(self).array(), AccessKind::Managed, true),
    {
        self.shared.access(AccessKind::Managed, ElementLayout::Managed, true)
    }

    /// Writes the elements as values of any type.
    pub fn value_data_mut(&mut self) -> (r: JlrsResult<ArrayAccessor>)
        ensures
            *final(self) == *old(self),
            r is Ok <==> old(self).array().layout() is Managed,
            r is Ok ==> r->Ok_0 == accessor_of(old(self).array(), AccessKind::Value, true),
    {
        self.shared.access(AccessKind::Value, ElementLayout::Managed, true)
    }

    /// Writes the elements without assuming anything of their layout.
    pub fn indeterminate_data_mut(&mut self) -> (r: ArrayAccessor)
        ensures
            *final(self) == *old(self),
            r == accessor_of(old(self).array(), AccessKind::Indeterminate, true),
    {
        match self.shared.access(AccessKind::Indeterminate, self.shared.array.layout, true) {
            Ok(a) => a,
            Err(_) => ArrayAccessor {
                ptr: self.shared.array.ptr,
                elem_size: self.shared.array.elem_size,
                len: self.shared.array.len,
                kind: AccessKind::Indeterminate,
                mutable: true,
            },
        }
    }

    /// Writes the elements of a union of bits types.
    pub fn union_data_mut(&mut self) -> (r: JlrsResult<ArrayAccessor>)
        ensures
            *final(self) == *old(self),
            r is Ok <==> old(self).array().layout() is Union,
            r is Ok ==> r->Ok_0 == accessor_of(old(self).array(), AccessKind::Union, true),
    {
        self.shared.access(AccessKind::Union, ElementLayout::Union, true)
    }

    /// Adds `inc` elements at the end of a one-dimensional buffer, which the engine placed
    /// at `new_ptr`; see [`resized`].
    pub fn grow_end(&mut self, inc: u64, new_ptr: u64, ledger: &mut Ledger) -> (r: JlrsResult<()>)
        requires
            old(self).array().wf(),
            old(ledger).wf(),
            old(self).held_in(old(ledger)@),
        ensures
            final(ledger).wf(),
            final(self).array().wf(),
            final(self).held_in(final(ledger)@),
            resized(old(self).array(), old(ledger)@, Resize::GrowEnd, inc, new_ptr, r, final(self).array(), final(ledger)@),
            r is Err ==> *final(self) == *old(self) && *final(ledger) == *old(ledger),
    {
        self.resize(Resize::GrowEnd, inc, new_ptr, ledger)
    }

    /// Removes `dec` elements from the end of a one-dimensional buffer, which the engine
    /// placed at `new_ptr`; see [`resized`].
    pub fn del_end(&mut self, dec: u64, new_ptr: u64, ledger: &mut Ledger) -> (r: JlrsResult<()>)
        requires
            old(self).array().wf(),
            old(ledger).wf(),
            old(self).held_in(old(ledger)@),
        ensures
            final(ledger).wf(),
            final(self).array().wf(),
            final(self).held_in(final(ledger)@),
            resized(old(self).array(), old(ledger)@, Resize::DelEnd, dec, new_ptr, r, final(self).array(), final(ledger)@),
            r is Err ==> *final(self) == *old(self) && *final(ledger) == *old(ledger),
    {
        self.resize(Resize::DelEnd, dec, new_ptr, ledger)
    }

    /// Adds `inc` elements at the start of a one-dimensional buffer, which the engine
    /// placed at `new_ptr`; see [`resized`].
    pub fn grow_begin(&mut self, inc: u64, new_ptr: u64, ledger: &mut Ledger) -> (r: JlrsResult<()>)
        requires
            old(self).array().wf(),
            old(ledger).wf(),
            old(self).held_in(old(ledger)@),
        ensures
            final(ledger).wf(),
            final(self).array().wf(),
            final(self).held_in(final(ledger)@),
            resized(old(self).array(), old(ledger)@, Resize::GrowBegin, inc, new_ptr, r, final(self).array(), final(ledger)@),
            r is Err ==> *final(self) == *old(self) && *final(ledger) == *old(ledger),
    {
        self.resize(Resize::GrowBegin, inc, new_ptr, ledger)
    }

    /// Removes `dec` elements from the start of a one-dimensional buffer, which the engine
    /// placed at `new_ptr`; see [`resized`].
    pub fn del_begin(&mut self, dec: u64, new_ptr: u64, ledger: &mut Ledger) -> (r: JlrsResult<()>)
        requires
            old(self).array().wf(),
            old(ledger).wf(),
            old(self).held_in(old(ledger)@),
        ensures
            final(ledger).wf(),
            final(self).array().wf(),
            final(self).held_in(final(ledger)@),
            resized(old(self).array(), old(ledger)@, Resize::DelBegin, dec, new_ptr, r, final(self).array(), final(ledger)@),
            r is Err ==> *final(self) == *old(self) && *final(ledger) == *old(ledger),
    {
        self.resize(Resize::DelBegin, dec, new_ptr, ledger)
    }

    /// Takes the resize of a one-dimensional buffer by `amount` elements at one end, after
    /// which the engine holds the buffer at `new_ptr`: the exclusive record moves from the old
    /// range to the new one in the same step, so the memory is never left unborrowed. Every
    /// refusal leaves the buffer and the ledger as they were.
    pub fn resize(&mut self, op: Resize, amount: u64, new_ptr: u64, ledger: &mut Ledger) -> (r:
        JlrsResult<()>)
        requires
            old(self).array().wf(),
            old(ledger).wf(),
            old(self).held_in(old(ledger)@),
        ensures
            final(ledger).wf(),
            final(self).array().wf(),
            final(self).held_in(final(ledger)@),
            resized(old(self).array(), old(ledger)@, op, amount, new_ptr, r, final(self).array(), final(ledger)@),
            r is Err ==> *final(self) == *old(self) && *final(ledger) == *old(ledger),
    {
        if self.shared.array.dims.len() != 1 {
            return Err(JlrsError::NotOneDimensional);
        }
        let es = self.shared.array.elem_size;
        let len = self.shared.array.len;
        let new_len: Option<u64> = match op {
            Resize::GrowEnd | Resize::GrowBegin => len.checked_add(amount),
            Resize::DelEnd | Resize::DelBegin => if amount <= len {
                Some(len - amount)
            } else {
                None
            },
        };
        let n = match new_len {
            Some(n) => n,
            None => return Err(JlrsError::OutOfBounds),
        };
        let bytes = match es.checked_mul(n) {
            Some(b) => b,
            None => return Err(JlrsError::OutOfBounds),
        };
        if new_ptr.checked_add(bytes).is_none() {
            return Err(JlrsError::OutOfBounds);
        }
        let old_range = self.shared.array.data_range();
        let new_range = ByteRange { start: new_ptr, end: new_ptr + bytes };
        match ledger.replace_borrow_mut(old_range, new_range) {
            Ok(()) => {
                self.shared.array = Array {
                    ptr: new_ptr,
                    elem_size: es,
                    dims: vec![n],
                    len: n,
                    layout: self.shared.array.layout,
                };
                proof {
                    assert(seq![n].drop_last() =~= Seq::<u64>::empty());
                    assert(self.array().dims() =~= seq![n]);
                    assert(seq![n].last() == n);
                    assert(checked_product(seq![n].drop_last()) == Some(1nat));
                    assert(1 * (n as int) == n as int);
                    assert(checked_product(seq![n]) == Some(n as nat));
                }
                Ok(())
            },
            Err(e) => Err(JlrsError::Borrow(e)),
        }
    }
}

/// A buffer whose range the ledger can police.
pub trait TrackArray {
    /// The buffer is described consistently.
    spec fn tracked_wf(&self) -> bool;

    /// The key of the range the buffer occupies.
    spec fn range_key(&self) -> (u64, u64);

    /// The range the buffer occupies.
    fn data_range(&self) -> (r: ByteRange)
        requires
            self.tracked_wf(),
        ensures
            r.key() == self.range_key(),
    ;
}

impl TrackArray for Array {
    open spec fn tracked_wf(&self) -> bool {
        self.wf()
    }

    open spec fn range_key(&self) -> (u64, u64) {
        self.span()
    }

    fn data_range(&self) -> (r: ByteRange) {
        let n_bytes = self.elem_size * self.len;
        ByteRange { start: self.ptr, end: self.ptr + n_bytes }
    }
}

} // verus!
