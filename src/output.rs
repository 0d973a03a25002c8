//! Outputs: slots reserved in a parent frame, so that data produced in a nested scope stays
//! rooted after that scope ends.

use vstd::prelude::*;

verus! {

/// A stack of roots; a slot holds the address of a rooted object, or zero.
pub struct Frame {
    roots: Vec<u64>,
}

/// A reserved slot in a frame.
pub struct Output {
    slot: usize,
}

/// A nested scope that roots its result in an output of the parent frame; the roots pushed
/// after `base` belong to the nested scope.
pub struct OutputScope {
    output: Output,
    base: usize,
}

impl Frame {
    /// The roots, bottom first.
    pub closed spec fn view(&self) -> Seq<u64> {
        self.roots@
    }

    /// An empty frame.
    pub fn new() -> (f: Frame)
        ensures
            f@ == Seq::<u64>::empty(),
    {
        Frame { roots: Vec::new() }
    }

    /// An empty frame with room for `capacity` roots before it grows.
    pub fn with_capacity(capacity: usize) -> (f: Frame)
        ensures
            f@ == Seq::<u64>::empty(),
    {
        Frame { roots: Vec::with_capacity(capacity) }
    }

    /// The number of slots in use.
    pub fn len(&self) -> (n: usize)
        ensures
            n == self@.len(),
    {
        self.roots.len()
    }

    /// Reserves an empty slot.
    pub fn output(&mut self) -> (o: Output)
        ensures
            final(self)@ == old(self)@.push(0),
            o.slot() == old(self)@.len(),
    {
        let slot = self.roots.len();
        self.roots.push(0);
        Output { slot }
    }

    /// Roots `value` in a fresh slot.
    pub fn root(&mut self, value: u64) -> (slot: usize)
        ensures
            final(self)@ == old(self)@.push(value),
            slot == old(self)@.len(),
    {
        let slot = self.roots.len();
        self.roots.push(value);
        slot
    }
}

impl Output {
    /// The index of the reserved slot.
    pub closed spec fn slot(&self) -> nat {
        self.slot as nat
    }

    /// Roots `value` in the reserved slot and returns it.
    pub fn set_root(self, frame: &mut Frame, value: u64) -> (r: u64)
        requires
            self.slot() < old(frame)@.len(),
        ensures
            r == value,
            final(frame)@ == old(frame)@.update(self.slot() as int, value),
    {
        frame.roots.set(self.slot, value);
        value
    }

    /// Opens a nested scope on `frame` whose result is rooted in this output.
    pub fn into_scope(self, frame: &mut Frame) -> (s: OutputScope)
        ensures
            final(frame)@ == old(frame)@,
            s.slot() == self.slot(),
            s.base() == old(frame)@.len(),
    {
        OutputScope { output: self, base: frame.roots.len() }
    }
}

impl OutputScope {
    /// The slot that receives the result.
    pub closed spec fn slot(&self) -> nat {
        self.output.slot()
    }

    /// The depth of the frame when the scope opened.
    pub closed spec fn base(&self) -> nat {
        self.base as nat
    }

    /// Ends the scope: its own roots are dropped and `value` is rooted in the output.
    pub fn finish(self, frame: &mut Frame, value: u64) -> (r: u64)
        requires
            self.slot() < self.base() <= old(frame)@.len(),
        ensures
            r == value,
            final(frame)@ == old(frame)@.subrange(0, self.base() as int).update(
                self.slot() as int,
                value,
            ),
    {
        frame.roots.truncate(self.base);
        self.output.set_root(frame, value)
    }
}

} // verus!
