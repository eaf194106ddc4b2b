//! A reusable, allocation-free byte scratch region with a movable logical
//! window. The window is a sub-range of the fixed backing storage; the
//! operations move its two ends without copying or reallocating. All window
//! moves are "unchecked" in the sense that staying inside the backing
//! capacity is the caller's obligation, stated here as preconditions.
use vstd::prelude::*;

verus! {

pub struct Buffer {
    pub buf: Vec<u8>,
    pub start: usize,
    pub end: usize,
}

impl Buffer {
    /// The backing storage.
    pub open spec fn spec_raw(&self) -> Seq<u8> {
        self.buf@
    }

    /// Lower end of the logical window.
    pub open spec fn spec_start(&self) -> int {
        self.start as int
    }

    /// Upper end (exclusive) of the logical window.
    pub open spec fn spec_end(&self) -> int {
        self.end as int
    }

    /// The window invariant: `0 <= start <= end <= storage length`.
    pub open spec fn wf(&self) -> bool {
        self.start <= self.end && self.end <= self.buf@.len()
    }

    /// The bytes inside the current window.
    pub open spec fn window(&self) -> Seq<u8> {
        self.buf@.subrange(self.start as int, self.end as int)
    }

    /// A fresh buffer of fixed capacity `size`, zero-filled, with the window
    /// covering the whole storage.
    pub fn new(size: usize) -> (r: Buffer)
        ensures
            r.wf(),
            r.spec_raw() == Seq::new(size as nat, |i: int| 0u8),
            r.spec_start() == 0,
            r.spec_end() == size as int,
    {
        let v: Vec<u8> = vec![0; size];
        proof {
            assert(v@ =~= Seq::new(size as nat, |i: int| 0u8));
        }
        Buffer { buf: v, start: 0, end: size }
    }

    /// Moves the lower end of the window down by `size` bytes.
    pub fn extend_head_uncheck(self, size: usize) -> (r: Buffer)
        requires
            size <= self.spec_start(),
        ensures
            r.spec_raw() == self.spec_raw(),
            r.spec_start() == self.spec_start() - size,
            r.spec_end() == self.spec_end(),
    {
        Buffer { start: self.start - size, ..self }
    }

    /// Moves the upper end of the window up by `size` bytes.
    pub fn extend_tail_uncheck(self, size: usize) -> (r: Buffer)
        requires
            self.spec_end() + size <= self.spec_raw().len(),
        ensures
            r.spec_raw() == self.spec_raw(),
            r.spec_start() == self.spec_start(),
            r.spec_end() == self.spec_end() + size,
    {
        // The backing length bounds end + size, so the sum stays in usize.
        let cap = self.buf.len();
        Buffer { end: self.end + size, ..self }
    }

    /// Moves the lower end of the window up by `size` bytes.
    pub fn shrink_head_uncheck(self, size: usize) -> (r: Buffer)
        requires
            self.spec_start() + size <= self.spec_end(),
        ensures
            r.spec_raw() == self.spec_raw(),
            r.spec_start() == self.spec_start() + size,
            r.spec_end() == self.spec_end(),
    {
        Buffer { start: self.start + size, ..self }
    }

    /// Moves the upper end of the window down by `size` bytes.
    pub fn shrink_tail_uncheck(self, size: usize) -> (r: Buffer)
        requires
            size <= self.spec_end() - self.spec_start(),
        ensures
            r.spec_raw() == self.spec_raw(),
            r.spec_start() == self.spec_start(),
            r.spec_end() == self.spec_end() - size,
    {
        Buffer { end: self.end - size, ..self }
    }

    /// Resets the window to cover the whole backing storage.
    pub fn reset(self) -> (r: Buffer)
        ensures
            r.wf(),
            r.spec_raw() == self.spec_raw(),
            r.spec_start() == 0,
            r.spec_end() == self.spec_raw().len(),
    {
        let n = self.buf.len();
        Buffer { start: 0, end: n, ..self }
    }

    /// Read access to the whole backing storage, window included.
    pub fn raw(&self) -> (r: &[u8])
        ensures
            r@ == self.spec_raw(),
    {
        self.buf.as_slice()
    }

    /// The number of bytes inside the current window.
    pub fn len(&self) -> (r: usize)
        requires
            self.wf(),
        ensures
            r == self.window().len(),
    {
        self.end - self.start
    }

    /// The byte at position `i` of the window.
    pub fn get(&self, i: usize) -> (r: u8)
        requires
            self.wf(),
            i < self.window().len(),
        ensures
            r == self.window()[i as int],
    {
        self.buf[self.start + i]
    }

    /// Writes `b` at position `i` of the window.
    pub fn set(&mut self, i: usize, b: u8)
        requires
            old(self).wf(),
            i < old(self).window().len(),
        ensures
            final(self).wf(),
            final(self).spec_start() == old(self).spec_start(),
            final(self).spec_end() == old(self).spec_end(),
            final(self).spec_raw() == old(self).spec_raw().update(
                old(self).spec_start() + i,
                b,
            ),
            final(self).window() == old(self).window().update(i as int, b),
    {
        let idx = self.start + i;
        let s = self.buf.as_mut_slice();
        s[idx] = b;
        proof {
            assert(final(self).window() =~= old(self).window().update(i as int, b));
        }
    }
}

/// Narrowing a window by moving its lower end, as an operation that other
/// window-like types could also offer.
pub trait SliceFrom: Sized {
    spec fn can_slice_from(&self, start: int) -> bool;

    spec fn spec_slice_from(&self, start: int) -> Self;

    fn slice(self, start: usize) -> (r: Self)
        requires
            self.can_slice_from(start as int),
        ensures
            r == self.spec_slice_from(start as int),
    ;
}

/// Narrowing a window by moving its upper end.
pub trait SliceTo: Sized {
    spec fn can_slice_to(&self, end: int) -> bool;

    spec fn spec_slice_to(&self, end: int) -> Self;

    fn slice(self, end: usize) -> (r: Self)
        requires
            self.can_slice_to(end as int),
        ensures
            r == self.spec_slice_to(end as int),
    ;
}

impl SliceFrom for Buffer {
    open spec fn can_slice_from(&self, start: int) -> bool {
        self.spec_start() + start <= self.spec_end()
    }

    open spec fn spec_slice_from(&self, start: int) -> Buffer {
        Buffer { start: (self.spec_start() + start) as usize, ..*self }
    }

    fn slice(self, start: usize) -> (r: Buffer) {
        Buffer { start: self.start + start, ..self }
    }
}

impl SliceTo for Buffer {
    open spec fn can_slice_to(&self, end: int) -> bool {
        self.spec_start() <= end && end <= self.spec_raw().len()
    }

    open spec fn spec_slice_to(&self, end: int) -> Buffer {
        Buffer { end: end as usize, ..*self }
    }

    fn slice(self, end: usize) -> (r: Buffer) {
        Buffer { end, ..self }
    }
}

} // verus!
