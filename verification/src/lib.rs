//! Byte buffers and views whose address alignment is part of their type.
//!
//! An [`AlignedBytes`] owns bytes that start at an address divisible by the boundary of its
//! descriptor. An [`AlignedSlice`] borrows such bytes, and every way to derive one view from
//! another (skipping whole units, relaxing to a smaller boundary, cutting into blocks)
//! keeps the address divisible. An [`AlignedBlock`] is a view of at most one unit; an
//! [`AlignedBlockIterator`] hands out the blocks of a view one after the other.
//!
//! A boundary is denoted by a descriptor, a value of a type that implements
//! [`alignment::Alignment`]: a fixed power of two, the page size of the machine, the width
//! of a SIMD register, or twice another boundary. The type of the descriptor is a
//! parameter of every buffer and view, so code that needs a given boundary asks for it in
//! its signature.
//!
//! The address of a buffer is read once, when the buffer is made; from then on it is a
//! number that the value carries, and the contracts speak of that number.

use vstd::prelude::*;

pub mod alignment;
pub mod bytes;
pub mod iterators;
pub mod slice;

pub use bytes::AlignedBytes;
pub use iterators::{AlignedBlock, AlignedBlockIterator};
pub use slice::AlignedSlice;

verus! {

/// What all aligned ranges have in common.
pub trait Aligned: Sized {
    /// The size of the boundary in bytes.
    spec fn unit(&self) -> nat;

    /// The bytes of the range.
    spec fn bytes(&self) -> Seq<u8>;

    /// The address of the first byte.
    spec fn start(&self) -> nat;

    /// The size of the boundary in bytes.
    fn alignment_size(&self) -> (r: usize)
        ensures
            r == self.unit(),
            self.start() % self.unit() == 0,
    ;

    /// The range that starts `count` boundary units in.
    fn offset(&self, count: isize) -> (r: Self)
        requires
            0 <= count,
            count * self.unit() <= self.bytes().len(),
        ensures
            r.unit() == self.unit(),
            r.bytes() == self.bytes().skip(count * self.unit()),
            r.start() == self.start() + count * self.unit(),
            r.start() % r.unit() == 0,
    ;
}

impl<'a, A: alignment::Alignment> Aligned for AlignedSlice<'a, A> {
    open spec fn unit(&self) -> nat {
        self.alignment().spec_size()
    }

    open spec fn bytes(&self) -> Seq<u8> {
        self@
    }

    open spec fn start(&self) -> nat {
        self.address() as nat
    }

    fn alignment_size(&self) -> (r: usize) {
        AlignedSlice::alignment_size(self)
    }

    fn offset(&self, count: isize) -> (r: Self) {
        AlignedSlice::offset(self, count)
    }
}

} // verus!
