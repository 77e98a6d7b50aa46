use crate::alignment::{lemma_aligned_to_smaller, Alignment};
use crate::iterators::AlignedBlockIterator;
use vstd::arithmetic::div_mod::lemma_mod_multiples_vanish;
use vstd::prelude::*;
use vstd::slice::slice_subrange;

pub mod cmp;

verus! {

/// A multiple of `unit` added to an aligned address gives an aligned address.
pub proof fn lemma_offset_keeps_alignment(address: nat, unit: nat, count: nat)
    requires
        unit > 0,
        address % unit == 0,
    ensures
        (address + count * unit) % unit == 0,
{
    assert(count * unit == unit * count) by (nonlinear_arith);
    lemma_mod_multiples_vanish(count as int, address as int, unit as int);
}

/// A borrowed range of bytes that starts at an address aligned to the boundary of `A`.
#[derive(Debug)]
pub struct AlignedSlice<'a, A: Alignment> {
    alignment: A,
    address: usize,
    bytes: &'a [u8],
}

impl<'a, A: Alignment> Clone for AlignedSlice<'a, A> {
    fn clone(&self) -> (r: Self)
        ensures
            r == *self,
    {
        *self
    }
}

impl<'a, A: Alignment> Copy for AlignedSlice<'a, A> {

}

impl<'a, A: Alignment> core::ops::Deref for AlignedSlice<'a, A> {
    type Target = [u8];

    /// The bytes as a plain slice.
    fn deref(&self) -> (r: &[u8])
        ensures
            r@ == self@,
    {
        self.bytes
    }
}

impl<'a, A: Alignment> View for AlignedSlice<'a, A> {
    type V = Seq<u8>;

    /// The bytes of the range.
    closed spec fn view(&self) -> Seq<u8> {
        self.bytes@
    }
}

impl<'a, A: Alignment> AlignedSlice<'a, A> {
    /// The descriptor of the boundary.
    pub closed spec fn spec_alignment(&self) -> A {
        self.alignment
    }

    /// The address of the first byte.
    pub closed spec fn address(&self) -> usize {
        self.address
    }

    /// What holds of every view: its address is not null, is a multiple of the boundary,
    /// and the range does not wrap around the address space.
    #[verifier::type_invariant]
    pub open spec fn wf(&self) -> bool {
        &&& self.alignment().valid()
        &&& self.address() != 0
        &&& self.address() as nat % self.alignment().spec_size() == 0
        &&& self.address() + self@.len() <= usize::MAX
    }

    /// The view of `bytes`, which start at `address`.
    pub(crate) fn from_parts(alignment: A, address: usize, bytes: &'a [u8]) -> (r: Self)
        requires
            alignment.valid(),
            address != 0,
            address as nat % alignment.spec_size() == 0,
            address + bytes@.len() <= usize::MAX,
        ensures
            r.wf(),
            r.alignment() == alignment,
            r.address() == address,
            r@ == bytes@,
    {
        AlignedSlice { alignment, address, bytes }
    }

    /// A range without bytes. Its address is the size of the boundary, which is the
    /// smallest aligned address that is not null.
    pub fn default(alignment: A) -> (r: Self)
        requires
            alignment.valid(),
        ensures
            r.wf(),
            r.alignment() == alignment,
            r.address() == alignment.spec_size(),
            r@.len() == 0,
    {
        proof {
            alignment.size_is_power_of_two();
            crate::alignment::lemma_power_of_two_positive(alignment.spec_size());
            vstd::arithmetic::div_mod::lemma_mod_self_0(alignment.spec_size() as int);
        }
        let bytes: &'a [u8] = &[];
        AlignedSlice { alignment, address: alignment.size(), bytes }
    }

    /// The number of bytes in the range.
    pub fn len(&self) -> (r: usize)
        ensures
            r == self@.len(),
    {
        self.bytes.len()
    }

    /// Whether the range holds no byte.
    pub fn is_empty(&self) -> (r: bool)
        ensures
            r == (self@.len() == 0),
    {
        self.bytes.len() == 0
    }

    /// The bytes as a plain slice.
    pub fn as_bytes(&self) -> (r: &'a [u8])
        ensures
            r@ == self@,
    {
        self.bytes
    }

    /// The address of the first byte.
    pub fn as_ptr(&self) -> (r: usize)
        ensures
            self.wf(),
            r == self.address(),
            r != 0,
            r as nat % self.alignment().spec_size() == 0,
    {
        proof {
            use_type_invariant(self);
        }
        self.address
    }

    /// The size of the boundary in bytes.
    pub fn alignment_size(&self) -> (r: usize)
        ensures
            self.wf(),
            r == self.alignment().spec_size(),
    {
        proof {
            use_type_invariant(self);
        }
        self.alignment.size()
    }

    /// The descriptor of the boundary.
    #[verifier::when_used_as_spec(spec_alignment)]
    pub fn alignment(&self) -> (r: A)
        ensures
            self.wf(),
            r == self.spec_alignment(),
    {
        proof {
            use_type_invariant(self);
        }
        self.alignment
    }

    /// The range that starts `count` boundary units in.
    pub fn offset(&self, count: isize) -> (r: AlignedSlice<'a, A>)
        requires
            0 <= count,
            count * self.alignment().spec_size() <= self@.len(),
        ensures
            r.wf(),
            r.alignment() == self.alignment(),
            r@ == self@.skip(count * self.alignment().spec_size()),
            r.address() == self.address() + count * self.alignment().spec_size(),
    {
        proof {
            use_type_invariant(self);
            self.alignment.size_is_power_of_two();
            crate::alignment::lemma_power_of_two_positive(self.alignment.spec_size());
            lemma_offset_keeps_alignment(
                self.address as nat,
                self.alignment.spec_size(),
                count as nat,
            );
        }
        let unit = self.alignment.size();
        let skipped = (count as usize) * unit;
        let bytes = slice_subrange(self.bytes, skipped, self.bytes.len());
        AlignedSlice { alignment: self.alignment, address: self.address + skipped, bytes }
    }

    /// A cursor over the blocks of the range.
    pub fn iter_blocks(&self) -> (r: AlignedBlockIterator<'a, A>)
        ensures
            r.remaining() == *self,
    {
        AlignedBlockIterator::new(*self)
    }

    /// The same range under a boundary that is no larger.
    pub fn relax_alignment<B: Alignment>(&self, target: B) -> (r: AlignedSlice<'a, B>)
        requires
            target.valid(),
            target.spec_size() <= self.alignment().spec_size(),
        ensures
            r.wf(),
            r.alignment() == target,
            r@ == self@,
            r.address() == self.address(),
    {
        proof {
            use_type_invariant(self);
            self.alignment.size_is_power_of_two();
            target.size_is_power_of_two();
            lemma_aligned_to_smaller(
                self.address as nat,
                target.spec_size(),
                self.alignment.spec_size(),
            );
        }
        AlignedSlice { alignment: target, address: self.address, bytes: self.bytes }
    }
}

} // verus!
