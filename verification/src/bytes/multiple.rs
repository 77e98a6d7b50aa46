use crate::alignment::{
    lemma_aligned_to_smaller, lemma_power_of_two_doubles, lemma_power_of_two_positive, Alignment,
    Twice,
};
use crate::iterators::{first_block, AlignedBlock};
use crate::slice::{lemma_offset_keeps_alignment, AlignedSlice};
use vstd::prelude::*;
use vstd::slice::slice_subrange;

verus! {

impl<'a, A: Alignment> AlignedBlock<'a, Twice<A>> {
    /// The two halves of the block, each aligned to the boundary that the block's own
    /// doubles. Where the block is no longer than that boundary, the first half is the
    /// whole block and the second is empty.
    pub fn halves(&self) -> (r: (AlignedBlock<'a, A>, AlignedBlock<'a, A>))
        ensures
            r.0.wf(),
            r.1.wf(),
            r.0.alignment() == self.alignment().half(),
            r.1.alignment() == self.alignment().half(),
            r.0@ == first_block(self@, self.alignment().half().spec_size()),
            r.1@ == self@.skip(r.0@.len() as int),
            r.0@.len() + r.1@.len() == self@.len(),
            r.0@.len() == if self@.len() <= self.alignment().half().spec_size() {
                self@.len()
            } else {
                self.alignment().half().spec_size()
            },
            r.1@.len() == 0 <==> self@.len() <= self.alignment().half().spec_size(),
            r.0.address() == self.address(),
            r.1.address() == if self@.len() <= self.alignment().half().spec_size() {
                self.alignment().half().spec_size() as int
            } else {
                self.address() + self.alignment().half().spec_size()
            },
    {
        let slice = self.as_slice();
        let half = slice.alignment().half();
        let unit = half.size();
        proof {
            half.size_is_power_of_two();
            lemma_power_of_two_positive(half.spec_size());
            lemma_power_of_two_doubles(half.spec_size());
            lemma_aligned_to_smaller(
                slice.address() as nat,
                half.spec_size(),
                2 * half.spec_size(),
            );
            lemma_offset_keeps_alignment(slice.address() as nat, half.spec_size(), 1);
        }
        if slice.len() <= unit {
            let first = AlignedBlock::from_slice(slice.relax_alignment(half));
            let second = AlignedBlock::from_slice(AlignedSlice::default(half));
            assert(first@ =~= first_block(self@, unit as nat));
            assert(second@ =~= self@.skip(first@.len() as int));
            (first, second)
        } else {
            let bytes = slice.as_bytes();
            let address = slice.as_ptr();
            let first = AlignedBlock::from_slice(
                AlignedSlice::from_parts(half, address, slice_subrange(bytes, 0, unit)),
            );
            let second = AlignedBlock::from_slice(
                AlignedSlice::from_parts(
                    half,
                    address + unit,
                    slice_subrange(bytes, unit, bytes.len()),
                ),
            );
            (first, second)
        }
    }
}

} // verus!
