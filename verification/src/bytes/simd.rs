use crate::alignment::{Alignment, SimdBlock, TwoSimdBlocks};
use crate::iterators::AlignedBlock;
use vstd::prelude::*;

verus! {

impl<'a> AlignedBlock<'a, TwoSimdBlocks> {
    /// The two register-wide blocks that a full block of two register widths holds.
    pub fn blocks(&self) -> (r: (AlignedBlock<'a, SimdBlock>, AlignedBlock<'a, SimdBlock>))
        requires
            self@.len() == self.alignment().spec_size(),
        ensures
            r.0.wf(),
            r.1.wf(),
            r.0.alignment() == self.alignment().half(),
            r.1.alignment() == self.alignment().half(),
            r.0@ == self@.take(self.alignment().half().spec_size() as int),
            r.1@ == self@.skip(self.alignment().half().spec_size() as int),
            r.0@.len() == self.alignment().half().spec_size(),
            r.1@.len() == self.alignment().half().spec_size(),
            r.0.address() == self.address(),
            r.1.address() == self.address() + self.alignment().half().spec_size(),
    {
        proof {
            use_type_invariant(self);
            self.alignment().half().size_is_power_of_two();
            crate::alignment::lemma_power_of_two_positive(self.alignment().half().spec_size());
        }
        self.halves()
    }
}

} // verus!
