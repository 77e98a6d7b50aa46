use crate::alignment::{lemma_power_of_two_doubles, Alignment};
use vstd::prelude::*;

verus! {

/// Alignment to twice the boundary of `A`.
#[derive(Debug)]
pub struct Twice<A: Alignment> {
    half: A,
}

impl<A: Alignment> Clone for Twice<A> {
    fn clone(&self) -> (r: Self)
        ensures
            r == *self,
    {
        *self
    }
}

impl<A: Alignment> Copy for Twice<A> {

}

impl<A: Alignment> Twice<A> {
    /// The descriptor of twice the boundary of `half`.
    pub fn new(half: A) -> (r: Self)
        ensures
            r.half() == half,
    {
        Twice { half }
    }

    /// The descriptor that this one doubles.
    pub closed spec fn spec_half(&self) -> A {
        self.half
    }

    /// The descriptor that this one doubles.
    #[verifier::when_used_as_spec(spec_half)]
    pub fn half(&self) -> (r: A)
        ensures
            r == self.spec_half(),
    {
        self.half
    }
}

impl<A: Alignment> Alignment for Twice<A> {
    open spec fn valid(&self) -> bool {
        self.half().valid() && 2 * self.half().spec_size() <= usize::MAX
    }

    open spec fn spec_size(&self) -> nat {
        2 * self.half().spec_size()
    }

    proof fn size_is_power_of_two(&self) {
        self.half().size_is_power_of_two();
        lemma_power_of_two_doubles(self.half().spec_size());
    }

    fn is_valid(&self) -> (r: bool) {
        self.half.is_valid() && self.half.size() <= usize::MAX / 2
    }

    fn size(&self) -> (r: usize) {
        self.half.size() * 2
    }
}

} // verus!
