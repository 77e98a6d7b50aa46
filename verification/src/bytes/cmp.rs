use crate::alignment::Alignment;
use crate::bytes::AlignedBytes;
use crate::slice::cmp::{
    compare_bytes, hash_bytes, lexicographic, ordering_of, same_bytes, to_ordering,
};
use core::cmp::Ordering;
use vstd::prelude::*;
use vstd::std_specs::cmp::{PartialEqSpecImpl, PartialOrdSpecImpl};

verus! {

impl<A: Alignment> PartialEq for AlignedBytes<A> {
    /// Two buffers are equal where they hold the same bytes, wherever they lie.
    fn eq(&self, other: &Self) -> (r: bool) {
        same_bytes(self.as_bytes(), other.as_bytes())
    }
}

impl<A: Alignment> PartialEqSpecImpl for AlignedBytes<A> {
    open spec fn obeys_eq_spec() -> bool {
        true
    }

    open spec fn eq_spec(&self, other: &Self) -> bool {
        self@ == other@
    }
}

impl<A: Alignment> Eq for AlignedBytes<A> {

}

impl<A: Alignment> PartialEq<AlignedBytes<A>> for Vec<u8> {
    fn eq(&self, other: &AlignedBytes<A>) -> (r: bool) {
        same_bytes(self.as_slice(), other.as_bytes())
    }
}

impl<A: Alignment> PartialEqSpecImpl<AlignedBytes<A>> for Vec<u8> {
    open spec fn obeys_eq_spec() -> bool {
        true
    }

    open spec fn eq_spec(&self, other: &AlignedBytes<A>) -> bool {
        self@ == other@
    }
}

impl<A: Alignment> PartialEq<Vec<u8>> for AlignedBytes<A> {
    fn eq(&self, other: &Vec<u8>) -> (r: bool) {
        same_bytes(self.as_bytes(), other.as_slice())
    }
}

impl<A: Alignment> PartialEqSpecImpl<Vec<u8>> for AlignedBytes<A> {
    open spec fn obeys_eq_spec() -> bool {
        true
    }

    open spec fn eq_spec(&self, other: &Vec<u8>) -> bool {
        self@ == other@
    }
}

impl<A: Alignment> PartialEq<AlignedBytes<A>> for [u8] {
    fn eq(&self, other: &AlignedBytes<A>) -> (r: bool) {
        same_bytes(self, other.as_bytes())
    }
}

impl<A: Alignment> PartialEqSpecImpl<AlignedBytes<A>> for [u8] {
    open spec fn obeys_eq_spec() -> bool {
        true
    }

    open spec fn eq_spec(&self, other: &AlignedBytes<A>) -> bool {
        self@ == other@
    }
}

impl<A: Alignment> PartialEq<[u8]> for AlignedBytes<A> {
    fn eq(&self, other: &[u8]) -> (r: bool) {
        same_bytes(self.as_bytes(), other)
    }
}

impl<A: Alignment> PartialEqSpecImpl<[u8]> for AlignedBytes<A> {
    open spec fn obeys_eq_spec() -> bool {
        true
    }

    open spec fn eq_spec(&self, other: &[u8]) -> bool {
        self@ == other@
    }
}

impl<A: Alignment, const N: usize> PartialEq<AlignedBytes<A>> for [u8; N] {
    fn eq(&self, other: &AlignedBytes<A>) -> (r: bool) {
        same_bytes(self.as_slice(), other.as_bytes())
    }
}

impl<A: Alignment, const N: usize> PartialEqSpecImpl<AlignedBytes<A>> for [u8; N] {
    open spec fn obeys_eq_spec() -> bool {
        true
    }

    open spec fn eq_spec(&self, other: &AlignedBytes<A>) -> bool {
        self@ == other@
    }
}

impl<A: Alignment, const N: usize> PartialEq<[u8; N]> for AlignedBytes<A> {
    fn eq(&self, other: &[u8; N]) -> (r: bool) {
        same_bytes(self.as_bytes(), other.as_slice())
    }
}

impl<A: Alignment, const N: usize> PartialEqSpecImpl<[u8; N]> for AlignedBytes<A> {
    open spec fn obeys_eq_spec() -> bool {
        true
    }

    open spec fn eq_spec(&self, other: &[u8; N]) -> bool {
        self@ == other@
    }
}

impl<A: Alignment> PartialOrd for AlignedBytes<A> {
    /// Buffers are ordered as their bytes are.
    fn partial_cmp(&self, other: &Self) -> (r: Option<Ordering>) {
        Some(to_ordering(compare_bytes(self.as_bytes(), other.as_bytes())))
    }
}

impl<A: Alignment> PartialOrdSpecImpl for AlignedBytes<A> {
    open spec fn obeys_partial_cmp_spec() -> bool {
        true
    }

    open spec fn partial_cmp_spec(&self, other: &Self) -> Option<Ordering> {
        Some(ordering_of(lexicographic(self@, other@)))
    }
}

impl<A: Alignment> Ord for AlignedBytes<A> {
    /// Calls `Ord::cmp` of the byte slice, which orders slices as a dictionary does.
    #[verifier::external_body]
    fn cmp(&self, other: &Self) -> (r: Ordering)
        ensures
            r == ordering_of(lexicographic(self@, other@)),
    {
        self.as_bytes().cmp(other.as_bytes())
    }
}

impl<A: Alignment> core::hash::Hash for AlignedBytes<A> {
    /// Feeds the bytes, and nothing else, to `state`.
    fn hash<H: core::hash::Hasher>(&self, state: &mut H) {
        hash_bytes(self.as_bytes(), state)
    }
}

} // verus!
