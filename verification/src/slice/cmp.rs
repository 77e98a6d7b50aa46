use crate::alignment::Alignment;
use crate::slice::AlignedSlice;
use vstd::prelude::*;
use core::cmp::Ordering;
use vstd::std_specs::cmp::{PartialEqSpecImpl, PartialOrdSpecImpl};

verus! {

/// Whether two slices hold the same bytes.
pub fn same_bytes(left: &[u8], right: &[u8]) -> (r: bool)
    ensures
        r == (left@ == right@),
{
    if left.len() != right.len() {
        return false;
    }
    let mut i: usize = 0;
    while i < left.len()
        invariant
            i <= left@.len(),
            left@.len() == right@.len(),
            forall|k: int| 0 <= k < i ==> left@[k] == right@[k],
        decreases left@.len() - i,
    {
        if left[i] != right[i] {
            return false;
        }
        i = i + 1;
    }
    assert(left@ =~= right@);
    true
}

/// How one sequence of bytes stands to another.
#[derive(Clone, Copy, Debug, PartialEq, Eq, Structural)]
pub enum ByteOrder {
    /// It comes first.
    Less,
    /// The two are the same.
    Equal,
    /// It comes last.
    Greater,
}

/// The order of two sequences of bytes as a dictionary has it: the first byte in which
/// they differ decides, and a sequence comes before those that it begins.
pub open spec fn lexicographic(left: Seq<u8>, right: Seq<u8>) -> ByteOrder
    decreases left.len(),
{
    if left.len() == 0 {
        if right.len() == 0 {
            ByteOrder::Equal
        } else {
            ByteOrder::Less
        }
    } else if right.len() == 0 {
        ByteOrder::Greater
    } else if left[0] < right[0] {
        ByteOrder::Less
    } else if left[0] > right[0] {
        ByteOrder::Greater
    } else {
        lexicographic(left.skip(1), right.skip(1))
    }
}

/// Two sequences are of equal order exactly where they are the same.
pub proof fn lemma_lexicographic_equal(left: Seq<u8>, right: Seq<u8>)
    ensures
        lexicographic(left, right) == ByteOrder::Equal <==> left == right,
    decreases left.len(),
{
    if left.len() > 0 && right.len() > 0 && left[0] == right[0] {
        lemma_lexicographic_equal(left.skip(1), right.skip(1));
        if left.skip(1) == right.skip(1) {
            assert(left =~= seq![left[0]] + left.skip(1));
            assert(right =~= seq![right[0]] + right.skip(1));
        }
    } else if left.len() == 0 && right.len() == 0 {
        assert(left =~= right);
    }
}

/// The order of two slices of bytes.
pub fn compare_bytes(left: &[u8], right: &[u8]) -> (r: ByteOrder)
    ensures
        r == lexicographic(left@, right@),
{
    let mut i: usize = 0;
    assert(left@.skip(0) =~= left@ && right@.skip(0) =~= right@);
    while i < left.len() && i < right.len()
        invariant
            i <= left@.len(),
            i <= right@.len(),
            lexicographic(left@, right@) == lexicographic(
                left@.skip(i as int),
                right@.skip(i as int),
            ),
        decreases left@.len() - i,
    {
        if left[i] < right[i] {
            return ByteOrder::Less;
        }
        if left[i] > right[i] {
            return ByteOrder::Greater;
        }
        proof {
            assert(left@.skip(i as int).skip(1) =~= left@.skip(i + 1));
            assert(right@.skip(i as int).skip(1) =~= right@.skip(i + 1));
        }
        i = i + 1;
    }
    if i < right.len() {
        ByteOrder::Less
    } else if i < left.len() {
        ByteOrder::Greater
    } else {
        ByteOrder::Equal
    }
}

/// The order as the standard library names it.
pub open spec fn ordering_of(order: ByteOrder) -> Ordering {
    match order {
        ByteOrder::Less => Ordering::Less,
        ByteOrder::Equal => Ordering::Equal,
        ByteOrder::Greater => Ordering::Greater,
    }
}

/// The order as the standard library names it.
pub fn to_ordering(order: ByteOrder) -> (r: Ordering)
    ensures
        r == ordering_of(order),
{
    match order {
        ByteOrder::Less => Ordering::Less,
        ByteOrder::Equal => Ordering::Equal,
        ByteOrder::Greater => Ordering::Greater,
    }
}

impl<'a, A: Alignment> PartialOrd for AlignedSlice<'a, A> {
    /// Ranges are ordered as their bytes are.
    fn partial_cmp(&self, other: &Self) -> (r: Option<Ordering>) {
        Some(to_ordering(compare_bytes(self.as_bytes(), other.as_bytes())))
    }
}

impl<'a, A: Alignment> PartialOrdSpecImpl for AlignedSlice<'a, A> {
    open spec fn obeys_partial_cmp_spec() -> bool {
        true
    }

    open spec fn partial_cmp_spec(&self, other: &Self) -> Option<Ordering> {
        Some(ordering_of(lexicographic(self@, other@)))
    }
}

impl<'a, A: Alignment> Ord for AlignedSlice<'a, A> {
    /// Calls `Ord::cmp` of the byte slice, which orders slices as a dictionary does.
    #[verifier::external_body]
    fn cmp(&self, other: &Self) -> (r: Ordering)
        ensures
            r == ordering_of(lexicographic(self@, other@)),
    {
        self.as_bytes().cmp(other.as_bytes())
    }
}

/// Calls `Hash::hash` of the byte slice, which feeds the bytes to `state`.
#[verifier::external_body]
pub(crate) fn hash_bytes<H: core::hash::Hasher>(bytes: &[u8], state: &mut H) {
    core::hash::Hash::hash(bytes, state)
}

impl<'a, A: Alignment> core::hash::Hash for AlignedSlice<'a, A> {
    /// Feeds the bytes, and nothing else, to `state`.
    fn hash<H: core::hash::Hasher>(&self, state: &mut H) {
        hash_bytes(self.as_bytes(), state)
    }
}

impl<'a, A: Alignment> PartialEq for AlignedSlice<'a, A> {
    /// Two ranges are equal where they hold the same bytes, wherever they lie.
    fn eq(&self, other: &Self) -> (r: bool) {
        same_bytes(self.as_bytes(), other.as_bytes())
    }
}

impl<'a, A: Alignment> PartialEqSpecImpl for AlignedSlice<'a, A> {
    open spec fn obeys_eq_spec() -> bool {
        true
    }

    open spec fn eq_spec(&self, other: &Self) -> bool {
        self@ == other@
    }
}

impl<'a, A: Alignment> Eq for AlignedSlice<'a, A> {

}

impl<'a, A: Alignment> PartialEq<[u8]> for AlignedSlice<'a, A> {
    fn eq(&self, other: &[u8]) -> (r: bool) {
        same_bytes(self.as_bytes(), other)
    }
}

impl<'a, A: Alignment> PartialEqSpecImpl<[u8]> for AlignedSlice<'a, A> {
    open spec fn obeys_eq_spec() -> bool {
        true
    }

    open spec fn eq_spec(&self, other: &[u8]) -> bool {
        self@ == other@
    }
}

impl<'a, A: Alignment> PartialEq<AlignedSlice<'a, A>> for [u8] {
    fn eq(&self, other: &AlignedSlice<'a, A>) -> (r: bool) {
        same_bytes(self, other.as_bytes())
    }
}

impl<'a, A: Alignment> PartialEqSpecImpl<AlignedSlice<'a, A>> for [u8] {
    open spec fn obeys_eq_spec() -> bool {
        true
    }

    open spec fn eq_spec(&self, other: &AlignedSlice<'a, A>) -> bool {
        self@ == other@
    }
}

impl<'a, A: Alignment> PartialEq<Vec<u8>> for AlignedSlice<'a, A> {
    fn eq(&self, other: &Vec<u8>) -> (r: bool) {
        same_bytes(self.as_bytes(), other.as_slice())
    }
}

impl<'a, A: Alignment> PartialEqSpecImpl<Vec<u8>> for AlignedSlice<'a, A> {
    open spec fn obeys_eq_spec() -> bool {
        true
    }

    open spec fn eq_spec(&self, other: &Vec<u8>) -> bool {
        self@ == other@
    }
}

impl<'a, A: Alignment> PartialEq<AlignedSlice<'a, A>> for Vec<u8> {
    fn eq(&self, other: &AlignedSlice<'a, A>) -> (r: bool) {
        same_bytes(self.as_slice(), other.as_bytes())
    }
}

impl<'a, A: Alignment> PartialEqSpecImpl<AlignedSlice<'a, A>> for Vec<u8> {
    open spec fn obeys_eq_spec() -> bool {
        true
    }

    open spec fn eq_spec(&self, other: &AlignedSlice<'a, A>) -> bool {
        self@ == other@
    }
}

impl<'a, A: Alignment, const N: usize> PartialEq<[u8; N]> for AlignedSlice<'a, A> {
    fn eq(&self, other: &[u8; N]) -> (r: bool) {
        same_bytes(self.as_bytes(), other.as_slice())
    }
}

impl<'a, A: Alignment, const N: usize> PartialEqSpecImpl<[u8; N]> for AlignedSlice<'a, A> {
    open spec fn obeys_eq_spec() -> bool {
        true
    }

    open spec fn eq_spec(&self, other: &[u8; N]) -> bool {
        self@ == other@
    }
}

impl<'a, A: Alignment, const N: usize> PartialEq<AlignedSlice<'a, A>> for [u8; N] {
    fn eq(&self, other: &AlignedSlice<'a, A>) -> (r: bool) {
        same_bytes(self.as_slice(), other.as_bytes())
    }
}

impl<'a, A: Alignment, const N: usize> PartialEqSpecImpl<AlignedSlice<'a, A>> for [u8; N] {
    open spec fn obeys_eq_spec() -> bool {
        true
    }

    open spec fn eq_spec(&self, other: &AlignedSlice<'a, A>) -> bool {
        self@ == other@
    }
}

} // verus!
