use crate::alignment::{lemma_power_of_two_positive, Alignment};
use crate::slice::AlignedSlice;
use vstd::arithmetic::div_mod::{lemma_fundamental_div_mod, lemma_mod_multiples_basic};
use vstd::prelude::*;
use vstd::std_specs::cmp::PartialEqSpec;
use vstd::slice::slice_subrange;

mod cmp;
mod multiple;
mod simd;

verus! {

/// The number of bytes that bring `len` up to a multiple of `unit`.
pub open spec fn padding(len: nat, unit: nat) -> nat {
    if len % unit == 0 {
        0
    } else {
        (unit - len % unit) as nat
    }
}

/// The smallest multiple of `unit` that is at least `len`.
pub open spec fn padded_len(len: nat, unit: nat) -> nat {
    len + padding(len, unit)
}

/// Whether a buffer of `size` bytes can be laid out at a boundary of `unit` bytes: the
/// size, rounded up to the boundary, must not exceed `isize::MAX`.
pub open spec fn allocatable(unit: nat, size: nat) -> bool {
    size == 0 || size + unit - 1 <= isize::MAX
}

/// Decides whether a buffer of `size` bytes can be laid out at a boundary of `unit` bytes.
pub fn is_allocatable(unit: usize, size: usize) -> (r: bool)
    requires
        unit > 0,
    ensures
        r == allocatable(unit as nat, size as nat),
{
    size == 0 || (unit - 1 <= isize::MAX as usize && size <= isize::MAX as usize - (unit - 1))
}

/// `len` zero bytes.
pub open spec fn zeros(len: nat) -> Seq<u8> {
    Seq::new(len, |i: int| 0u8)
}

/// The padded length is a multiple of the unit, and the padding is less than a unit.
pub proof fn lemma_padding(len: nat, unit: nat)
    requires
        unit > 0,
    ensures
        padding(len, unit) < unit,
        padded_len(len, unit) % unit == 0,
{
    let q = len / unit;
    let m = len % unit;
    lemma_fundamental_div_mod(len as int, unit as int);
    if m != 0 {
        assert(len + (unit - m) == (q + 1) * unit) by (nonlinear_arith)
            requires
                len == unit * q + m,
        ;
        lemma_mod_multiples_basic((q + 1) as int, unit as int);
    }
}

/// No multiple of the unit lies between `len` and its padded length.
pub proof fn lemma_padded_len_is_least(len: nat, unit: nat, multiple: nat)
    requires
        unit > 0,
        multiple % unit == 0,
        len <= multiple,
    ensures
        padded_len(len, unit) <= multiple,
{
    let q = len / unit;
    let m = len % unit;
    let k = multiple / unit;
    lemma_fundamental_div_mod(len as int, unit as int);
    lemma_fundamental_div_mod(multiple as int, unit as int);
    if m != 0 {
        assert(k >= q + 1) by (nonlinear_arith)
            requires
                len == unit * q + m,
                multiple == unit * k,
                0 < m < unit,
                len <= multiple,
        ;
        assert(unit * k >= unit * (q + 1)) by (nonlinear_arith)
            requires
                k >= q + 1,
                unit > 0,
        ;
        assert(len + (unit - m) == unit * (q + 1)) by (nonlinear_arith)
            requires
                len == unit * q + m,
        ;
    }
}

/// The number of bytes that bring `len` up to a multiple of `unit`.
pub fn padding_for(len: usize, unit: usize) -> (r: usize)
    requires
        unit > 0,
    ensures
        r == padding(len as nat, unit as nat),
{
    let rest = len % unit;
    if rest == 0 {
        0
    } else {
        unit - rest
    }
}

/// Calls `Vec::as_ptr` and gives the address of the vector's buffer as a number. The
/// contract claims what the standard library documents of every vector and allocation: the
/// pointer is never null, and base address plus size does not exceed `usize::MAX`.
#[verifier::external_body]
fn buffer_address(storage: &Vec<u8>) -> (r: usize)
    ensures
        r != 0,
        r + storage@.len() <= usize::MAX,
{
    storage.as_ptr() as usize
}

/// Bytes that start at an address aligned to the boundary of `A`, and that the value owns.
///
/// The bytes lie in a vector that is made a little longer than asked for, so that an
/// aligned address falls inside it, and that is never resized afterwards: the address read
/// when the buffer is made stays that of its first byte until the buffer is dropped, which
/// releases the vector.
#[derive(Debug)]
pub struct AlignedBytes<A: Alignment> {
    alignment: A,
    storage: Vec<u8>,
    start: usize,
    size: usize,
    address: usize,
}

impl<A: Alignment> View for AlignedBytes<A> {
    type V = Seq<u8>;

    /// The bytes of the buffer.
    closed spec fn view(&self) -> Seq<u8> {
        self.storage@.subrange(self.start as int, self.start + self.size)
    }
}

impl<A: Alignment> AlignedBytes<A> {
    /// The descriptor of the boundary.
    pub closed spec fn spec_alignment(&self) -> A {
        self.alignment
    }

    /// The address of the first byte.
    pub closed spec fn address(&self) -> usize {
        self.address
    }

    /// Whether the bytes lie inside what was allocated for them.
    pub closed spec fn stored(&self) -> bool {
        self.start + self.size <= self.storage@.len()
    }

    /// What holds of every buffer: its address is not null and a multiple of the boundary,
    /// and its length is one that can be laid out at that boundary.
    #[verifier::type_invariant]
    pub open spec fn wf(&self) -> bool {
        &&& self.alignment().valid()
        &&& self.address() != 0
        &&& self.address() as nat % self.alignment().spec_size() == 0
        &&& self.address() + self@.len() <= usize::MAX
        &&& allocatable(self.alignment().spec_size(), self@.len())
        &&& self.stored()
    }

    /// A buffer without bytes, for which nothing is allocated. Its address is the size of
    /// the boundary, which is the smallest aligned address that is not null.
    pub fn default(alignment: A) -> (r: Self)
        requires
            alignment.valid(),
        ensures
            r.wf(),
            r.alignment() == alignment,
            r.address() == alignment.spec_size(),
            r@.len() == 0,
    {
        proof {
            alignment.size_is_power_of_two();
            lemma_power_of_two_positive(alignment.spec_size());
            vstd::arithmetic::div_mod::lemma_mod_self_0(alignment.spec_size() as int);
        }
        AlignedBytes {
            alignment,
            storage: Vec::new(),
            start: 0,
            size: 0,
            address: alignment.size(),
        }
    }

    /// A buffer of `size` bytes of which nothing is known: write each one before reading it.
    pub fn new(alignment: A, size: usize) -> (r: Self)
        requires
            alignment.valid(),
            allocatable(alignment.spec_size(), size as nat),
        ensures
            r.wf(),
            r.alignment() == alignment,
            r@.len() == size,
    {
        if size == 0 {
            return Self::default(alignment);
        }
        let nothing: &[u8] = &[];
        Self::new_impl(alignment, size, nothing)
    }

    /// A buffer of `size` bytes in which byte `i` is `f(i)`.
    pub fn new_initialize<F: Fn(usize) -> u8>(alignment: A, size: usize, f: F) -> (r: Self)
        requires
            alignment.valid(),
            allocatable(alignment.spec_size(), size as nat),
            forall|i: usize| i < size ==> call_requires(f, (i,)),
        ensures
            r.wf(),
            r.alignment() == alignment,
            r@.len() == size,
            forall|i: usize| i < size ==> call_ensures(f, (i,), #[trigger] r@[i as int]),
    {
        let mut block = Self::new(alignment, size);
        let mut i: usize = 0;
        while i < size
            invariant
                i <= size,
                block.wf(),
                block.alignment() == alignment,
                block@.len() == size,
                forall|k: usize| k < size ==> call_requires(f, (k,)),
                forall|k: usize| k < i ==> call_ensures(f, (k,), #[trigger] block@[k as int]),
            decreases size - i,
        {
            let value = f(i);
            block.set(i, value);
            i = i + 1;
        }
        block
    }

    /// A buffer of `size` zero bytes. For `size == 0` nothing is allocated.
    pub fn new_zeroed(alignment: A, size: usize) -> (r: Self)
        requires
            alignment.valid(),
            allocatable(alignment.spec_size(), size as nat),
        ensures
            r.wf(),
            r.alignment() == alignment,
            r@ == zeros(size as nat),
            size == 0 ==> r.address() == alignment.spec_size(),
    {
        if size == 0 {
            let r = Self::default(alignment);
            assert(r@ =~= zeros(0));
            return r;
        }
        let nothing: &[u8] = &[];
        let r = Self::new_impl(alignment, size, nothing);
        assert(r@ =~= zeros(size as nat));
        r
    }

    /// A copy of `bytes`, followed by as many zero bytes as bring the length up to a
    /// multiple of the boundary.
    pub fn new_padded(alignment: A, bytes: &[u8]) -> (r: Self)
        requires
            alignment.valid(),
            allocatable(
                alignment.spec_size(),
                padded_len(bytes@.len(), alignment.spec_size()),
            ),
        ensures
            r.wf(),
            r.alignment() == alignment,
            r@ == bytes@ + zeros(padding(bytes@.len(), alignment.spec_size())),
            r@.len() == padded_len(bytes@.len(), alignment.spec_size()),
            r@.len() % alignment.spec_size() == 0,
            r@.subrange(0, bytes@.len() as int) == bytes@,
            forall|i: int| bytes@.len() <= i < r@.len() ==> r@[i] == 0,
            bytes@.len() == 0 ==> r@.len() == 0 && r.address() == alignment.spec_size(),
    {
        proof {
            alignment.size_is_power_of_two();
            lemma_power_of_two_positive(alignment.spec_size());
        }
        if bytes.len() == 0 {
            let r = Self::default(alignment);
            proof {
                vstd::arithmetic::div_mod::lemma_small_mod(0, alignment.spec_size());
                assert(r@ =~= bytes@ + zeros(0));
                assert(r@.subrange(0, 0) =~= bytes@);
            }
            return r;
        }
        let size = bytes.len();
        let padded_size = size + padding_for(size, alignment.size());
        let r = Self::new_impl(alignment, padded_size, bytes);
        proof {
            lemma_padding(size as nat, alignment.spec_size());
            assert(r@.subrange(0, size as int) =~= bytes@);
        }
        r
    }

    /// A copy of `bytes` at an aligned address.
    pub fn from(alignment: A, bytes: &[u8]) -> (r: Self)
        requires
            alignment.valid(),
            allocatable(alignment.spec_size(), bytes@.len()),
        ensures
            r.wf(),
            r.alignment() == alignment,
            r@ == bytes@,
            r.eq_spec(bytes),
    {
        if bytes.len() == 0 {
            let r = Self::default(alignment);
            assert(r@ =~= bytes@);
            return r;
        }
        let r = Self::new_impl(alignment, bytes.len(), bytes);
        assert(r@ =~= bytes@);
        r
    }

    /// The size of the boundary in bytes.
    pub fn alignment_size(&self) -> (r: usize)
        ensures
            r == self.alignment().spec_size(),
    {
        proof {
            use_type_invariant(self);
        }
        self.alignment.size()
    }

    /// The descriptor of the boundary.
    #[verifier::when_used_as_spec(spec_alignment)]
    pub fn alignment(&self) -> (r: A)
        ensures
            self.wf(),
            r == self.spec_alignment(),
    {
        proof {
            use_type_invariant(self);
        }
        self.alignment
    }

    /// The number of bytes in the buffer.
    pub fn len(&self) -> (r: usize)
        ensures
            r == self@.len(),
    {
        proof {
            use_type_invariant(self);
        }
        self.size
    }

    /// Whether the buffer holds no byte.
    pub fn is_empty(&self) -> (r: bool)
        ensures
            r == (self@.len() == 0),
    {
        proof {
            use_type_invariant(self);
        }
        self.size == 0
    }

    /// The address of the first byte: not null, and a multiple of the boundary.
    pub fn as_ptr(&self) -> (r: usize)
        ensures
            self.wf(),
            r == self.address(),
            r != 0,
            r as nat % self.alignment().spec_size() == 0,
    {
        proof {
            use_type_invariant(self);
        }
        self.address
    }

    /// The address of the first byte, for a holder that may write.
    pub fn as_mut_ptr(&mut self) -> (r: usize)
        ensures
            *final(self) == *old(self),
            final(self).wf(),
            r == old(self).address(),
            r != 0,
            r as nat % old(self).alignment().spec_size() == 0,
    {
        proof {
            use_type_invariant(&*self);
        }
        self.address
    }

    /// The byte at `index`.
    pub fn get(&self, index: usize) -> (r: u8)
        requires
            index < self@.len(),
        ensures
            r == self@[index as int],
    {
        proof {
            use_type_invariant(self);
            vstd::std_specs::vec::axiom_spec_len(&self.storage);
        }
        self.storage[self.start + index]
    }

    /// Writes `value` at `index`.
    pub fn set(&mut self, index: usize, value: u8)
        requires
            index < old(self)@.len(),
        ensures
            final(self).wf(),
            final(self)@ == old(self)@.update(index as int, value),
            final(self).alignment() == old(self).alignment(),
            final(self).address() == old(self).address(),
    {
        proof {
            use_type_invariant(&*self);
            vstd::std_specs::vec::axiom_spec_len(&self.storage);
        }
        self.storage[self.start + index] = value;
        assert(final(self)@ =~= old(self)@.update(index as int, value));
    }

    /// The bytes as a plain slice.
    pub fn as_bytes(&self) -> (r: &[u8])
        ensures
            r@ == self@,
    {
        proof {
            use_type_invariant(self);
            vstd::std_specs::vec::axiom_spec_len(&self.storage);
        }
        slice_subrange(self.storage.as_slice(), self.start, self.start + self.size)
    }

    /// The bytes as an aligned range.
    pub fn as_slice(&self) -> (r: AlignedSlice<'_, A>)
        ensures
            self.wf(),
            r.wf(),
            r.alignment() == self.alignment(),
            r.address() == self.address(),
            r@ == self@,
    {
        proof {
            use_type_invariant(self);
        }
        AlignedSlice::from_parts(self.alignment, self.address, self.as_bytes())
    }

    /// A buffer of `size` zero bytes with `prefix` copied over its beginning.
    fn new_impl(alignment: A, size: usize, prefix: &[u8]) -> (r: Self)
        requires
            alignment.valid(),
            size > 0,
            allocatable(alignment.spec_size(), size as nat),
            prefix@.len() <= size,
        ensures
            r.wf(),
            r.alignment() == alignment,
            r@ == prefix@ + zeros((size - prefix@.len()) as nat),
    {
        proof {
            alignment.size_is_power_of_two();
            lemma_power_of_two_positive(alignment.spec_size());
        }
        let unit = alignment.size();
        let mut storage = vec![0u8; size + (unit - 1)];
        let base = buffer_address(&storage);
        let start = padding_for(base, unit);
        proof {
            lemma_padding(base as nat, unit as nat);
        }
        let mut i: usize = 0;
        while i < prefix.len()
            invariant
                i <= prefix@.len() <= size,
                start + size <= storage@.len(),
                storage@.len() == size + (unit - 1) <= usize::MAX,
                forall|j: int| start <= j < start + i ==> (#[trigger] storage@[j]) == prefix@[j - start],
                forall|j: int| start + i <= j < start + size ==> (#[trigger] storage@[j]) == 0u8,
            decreases prefix@.len() - i,
        {
            storage.set(start + i, prefix[i]);
            i = i + 1;
        }
        let r = AlignedBytes { alignment, storage, start, size, address: base + start };
        assert(r@ =~= prefix@ + zeros((size - prefix@.len()) as nat));
        r
    }
}

impl<A: Alignment> core::ops::Deref for AlignedBytes<A> {
    type Target = [u8];

    /// The bytes as a plain slice.
    fn deref(&self) -> (r: &[u8])
        ensures
            r@ == self@,
    {
        self.as_bytes()
    }
}

impl<A: Alignment> Clone for AlignedBytes<A> {
    /// A copy of the bytes in a buffer of its own.
    fn clone(&self) -> (r: Self)
        ensures
            r.wf(),
            r.alignment() == self.alignment(),
            r@ == self@,
    {
        proof {
            use_type_invariant(self);
        }
        AlignedBytes::from(self.alignment, self.as_bytes())
    }
}

} // verus!
