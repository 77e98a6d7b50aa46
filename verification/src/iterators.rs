use crate::alignment::{lemma_power_of_two_positive, Alignment};
use crate::slice::AlignedSlice;
use vstd::arithmetic::div_mod::{lemma_fundamental_div_mod, lemma_fundamental_div_mod_converse};
use vstd::prelude::*;
use vstd::slice::slice_subrange;

verus! {

/// The number of blocks that `len` bytes make under a boundary of `unit` bytes: `len / unit`,
/// rounded up.
pub open spec fn block_count(len: nat, unit: nat) -> nat {
    ((len + unit - 1) / (unit as int)) as nat
}

/// The first block of `bytes`: a whole unit, or all of `bytes` where they are fewer.
pub open spec fn first_block(bytes: Seq<u8>, unit: nat) -> Seq<u8> {
    if bytes.len() < unit {
        bytes
    } else {
        bytes.take(unit as int)
    }
}

/// The blocks that `bytes` fall into, in order.
pub open spec fn blocks_of(bytes: Seq<u8>, unit: nat) -> Seq<Seq<u8>>
    decreases bytes.len(),
{
    if bytes.len() == 0 || unit == 0 {
        Seq::empty()
    } else {
        seq![first_block(bytes, unit)] + blocks_of(
            bytes.skip(first_block(bytes, unit).len() as int),
            unit,
        )
    }
}

/// A range of at most one boundary unit that starts at an aligned address.
#[derive(Debug)]
pub struct AlignedBlock<'a, A: Alignment> {
    slice: AlignedSlice<'a, A>,
}

impl<'a, A: Alignment> Clone for AlignedBlock<'a, A> {
    fn clone(&self) -> (r: Self)
        ensures
            r == *self,
    {
        *self
    }
}

impl<'a, A: Alignment> Copy for AlignedBlock<'a, A> {

}

impl<'a, A: Alignment> core::ops::Deref for AlignedBlock<'a, A> {
    type Target = [u8];

    /// The bytes as a plain slice.
    fn deref(&self) -> (r: &[u8])
        ensures
            r@ == self@,
    {
        self.slice.as_bytes()
    }
}

impl<'a, A: Alignment> View for AlignedBlock<'a, A> {
    type V = Seq<u8>;

    /// The bytes of the block.
    open spec fn view(&self) -> Seq<u8> {
        self.slice()@
    }
}

impl<'a, A: Alignment> AlignedBlock<'a, A> {
    /// The block as a range.
    pub closed spec fn slice(&self) -> AlignedSlice<'a, A> {
        self.slice
    }

    /// The descriptor of the boundary.
    pub open spec fn alignment(&self) -> A {
        self.slice().alignment()
    }

    /// The address of the first byte.
    pub open spec fn address(&self) -> usize {
        self.slice().address()
    }

    /// What holds of every block: it is an aligned range of at most one unit.
    #[verifier::type_invariant]
    pub open spec fn wf(&self) -> bool {
        &&& self.slice().wf()
        &&& self@.len() <= self.alignment().spec_size()
    }

    /// The block that `slice` is.
    pub(crate) fn from_slice(slice: AlignedSlice<'a, A>) -> (r: Self)
        requires
            slice.wf(),
            slice@.len() <= slice.alignment().spec_size(),
        ensures
            r.wf(),
            r.slice() == slice,
    {
        AlignedBlock { slice }
    }

    /// The block as a range.
    pub fn as_slice(&self) -> (r: AlignedSlice<'a, A>)
        ensures
            self.wf(),
            r == self.slice(),
    {
        proof {
            use_type_invariant(self);
        }
        self.slice
    }

    /// The bytes as a plain slice.
    pub fn as_bytes(&self) -> (r: &'a [u8])
        ensures
            r@ == self@,
    {
        self.slice.as_bytes()
    }

    /// The address of the first byte.
    pub fn as_ptr(&self) -> (r: usize)
        ensures
            self.wf(),
            r == self.address(),
    {
        proof {
            use_type_invariant(self);
        }
        self.slice.as_ptr()
    }

    /// The number of bytes in the block, at most the size of the boundary.
    pub fn len(&self) -> (r: usize)
        ensures
            r == self@.len(),
            r <= self.alignment().spec_size(),
    {
        proof {
            use_type_invariant(self);
        }
        self.slice.len()
    }

    /// Whether the block holds no byte.
    pub fn is_empty(&self) -> (r: bool)
        ensures
            r == (self@.len() == 0),
    {
        self.slice.is_empty()
    }

    /// The size of the boundary in bytes.
    pub fn alignment_size(&self) -> (r: usize)
        ensures
            r == self.alignment().spec_size(),
    {
        self.slice.alignment_size()
    }
}

/// A cursor over a range that hands out its blocks one after the other.
#[derive(Debug)]
pub struct AlignedBlockIterator<'a, A: Alignment> {
    bytes: AlignedSlice<'a, A>,
}

impl<'a, A: Alignment> View for AlignedBlockIterator<'a, A> {
    type V = Seq<u8>;

    /// The bytes that are still to come.
    open spec fn view(&self) -> Seq<u8> {
        self.remaining()@
    }
}

impl<'a, A: Alignment> AlignedBlockIterator<'a, A> {
    /// The range that is still to come.
    pub closed spec fn remaining(&self) -> AlignedSlice<'a, A> {
        self.bytes
    }

    /// The size of the boundary.
    pub open spec fn unit(&self) -> nat {
        self.remaining().alignment().spec_size()
    }

    /// A cursor at the start of `slice`.
    pub fn new(slice: AlignedSlice<'a, A>) -> (r: Self)
        ensures
            r.remaining() == slice,
    {
        AlignedBlockIterator { bytes: slice }
    }

    /// Skips `offset` blocks.
    pub fn offset(&mut self, offset: isize)
        requires
            0 <= offset,
            offset * old(self).unit() <= old(self)@.len(),
        ensures
            final(self).remaining().wf(),
            final(self).remaining().alignment() == old(self).remaining().alignment(),
            final(self)@ == old(self)@.skip(offset * old(self).unit()),
            final(self).remaining().address() == old(self).remaining().address() + offset * old(
                self,
            ).unit(),
    {
        self.bytes = self.bytes.offset(offset);
    }

    /// The next block, or `None` once the range is used up.
    pub fn next(&mut self) -> (r: Option<AlignedBlock<'a, A>>)
        ensures
            old(self).remaining().wf(),
            final(self).remaining().wf(),
            final(self).remaining().alignment() == old(self).remaining().alignment(),
            r is None <==> old(self)@.len() == 0,
            r is None ==> *final(self) == *old(self),
            r matches Some(block) ==> {
                &&& block.wf()
                &&& block.alignment() == old(self).remaining().alignment()
                &&& block.address() == old(self).remaining().address()
                &&& block@ == first_block(old(self)@, old(self).unit())
                &&& final(self)@ == old(self)@.skip(block@.len() as int)
                &&& final(self).remaining().address() == if old(self)@.len() < old(self).unit() {
                    old(self).unit() as int
                } else {
                    old(self).remaining().address() + old(self).unit()
                }
            },
            blocks_of(old(self)@, old(self).unit()) == match r {
                Some(block) => seq![block@] + blocks_of(final(self)@, old(self).unit()),
                None => Seq::empty(),
            },
    {
        proof {
            use_type_invariant(&self.bytes);
            self.bytes.alignment().size_is_power_of_two();
            lemma_power_of_two_positive(self.bytes.alignment().spec_size());
        }
        if self.bytes.is_empty() {
            return None;
        }
        let alignment = self.bytes.alignment();
        let unit = alignment.size();
        if self.bytes.len() < unit {
            let block = AlignedBlock::from_slice(self.bytes);
            self.bytes = AlignedSlice::default(alignment);
            assert(final(self)@ =~= old(self)@.skip(block@.len() as int));
            return Some(block);
        }
        let head = slice_subrange(self.bytes.as_bytes(), 0, unit);
        let block = AlignedBlock::from_slice(
            AlignedSlice::from_parts(alignment, self.bytes.as_ptr(), head),
        );
        self.bytes = self.bytes.offset(1);
        Some(block)
    }

    /// The number of blocks that are still to come, as a lower and an upper bound.
    pub fn size_hint(&self) -> (r: (usize, Option<usize>))
        ensures
            r.0 == block_count(self@.len(), self.unit()),
            r.1 == Some(r.0),
    {
        let unit = self.bytes.alignment_size();
        let len = self.bytes.len();
        proof {
            self.bytes.alignment().size_is_power_of_two();
            lemma_power_of_two_positive(self.bytes.alignment().spec_size());
            lemma_block_count(len as nat, unit as nat);
        }
        let count = if len % unit == 0 {
            len / unit
        } else {
            len / unit + 1
        };
        (count, Some(count))
    }
}

/// The number of blocks is the quotient, and one more where a remainder is left.
pub proof fn lemma_block_count(len: nat, unit: nat)
    requires
        unit > 0,
    ensures
        block_count(len, unit) == if len % unit == 0 {
            len / unit
        } else {
            len / unit + 1
        },
        block_count(len, unit) * unit >= len,
        len > 0 ==> (block_count(len, unit) - 1) * unit < len,
{
    let q = len / unit;
    let m = len % unit;
    lemma_fundamental_div_mod(len as int, unit as int);
    if m == 0 {
        lemma_fundamental_div_mod_converse(len + unit - 1, unit as int, q as int, unit - 1);
    } else {
        assert(len + unit - 1 == unit * (q + 1) + (m - 1)) by (nonlinear_arith)
            requires
                len == unit * q + m,
        ;
        lemma_fundamental_div_mod_converse(len + unit - 1, unit as int, (q + 1) as int, m - 1);
    }
    let c = block_count(len, unit);
    assert(c * unit >= len && (len > 0 ==> (c - 1) * unit < len)) by (nonlinear_arith)
        requires
            len == unit * q + m,
            0 <= m < unit,
            c == if m == 0 {
                q
            } else {
                q + 1
            },
    ;
}

/// Where block `index` of a range of `len` bytes ends.
pub open spec fn block_end(len: nat, unit: nat, index: int) -> int {
    if (index + 1) * unit <= len {
        (index + 1) * unit
    } else {
        len as int
    }
}

/// Cutting a range into blocks loses nothing and adds nothing: there are as many blocks as
/// the length holds units, rounded up, and the blocks, put one after the other, are the
/// range.
pub proof fn lemma_blocks_of(bytes: Seq<u8>, unit: nat)
    requires
        unit > 0,
    ensures
        blocks_of(bytes, unit).len() == block_count(bytes.len(), unit),
        blocks_of(bytes, unit).flatten() == bytes,
    decreases bytes.len(),
{
    let len = bytes.len();
    let blocks = blocks_of(bytes, unit);
    lemma_block_count(len, unit);
    if len == 0 {
        vstd::arithmetic::div_mod::lemma_small_mod(0, unit);
        vstd::arithmetic::div_mod::lemma_basic_div(0, unit as int);
        assert(blocks.flatten() =~= bytes);
    } else if len < unit {
        let tail = bytes.skip(len as int);
        assert(blocks_of(tail, unit) =~= Seq::<Seq<u8>>::empty());
        assert(blocks =~= seq![bytes]);
        vstd::arithmetic::div_mod::lemma_small_mod(len, unit);
        vstd::arithmetic::div_mod::lemma_basic_div(len as int, unit as int);
        blocks.lemma_flatten_one_element();
        assert(blocks.first() == bytes);
    } else {
        let head = bytes.take(unit as int);
        let tail = bytes.skip(unit as int);
        let rest = blocks_of(tail, unit);
        assert(blocks == seq![head] + rest);
        lemma_blocks_of(tail, unit);
        lemma_block_count((len - unit) as nat, unit);
        vstd::arithmetic::div_mod::lemma_div_plus_one((len - unit) as int, unit as int);
        vstd::arithmetic::div_mod::lemma_mod_add_multiples_vanish(
            (len - unit) as int,
            unit as int,
        );
        assert(blocks.first() == head);
        assert(blocks.drop_first() =~= rest);
        assert(blocks.flatten() =~= bytes);
    }
}

/// Block `index` of a range is the bytes from `index * unit` up to the next multiple of the
/// unit, or up to the end of the range where that comes first.
pub proof fn lemma_block_at(bytes: Seq<u8>, unit: nat, index: int)
    requires
        unit > 0,
        0 <= index < blocks_of(bytes, unit).len(),
    ensures
        0 <= index * unit <= block_end(bytes.len(), unit, index) <= bytes.len(),
        blocks_of(bytes, unit)[index] == bytes.subrange(
            index * unit,
            block_end(bytes.len(), unit, index),
        ),
    decreases bytes.len(),
{
    let len = bytes.len();
    let blocks = blocks_of(bytes, unit);
    if len < unit {
        let tail = bytes.skip(len as int);
        assert(blocks_of(tail, unit) =~= Seq::<Seq<u8>>::empty());
        assert(blocks =~= seq![bytes]);
        assert((0 + 1) * unit == unit) by (nonlinear_arith);
        assert(0 * unit == 0) by (nonlinear_arith);
        assert(bytes.subrange(0, len as int) =~= bytes);
    } else {
        let head = bytes.take(unit as int);
        let tail = bytes.skip(unit as int);
        let rest = blocks_of(tail, unit);
        assert(blocks == seq![head] + rest);
        if index == 0 {
            assert(0 * unit == 0) by (nonlinear_arith);
            assert((0 + 1) * unit == unit) by (nonlinear_arith);
            assert(blocks[0] == head);
        } else {
            let j = index - 1;
            assert(blocks[index] == rest[j]);
            lemma_block_at(tail, unit, j);
            assert(j * unit + unit == index * unit && (j + 1) * unit + unit == (index + 1) * unit)
                by (nonlinear_arith)
                requires
                    j == index - 1,
            ;
            assert(tail.subrange(j * unit, block_end((len - unit) as nat, unit, j))
                =~= bytes.subrange(index * unit, block_end(len, unit, index)));
        }
    }
}

/// Every block but the last is a whole unit long, and the last holds what is left over:
/// the remainder of the length by the unit, or a whole unit where the remainder is zero.
pub proof fn lemma_block_lengths(bytes: Seq<u8>, unit: nat)
    requires
        unit > 0,
    ensures
        forall|i: int|
            0 <= i < blocks_of(bytes, unit).len() - 1 ==> (#[trigger] blocks_of(
                bytes,
                unit,
            )[i]).len() == unit,
        bytes.len() > 0 ==> blocks_of(bytes, unit).len() > 0 && blocks_of(
            bytes,
            unit,
        ).last().len() == if bytes.len() % unit == 0 {
            unit
        } else {
            bytes.len() % unit
        },
{
    let len = bytes.len();
    let blocks = blocks_of(bytes, unit);
    let count = blocks.len() as int;
    let q = len / unit;
    let m = len % unit;
    lemma_blocks_of(bytes, unit);
    lemma_block_count(len, unit);
    lemma_fundamental_div_mod(len as int, unit as int);
    assert forall|i: int| 0 <= i < count - 1 implies (#[trigger] blocks[i]).len() == unit by {
        lemma_block_at(bytes, unit, i);
        assert((i + 1) * unit <= (count - 1) * unit && (i + 1) * unit == i * unit + unit)
            by (nonlinear_arith)
            requires
                0 <= i < count - 1,
                unit > 0,
        ;
    }
    if len > 0 {
        let i = count - 1;
        assert(count > 0) by (nonlinear_arith)
            requires
                count * unit >= len,
                len > 0,
        ;
        assert(blocks.last() == blocks[i]);
        lemma_block_at(bytes, unit, i);
        if m == 0 {
            assert((i + 1) * unit == len && i * unit == len - unit) by (nonlinear_arith)
                requires
                    i == q - 1,
                    len == unit * q,
            ;
        } else {
            assert((i + 1) * unit > len && i * unit == len - m) by (nonlinear_arith)
                requires
                    i == q,
                    len == unit * q + m,
                    0 < m < unit,
            ;
        }
    }
}

impl<'a, A: Alignment> AlignedBlockIterator<'a, A> {
    /// All the blocks that are still to come, in order.
    pub fn collect(self) -> (r: Vec<AlignedBlock<'a, A>>)
        ensures
            r@.len() == block_count(self@.len(), self.unit()),
            forall|i: int|
                0 <= i < r@.len() ==> {
                    &&& (#[trigger] r@[i]).wf()
                    &&& r@[i].alignment() == self.remaining().alignment()
                    &&& r@[i]@ == blocks_of(self@, self.unit())[i]
                    &&& r@[i].address() == self.remaining().address() + i * self.unit()
                },
    {
        let ghost all = blocks_of(self@, self.unit());
        let ghost unit = self.unit();
        let ghost base = self.remaining().address();
        let mut cursor = self;
        let mut blocks: Vec<AlignedBlock<'a, A>> = Vec::new();
        proof {
            use_type_invariant(&cursor.bytes);
            cursor.bytes.alignment().size_is_power_of_two();
            lemma_power_of_two_positive(unit);
            lemma_blocks_of(self@, unit);
            assert(0 * unit == 0) by (nonlinear_arith);
        }
        loop
            invariant
                unit > 0,
                unit == self.unit(),
                base == self.remaining().address(),
                cursor.unit() == unit,
                cursor.remaining().alignment() == self.remaining().alignment(),
                cursor.remaining().wf(),
                all == blocks_of(self@, self.unit()),
                all.len() == blocks@.len() + blocks_of(cursor@, unit).len(),
                forall|i: int|
                    0 <= i < blocks_of(cursor@, unit).len() ==> all[blocks@.len() + i] == (
                    #[trigger] blocks_of(cursor@, unit)[i]),
                cursor@.len() > 0 ==> cursor.remaining().address() == base + blocks@.len() * unit,
                forall|i: int|
                    0 <= i < blocks@.len() ==> {
                        &&& (#[trigger] blocks@[i]).wf()
                        &&& blocks@[i].alignment() == self.remaining().alignment()
                        &&& blocks@[i]@ == all[i]
                        &&& blocks@[i].address() == base + i * unit
                    },
            decreases cursor@.len(),
        {
            let ghost before = cursor;
            let ghost done = blocks@.len();
            match cursor.next() {
                None => {
                    proof {
                        lemma_blocks_of(self@, unit);
                    }
                    return blocks;
                },
                Some(block) => {
                    proof {
                        let rest = blocks_of(cursor@, unit);
                        assert(blocks_of(before@, unit) == seq![block@] + rest);
                        assert(blocks_of(before@, unit)[0] == block@);
                        assert forall|i: int| 0 <= i < rest.len() implies all[done + 1 + i] == (
                        #[trigger] rest[i]) by {
                            assert(blocks_of(before@, unit)[i + 1] == rest[i]);
                        }
                        assert((done + 1) * unit == done * unit + unit) by (nonlinear_arith);
                    }
                    blocks.push(block);
                },
            }
        }
    }
}

} // verus!
