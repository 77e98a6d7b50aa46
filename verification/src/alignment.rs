//! Alignment descriptors: values that denote a power-of-two boundary.

use vstd::arithmetic::div_mod::lemma_mod_multiples_basic;
use vstd::arithmetic::power2::{
    lemma_pow2_adds, lemma_pow2_pos, lemma_pow2_strictly_increases, lemma_pow2_unfold, pow2,
};
use vstd::prelude::*;

pub mod multiple;
pub mod page;
pub mod simd;

pub use multiple::Twice;
pub use page::Page;
pub use simd::{simd_width, SimdBlock, TwoSimdBlocks};

verus! {

/// Whether `n` is a power of two.
pub open spec fn is_power_of_two(n: nat) -> bool {
    exists|e: nat| n == pow2(e)
}

/// Powers of two grow with their exponent.
pub proof fn lemma_pow2_monotonic(e1: nat, e2: nat)
    requires
        e1 <= e2,
    ensures
        pow2(e1) <= pow2(e2),
{
    if e1 < e2 {
        lemma_pow2_strictly_increases(e1, e2);
    }
}

/// A power of two is positive.
pub proof fn lemma_power_of_two_positive(n: nat)
    requires
        is_power_of_two(n),
    ensures
        n > 0,
{
    let e = choose|e: nat| n == pow2(e);
    lemma_pow2_pos(e);
}

/// Twice a power of two is a power of two.
pub proof fn lemma_power_of_two_doubles(n: nat)
    requires
        is_power_of_two(n),
    ensures
        is_power_of_two(2 * n),
{
    let e = choose|e: nat| n == pow2(e);
    lemma_pow2_unfold(e + 1);
    assert(2 * n == pow2(e + 1));
}

/// Of two powers of two the smaller divides the larger.
pub proof fn lemma_power_of_two_divides(small: nat, large: nat)
    requires
        is_power_of_two(small),
        is_power_of_two(large),
        small <= large,
    ensures
        large % small == 0,
{
    let e1 = choose|e: nat| small == pow2(e);
    let e2 = choose|e: nat| large == pow2(e);
    if e2 < e1 {
        lemma_pow2_strictly_increases(e2, e1);
    }
    let d = (e2 - e1) as nat;
    lemma_pow2_adds(d, e1);
    lemma_pow2_pos(e1);
    assert(large == pow2(d) * small);
    lemma_mod_multiples_basic(pow2(d) as int, small as int);
}

/// An address that is a multiple of `large` is a multiple of every smaller power of two.
pub proof fn lemma_aligned_to_smaller(address: nat, small: nat, large: nat)
    requires
        is_power_of_two(small),
        is_power_of_two(large),
        small <= large,
        address % large == 0,
    ensures
        address % small == 0,
{
    lemma_power_of_two_positive(small);
    lemma_power_of_two_divides(small, large);
    let q = address / large;
    let k = large / small;
    assert(address == large * q) by {
        vstd::arithmetic::div_mod::lemma_fundamental_div_mod(address as int, large as int);
    }
    assert(large == small * k) by {
        vstd::arithmetic::div_mod::lemma_fundamental_div_mod(large as int, small as int);
    }
    assert(address == (k * q) * small) by (nonlinear_arith)
        requires
            address == large * q,
            large == small * k,
    ;
    lemma_mod_multiples_basic((k * q) as int, small as int);
}

/// Decides whether `n` is a power of two.
pub fn check_power_of_two(n: usize) -> (r: bool)
    ensures
        r == is_power_of_two(n as nat),
{
    if n == 0 {
        proof {
            if is_power_of_two(0) {
                lemma_power_of_two_positive(0);
            }
        }
        return false;
    }
    let mut p: usize = 1;
    let ghost mut e: nat = 0;
    proof {
        vstd::arithmetic::power2::lemma2_to64();
    }
    while p < n && p <= usize::MAX / 2
        invariant
            n > 0,
            p > 0,
            p == pow2(e),
            e > 0 ==> pow2((e - 1) as nat) < n,
        decreases usize::MAX - p,
    {
        proof {
            lemma_pow2_unfold(e + 1);
            e = e + 1;
        }
        p = p * 2;
    }
    proof {
        if p != n {
            assert forall|k: nat| n != pow2(k) by {
                if k < e {
                    lemma_pow2_monotonic(k, (e - 1) as nat);
                } else if p > n {
                    lemma_pow2_monotonic(e, k);
                } else {
                    if k == e {
                    } else {
                        lemma_pow2_unfold(e + 1);
                        lemma_pow2_monotonic(e + 1, k);
                    }
                }
            }
        }
    }
    p == n
}

/// A boundary that addresses can be aligned to.
///
/// A descriptor is a value: whoever holds one can ask for its size, and a valid one always
/// answers with the same power of two.
pub trait Alignment: Copy {
    /// Whether the descriptor denotes a power of two that fits a `usize`.
    spec fn valid(&self) -> bool;

    /// The boundary in bytes.
    spec fn spec_size(&self) -> nat;

    /// A valid descriptor denotes a power of two that fits a `usize`.
    proof fn size_is_power_of_two(&self)
        requires
            self.valid(),
        ensures
            is_power_of_two(self.spec_size()),
            self.spec_size() <= usize::MAX,
    ;

    /// Decides whether the descriptor is valid.
    fn is_valid(&self) -> (r: bool)
        ensures
            r == self.valid(),
    ;

    /// The boundary in bytes.
    fn size(&self) -> (r: usize)
        requires
            self.valid(),
        ensures
            r == self.spec_size(),
    ;
}

/// Alignment to `2^N` bytes.
#[derive(Clone, Copy, Debug)]
pub struct TwoTo<const N: u32> {
    unit: (),
}

/// Alignment to 1 byte: no alignment at all.
pub type One = TwoTo<0>;

/// Alignment to 2 bytes.
pub type Two = TwoTo<1>;

/// Alignment to 4 bytes.
pub type Four = TwoTo<2>;

/// Alignment to 8 bytes.
pub type Eight = TwoTo<3>;

impl<const N: u32> TwoTo<N> {
    /// The descriptor of the `2^N` boundary.
    pub fn new() -> (r: Self)
        ensures
            r.spec_size() == pow2(N as nat),
    {
        TwoTo { unit: () }
    }
}

impl<const N: u32> Alignment for TwoTo<N> {
    open spec fn valid(&self) -> bool {
        pow2(N as nat) <= usize::MAX
    }

    open spec fn spec_size(&self) -> nat {
        pow2(N as nat)
    }

    proof fn size_is_power_of_two(&self) {
    }

    fn is_valid(&self) -> (r: bool) {
        let mut p: usize = 1;
        let mut i: u32 = 0;
        proof {
            vstd::arithmetic::power2::lemma2_to64();
        }
        while i < N
            invariant
                i <= N,
                p == pow2(i as nat),
            decreases N - i,
        {
            proof {
                lemma_pow2_unfold((i + 1) as nat);
                lemma_pow2_monotonic((i + 1) as nat, N as nat);
            }
            if p > usize::MAX / 2 {
                return false;
            }
            p = p * 2;
            i = i + 1;
        }
        true
    }

    fn size(&self) -> (r: usize) {
        let mut r: usize = 1;
        let mut i: u32 = 0;
        proof {
            vstd::arithmetic::power2::lemma2_to64();
        }
        while i < N
            invariant
                i <= N,
                r == pow2(i as nat),
                pow2(N as nat) <= usize::MAX,
            decreases N - i,
        {
            proof {
                lemma_pow2_unfold((i + 1) as nat);
                lemma_pow2_monotonic((i + 1) as nat, N as nat);
            }
            r = r * 2;
            i = i + 1;
        }
        r
    }
}

} // verus!
