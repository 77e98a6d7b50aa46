use crate::alignment::{Alignment, Twice};
use vstd::arithmetic::power2::lemma2_to64;
use vstd::prelude::*;

verus! {

/// Alignment to the width of a SIMD register.
///
/// The width follows from the instruction-set extensions that the build enables: the widest
/// one decides.
///
/// | extension | width in bytes |
/// |:----------|---------------:|
/// | AVX512    | 64             |
/// | AVX       | 32             |
/// | SSE       | 16             |
#[derive(Clone, Copy, Debug)]
pub struct SimdBlock {
    width: usize,
}

/// Alignment to two SIMD registers, one after the other.
pub type TwoSimdBlocks = Twice<SimdBlock>;

/// The register width in bytes for a target, if it has one.
///
/// `x86_family` says whether the target is x86 or x86-64, the other three whether the
/// extension of that name is enabled.
pub open spec fn simd_width(x86_family: bool, avx512f: bool, avx: bool, sse: bool) -> Option<
    nat,
> {
    if !x86_family {
        None
    } else if avx512f {
        Some(64)
    } else if avx {
        Some(32)
    } else if sse {
        Some(16)
    } else {
        None
    }
}

impl SimdBlock {
    /// The descriptor for a target, or `None` where the target has no supported extension.
    pub fn for_target(x86_family: bool, avx512f: bool, avx: bool, sse: bool) -> (r: Option<
        SimdBlock,
    >)
        ensures
            r is Some <==> simd_width(x86_family, avx512f, avx, sse) is Some,
            r matches Some(block) ==> block.valid() && Some(block.spec_size()) == simd_width(
                x86_family,
                avx512f,
                avx,
                sse,
            ),
    {
        proof {
            lemma2_to64();
        }
        if !x86_family {
            None
        } else if avx512f {
            assert(64 == vstd::arithmetic::power2::pow2(6));
            Some(SimdBlock { width: 64 })
        } else if avx {
            assert(32 == vstd::arithmetic::power2::pow2(5));
            Some(SimdBlock { width: 32 })
        } else if sse {
            assert(16 == vstd::arithmetic::power2::pow2(4));
            Some(SimdBlock { width: 16 })
        } else {
            None
        }
    }
}

impl Alignment for SimdBlock {
    closed spec fn valid(&self) -> bool {
        self.width == 16 || self.width == 32 || self.width == 64
    }

    closed spec fn spec_size(&self) -> nat {
        self.width as nat
    }

    proof fn size_is_power_of_two(&self) {
        lemma2_to64();
        if self.width == 16 {
            assert(16 == vstd::arithmetic::power2::pow2(4));
        } else if self.width == 32 {
            assert(32 == vstd::arithmetic::power2::pow2(5));
        } else {
            assert(64 == vstd::arithmetic::power2::pow2(6));
        }
    }

    fn is_valid(&self) -> (r: bool) {
        self.width == 16 || self.width == 32 || self.width == 64
    }

    fn size(&self) -> (r: usize) {
        self.width
    }
}

} // verus!
