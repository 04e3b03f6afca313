//! Selection of the register-blocked kernel variant for a micro-tile.

use crate::pack::{div_ceil, spec_div_ceil};
use crate::params::{MR, N, NR};
use vstd::prelude::*;

verus! {

/// A kernel specialisation: `mr` vector registers of rows, `nr` columns, a
/// multiply-issue hint and the depth unroll factor.
#[derive(Clone, Copy, Debug, PartialEq, Eq, Structural)]
pub struct KernelVariant {
    pub mr: usize,
    pub nr: usize,
    pub mul: usize,
    pub k_unroll: usize,
}

/// The multiply-issue hint of the variant for `mr` row registers and `nr` columns.
pub open spec fn spec_mul(mr: int, nr: int) -> int {
    if nr == 1 {
        4
    } else if mr == 1 && nr <= 3 {
        4
    } else if mr == 3 && nr == 4 {
        1
    } else {
        2
    }
}

/// The variant that serves a micro-tile of `m_inner` rows and `n_inner` columns.
pub open spec fn spec_select_kernel(m_inner: int, n_inner: int) -> KernelVariant {
    let mr = spec_div_ceil(m_inner, N as int);
    KernelVariant { mr: mr as usize, nr: n_inner as usize, mul: spec_mul(mr, n_inner) as usize, k_unroll: 4 }
}

/// Picks the kernel variant for a micro-tile of `m_chunk_inner` rows and
/// `n_chunk_inner` columns. The variant's tile covers the micro-tile.
pub fn select_kernel(m_chunk_inner: usize, n_chunk_inner: usize) -> (v: KernelVariant)
    requires
        1 <= m_chunk_inner <= MR,
        1 <= n_chunk_inner <= NR,
    ensures
        v == spec_select_kernel(m_chunk_inner as int, n_chunk_inner as int),
        1 <= v.mr <= 3,
        v.nr == n_chunk_inner,
        (v.mr - 1) * N < m_chunk_inner <= v.mr * N,
{
    let mr: usize = div_ceil(m_chunk_inner, N);
    let mul: usize = match (mr, n_chunk_inner) {
        (1, 1) => 4,
        (1, 2) => 4,
        (1, 3) => 4,
        (1, 4) => 2,
        (2, 1) => 4,
        (2, 2) => 2,
        (2, 3) => 2,
        (2, 4) => 2,
        (3, 1) => 4,
        (3, 2) => 2,
        (3, 3) => 2,
        _ => 1,
    };
    KernelVariant { mr, nr: n_chunk_inner, mul, k_unroll: 4 }
}

} // verus!
