//! Decisions of the blocked driver that do not depend on element values.

use crate::schedule::{chunk_len, spec_chunk};
use vstd::prelude::*;

verus! {

/// One step of the two outer loops: the columns `col_outer ..` of width
/// `n_chunk` against the depth steps `depth_outer ..` of length `k_chunk`.
#[derive(Clone, Copy, Debug, PartialEq, Eq, Structural)]
pub struct Slab {
    pub col_outer: usize,
    pub n_chunk: usize,
    pub depth_outer: usize,
    pub k_chunk: usize,
}

/// The slab that starts at column `col` and depth `depth`.
pub open spec fn spec_slab_at(n: int, k: int, nc: int, kc: int, col: int, depth: int) -> Slab {
    Slab {
        col_outer: col as usize,
        n_chunk: spec_chunk(nc, n, col) as usize,
        depth_outer: depth as usize,
        k_chunk: spec_chunk(kc, k, depth) as usize,
    }
}

impl Slab {
    /// The slab starts inside an `n`-column, `k`-deep product and spans one
    /// block of `nc` columns and `kc` depth steps, or what is left of either.
    pub open spec fn wf(self, n: int, k: int, nc: int, kc: int) -> bool {
        &&& self.col_outer < n
        &&& self.depth_outer < k
        &&& self == spec_slab_at(n, k, nc, kc, self.col_outer as int, self.depth_outer as int)
    }

    /// `self` comes before `other` in the order of the loops: columns first,
    /// then depth.
    pub open spec fn before(self, other: Slab) -> bool {
        self.col_outer < other.col_outer || (self.col_outer == other.col_outer && self.depth_outer
            < other.depth_outer)
    }
}

/// The first slab: none where there is no column or no depth.
pub open spec fn spec_first_slab(n: int, k: int, nc: int, kc: int) -> Option<Slab> {
    if n == 0 || k == 0 {
        None
    } else {
        Some(spec_slab_at(n, k, nc, kc, 0, 0))
    }
}

/// The slab after `cur`: the next depth block of the same columns, else the
/// first depth block of the next columns, else none.
pub open spec fn spec_next_slab(n: int, k: int, nc: int, kc: int, cur: Slab) -> Option<Slab> {
    if cur.depth_outer + cur.k_chunk < k {
        Some(spec_slab_at(n, k, nc, kc, cur.col_outer as int, cur.depth_outer + cur.k_chunk))
    } else if cur.col_outer + cur.n_chunk < n {
        Some(spec_slab_at(n, k, nc, kc, cur.col_outer + cur.n_chunk, 0))
    } else {
        None
    }
}

/// The first slab of a product with `n` columns and depth `k`, in blocks of
/// `nc` columns and `kc` depth steps.
pub fn first_slab(n: usize, k: usize, nc: usize, kc: usize) -> (slab: Option<Slab>)
    requires
        nc > 0,
        kc > 0,
    ensures
        slab == spec_first_slab(n as int, k as int, nc as int, kc as int),
        slab.is_some() ==> slab.unwrap().wf(n as int, k as int, nc as int, kc as int),
{
    if n == 0 || k == 0 {
        None
    } else {
        Some(
            Slab {
                col_outer: 0,
                n_chunk: chunk_len(nc, n, 0),
                depth_outer: 0,
                k_chunk: chunk_len(kc, k, 0),
            },
        )
    }
}

/// The slab that follows `cur`, or none after the last one. Each slab comes
/// later in the order of the loops than the one before it.
pub fn next_slab(n: usize, k: usize, nc: usize, kc: usize, cur: Slab) -> (slab: Option<Slab>)
    requires
        nc > 0,
        kc > 0,
        cur.wf(n as int, k as int, nc as int, kc as int),
    ensures
        slab == spec_next_slab(n as int, k as int, nc as int, kc as int, cur),
        slab.is_some() ==> slab.unwrap().wf(n as int, k as int, nc as int, kc as int)
            && cur.before(slab.unwrap()),
{
    let depth: usize = cur.depth_outer + cur.k_chunk;
    if depth < k {
        Some(
            Slab {
                col_outer: cur.col_outer,
                n_chunk: cur.n_chunk,
                depth_outer: depth,
                k_chunk: chunk_len(kc, k, depth),
            },
        )
    } else {
        let col: usize = cur.col_outer + cur.n_chunk;
        if col < n {
            Some(
                Slab {
                    col_outer: col,
                    n_chunk: chunk_len(nc, n, col),
                    depth_outer: 0,
                    k_chunk: chunk_len(kc, k, 0),
                },
            )
        } else {
            None
        }
    }
}

/// What a product of the given extents asks of the driver.
#[derive(Clone, Copy, Debug, PartialEq, Eq, Structural)]
pub enum Mode {
    /// The destination has no element: nothing is touched.
    Nothing,
    /// The depth is zero: the destination is scaled, or cleared where it is
    /// not read.
    ScaleOnly,
    /// The blocked loops run.
    Blocked,
}

/// The mode for a product with an `m` x `n` destination and depth `k`.
pub open spec fn spec_mode(m: int, n: int, k: int) -> Mode {
    if m == 0 || n == 0 {
        Mode::Nothing
    } else if k == 0 {
        Mode::ScaleOnly
    } else {
        Mode::Blocked
    }
}

/// The mode for a product with an `m` x `n` destination and depth `k`.
pub fn gemm_mode(m: usize, n: usize, k: usize) -> (mode: Mode)
    ensures
        mode == spec_mode(m as int, n as int, k as int),
{
    if m == 0 || n == 0 {
        Mode::Nothing
    } else if k == 0 {
        Mode::ScaleOnly
    } else {
        Mode::Blocked
    }
}

/// Whether the kernels of the depth slab that starts at `depth_outer` read
/// the destination: the first slab as the caller asked, later slabs always.
pub fn slab_reads_dst(depth_outer: usize, read_dst: bool) -> (reads: bool)
    ensures
        reads == (depth_outer != 0 || read_dst),
{
    if depth_outer == 0 {
        read_dst
    } else {
        true
    }
}

/// The factor on the destination in the depth slab that starts at
/// `depth_outer`: the caller's `alpha` in the first slab, `one` afterwards.
pub fn slab_alpha<T: Copy>(depth_outer: usize, alpha: T, one: T) -> (factor: T)
    ensures
        factor == if depth_outer == 0 { alpha } else { one },
{
    if depth_outer == 0 {
        alpha
    } else {
        one
    }
}

} // verus!
