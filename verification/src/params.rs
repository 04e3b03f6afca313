//! Register-block constants and the blocking sizes derived from a three-level
//! cache model.

use vstd::prelude::*;

verus! {

/// Elements per vector register.
pub const N: usize = 8;

/// Rows of the register tile.
pub const MR: usize = 24;

/// Columns of the register tile.
pub const NR: usize = 4;

/// Size of one matrix element in bytes.
pub const ELEM_BYTES: usize = 8;

/// Bytes of first-level data cache given to one packed left-hand panel.
pub const L1_BUDGET: usize = 16384;

/// Bytes of second-level cache given to one packed left-hand macro panel.
pub const L2_BUDGET: usize = 524288;

/// Bytes of last-level cache given to one packed right-hand macro panel.
pub const L3_BUDGET: usize = 8388608;

/// Blocking sizes along depth (`kc`), rows (`mc`) and columns (`nc`).
#[derive(Clone, Copy, Debug, PartialEq, Eq, Structural)]
pub struct KernelParams {
    pub kc: usize,
    pub mc: usize,
    pub nc: usize,
}

/// The larger of `x` and one.
pub open spec fn at_least_one(x: int) -> int {
    if x < 1 {
        1
    } else {
        x
    }
}

/// Depth block: as many steps as keep an `mr`-wide panel inside the first-level budget.
pub open spec fn spec_kc(mr: int, elem_bytes: int) -> int {
    at_least_one(L1_BUDGET as int / mr / elem_bytes)
}

/// Row block: whole register tiles that keep the macro panel inside the second-level budget.
pub open spec fn spec_mc(mr: int, elem_bytes: int) -> int {
    at_least_one(L2_BUDGET as int / spec_kc(mr, elem_bytes) / elem_bytes / mr) * mr
}

/// Column block: whole register tiles that keep the macro panel inside the last-level budget.
pub open spec fn spec_nc(mr: int, nr: int, elem_bytes: int) -> int {
    at_least_one(L3_BUDGET as int / spec_kc(mr, elem_bytes) / elem_bytes / nr) * nr
}

impl KernelParams {
    /// All three sizes are positive and the row and column blocks are whole
    /// multiples of the register tile.
    pub open spec fn fits(self, mr: int, nr: int) -> bool {
        &&& self.kc > 0
        &&& self.mc > 0
        &&& self.nc > 0
        &&& mr > 0
        &&& nr > 0
        &&& self.mc as int % mr == 0
        &&& self.nc as int % nr == 0
    }
}

/// A count of tiles no larger than `budget / unit`, raised to at least one,
/// spans no more than the larger of `budget` and one tile.
proof fn lemma_tiles_bounded(q: int, unit: int, budget: int)
    requires
        unit > 0,
        budget >= 0,
        0 <= q <= budget / unit,
    ensures
        at_least_one(q) * unit <= if budget < unit { unit } else { budget },
        at_least_one(q) * unit > 0,
        (at_least_one(q) * unit) % unit == 0,
{
    let a = at_least_one(q);
    assert(a * unit > 0) by (nonlinear_arith)
        requires a >= 1, unit > 0;
    assert((a * unit) % unit == 0) by (nonlinear_arith)
        requires unit > 0;
    if q >= 1 {
        assert(q * unit <= budget) by (nonlinear_arith)
            requires unit > 0, budget >= 0, 0 <= q <= budget / unit;
    }
}

proof fn lemma_div_chain(a: int, b: int, c: int)
    requires
        a >= 0,
        b > 0,
        c > 0,
    ensures
        0 <= a / b / c <= a / c,
        0 <= a / b <= a,
{
    assert(0 <= a / b <= a) by (nonlinear_arith)
        requires a >= 0, b > 0;
    let x = a / b;
    assert(0 <= x / c <= a / c) by (nonlinear_arith)
        requires 0 <= x <= a, c > 0;
}

/// `q` pieces of `unit`, where `q` is at most `budget / unit`, stay within `budget`.
proof fn lemma_pieces_within(budget: int, unit: int, q: int)
    requires
        budget >= 0,
        unit > 0,
        0 <= q <= budget / unit,
    ensures
        0 <= q * unit <= budget,
{
    assert(0 <= q * unit <= budget) by (nonlinear_arith)
        requires budget >= 0, unit > 0, 0 <= q <= budget / unit;
}

/// Unless a block is at its least size (one depth step, one register tile),
/// the panel it stands for lies within its cache budget: `kc` steps of an
/// `mr`-wide panel within the first level, an `mc` x `kc` panel within the
/// second and a `kc` x `nc` panel within the last.
pub proof fn lemma_blocks_within_budgets(mr: int, nr: int, elem_bytes: int)
    requires
        mr > 0,
        nr > 0,
        elem_bytes > 0,
    ensures
        spec_kc(mr, elem_bytes) == 1 || spec_kc(mr, elem_bytes) * mr * elem_bytes <= L1_BUDGET,
        spec_mc(mr, elem_bytes) == mr || spec_mc(mr, elem_bytes) * spec_kc(mr, elem_bytes)
            * elem_bytes <= L2_BUDGET,
        spec_nc(mr, nr, elem_bytes) == nr || spec_nc(mr, nr, elem_bytes) * spec_kc(mr, elem_bytes)
            * elem_bytes <= L3_BUDGET,
{
    let kc = spec_kc(mr, elem_bytes);
    let l1 = L1_BUDGET as int;
    lemma_div_chain(l1, mr, elem_bytes);
    if kc != 1 {
        lemma_pieces_within(l1 / mr, elem_bytes, kc);
        lemma_pieces_within(l1, mr, kc * elem_bytes);
        assert(kc * mr * elem_bytes == kc * elem_bytes * mr) by (nonlinear_arith);
    }
    lemma_tile_rows_within(L2_BUDGET as int, kc, elem_bytes, mr);
    lemma_tile_rows_within(L3_BUDGET as int, kc, elem_bytes, nr);
}

/// Whole tiles of `unit` lanes counted by `budget / kc / elem_bytes / unit`
/// make a panel of `kc` steps that lies within `budget`.
proof fn lemma_tile_rows_within(budget: int, kc: int, elem_bytes: int, unit: int)
    requires
        budget >= 0,
        kc > 0,
        elem_bytes > 0,
        unit > 0,
    ensures
        at_least_one(budget / kc / elem_bytes / unit) * unit == unit || at_least_one(
            budget / kc / elem_bytes / unit,
        ) * unit * kc * elem_bytes <= budget,
{
    let z = budget / kc;
    let y = z / elem_bytes;
    let q = y / unit;
    lemma_div_chain(budget, kc, elem_bytes);
    lemma_div_chain(z, elem_bytes, unit);
    if q >= 1 {
        lemma_pieces_within(y, unit, q);
        lemma_pieces_within(z, elem_bytes, q * unit);
        lemma_pieces_within(budget, kc, q * unit * elem_bytes);
        assert(q * unit * kc * elem_bytes == q * unit * elem_bytes * kc) by (nonlinear_arith);
    } else {
        assert(1 * unit == unit);
    }
}

/// Blocking sizes for a register tile of `mr` rows and `nr` columns holding
/// elements of `elem_bytes` bytes.
pub fn kernel_params(mr: usize, nr: usize, elem_bytes: usize) -> (p: KernelParams)
    requires
        mr > 0,
        nr > 0,
        elem_bytes > 0,
    ensures
        p.kc == spec_kc(mr as int, elem_bytes as int),
        p.mc == spec_mc(mr as int, elem_bytes as int),
        p.nc == spec_nc(mr as int, nr as int, elem_bytes as int),
        p.fits(mr as int, nr as int),
{
    let mut kc: usize = L1_BUDGET / mr / elem_bytes;
    if kc < 1 {
        kc = 1;
    }
    let mut row_tiles: usize = L2_BUDGET / kc / elem_bytes / mr;
    if row_tiles < 1 {
        row_tiles = 1;
    }
    let mut col_tiles: usize = L3_BUDGET / kc / elem_bytes / nr;
    if col_tiles < 1 {
        col_tiles = 1;
    }
    proof {
        lemma_div_chain(L2_BUDGET as int / kc as int, elem_bytes as int, mr as int);
        lemma_div_chain(L2_BUDGET as int, kc as int, mr as int);
        lemma_tiles_bounded(
            L2_BUDGET as int / kc as int / elem_bytes as int / mr as int,
            mr as int,
            L2_BUDGET as int,
        );
        lemma_div_chain(L3_BUDGET as int / kc as int, elem_bytes as int, nr as int);
        lemma_div_chain(L3_BUDGET as int, kc as int, nr as int);
        lemma_tiles_bounded(
            L3_BUDGET as int / kc as int / elem_bytes as int / nr as int,
            nr as int,
            L3_BUDGET as int,
        );
    }
    KernelParams { kc, mc: row_tiles * mr, nc: col_tiles * nr }
}

/// The blocking sizes for the fixed register tile of this crate.
pub open spec fn spec_blocking() -> KernelParams {
    KernelParams { kc: 85, mc: 768, nc: 12336 }
}

/// Blocking sizes for the 24 x 4 register tile of 8-byte elements.
pub fn blocking() -> (p: KernelParams)
    ensures
        p == spec_blocking(),
        p.fits(MR as int, NR as int),
{
    let p = kernel_params(MR, NR, ELEM_BYTES);
    proof {
        assert(16384int / 24 / 8 == 85);
        assert(spec_kc(24, 8) == 85);
        assert(524288int / 85 / 8 / 24 == 32);
        assert(8388608int / 85 / 8 / 4 == 3084);
    }
    p
}

} // verus!
