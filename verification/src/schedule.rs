//! Enumeration of the micro-tiles of a slab and of the share of one worker.

use crate::dispatch::{select_kernel, spec_select_kernel, KernelVariant};
use crate::pack::{div_ceil, lemma_div_ceil, panel_start, spec_div_ceil};
use crate::params::{MR, NR};
use crate::partition::{
    lemma_owner_exists, lemma_owner_unique, lemma_ranges_adjoin, owns, spec_job_end,
    spec_job_start,
};
use vstd::arithmetic::div_mod::{lemma_fundamental_div_mod, lemma_fundamental_div_mod_converse};
use vstd::prelude::*;

verus! {

/// Length of the block that starts at `start`: `block`, or what is left of `total`.
pub open spec fn spec_chunk(block: int, total: int, start: int) -> int {
    if block < total - start {
        block
    } else {
        total - start
    }
}

/// Length of the block that starts at `start`: `block`, or what is left of `total`.
pub fn chunk_len(block: usize, total: usize, start: usize) -> (len: usize)
    requires
        start <= total,
    ensures
        len == spec_chunk(block as int, total as int, start as int),
        start + len <= total,
        block > 0 && start < total ==> len > 0,
{
    let left: usize = total - start;
    if block < left {
        block
    } else {
        left
    }
}

/// Number of micro-tiles in a block of `m_chunk` rows and `n_chunk` columns.
pub open spec fn spec_block_jobs(m_chunk: int, n_chunk: int) -> int {
    spec_div_ceil(n_chunk, NR as int) * spec_div_ceil(m_chunk, MR as int)
}

/// Number of micro-tiles in a slab of `m` rows and `n_chunk` columns.
pub fn job_count(m: usize, n_chunk: usize) -> (n_jobs: usize)
    requires
        spec_block_jobs(m as int, n_chunk as int) <= usize::MAX,
    ensures
        n_jobs == spec_block_jobs(m as int, n_chunk as int),
{
    let n_col_mini: usize = div_ceil(n_chunk, NR);
    let n_row_mini: usize = div_ceil(m, MR);
    n_col_mini * n_row_mini
}

/// One micro-tile of a block: where it starts inside the block and its extent.
#[derive(Clone, Copy, Debug, PartialEq, Eq, Structural)]
pub struct MicroTile {
    pub row_inner: usize,
    pub col_inner: usize,
    pub m_chunk_inner: usize,
    pub n_chunk_inner: usize,
}

impl MicroTile {
    /// The tile holds the element at row `r`, column `c` of the block.
    pub open spec fn contains(self, r: int, c: int) -> bool {
        &&& self.row_inner <= r < self.row_inner + self.m_chunk_inner
        &&& self.col_inner <= c < self.col_inner + self.n_chunk_inner
    }
}

/// The micro-tile number `ij` of a block, counted down the rows first.
pub open spec fn spec_micro_tile(m_chunk: int, n_chunk: int, ij: int) -> MicroTile {
    let n_row_mini = spec_div_ceil(m_chunk, MR as int);
    let i = ij % n_row_mini;
    let j = ij / n_row_mini;
    MicroTile {
        row_inner: (MR * i) as usize,
        col_inner: (NR * j) as usize,
        m_chunk_inner: spec_chunk(MR as int, m_chunk, MR * i) as usize,
        n_chunk_inner: spec_chunk(NR as int, n_chunk, NR * j) as usize,
    }
}

/// The number of the micro-tile that holds row `r`, column `c` of a block.
pub open spec fn spec_tile_of(m_chunk: int, r: int, c: int) -> int {
    (c / NR as int) * spec_div_ceil(m_chunk, MR as int) + r / MR as int
}

/// Row and column numbers of micro-tile `ij` lie inside the micro-grid.
proof fn lemma_grid_position(m_chunk: int, n_chunk: int, ij: int)
    requires
        m_chunk >= 0,
        n_chunk >= 0,
        0 <= ij < spec_block_jobs(m_chunk, n_chunk),
    ensures
        spec_div_ceil(m_chunk, MR as int) > 0,
        0 <= ij % spec_div_ceil(m_chunk, MR as int) < spec_div_ceil(m_chunk, MR as int),
        0 <= ij / spec_div_ceil(m_chunk, MR as int) < spec_div_ceil(n_chunk, NR as int),
        ij == spec_div_ceil(m_chunk, MR as int) * (ij / spec_div_ceil(m_chunk, MR as int)) + ij
            % spec_div_ceil(m_chunk, MR as int),
{
    let nrow = spec_div_ceil(m_chunk, MR as int);
    let ncol = spec_div_ceil(n_chunk, NR as int);
    lemma_div_ceil(m_chunk, MR as int);
    lemma_div_ceil(n_chunk, NR as int);
    assert(nrow > 0) by (nonlinear_arith)
        requires nrow >= 0, ncol >= 0, 0 <= ij < ncol * nrow;
    lemma_fundamental_div_mod(ij, nrow);
    let i = ij % nrow;
    let j = ij / nrow;
    assert(0 <= i < nrow);
    assert(0 <= j < ncol) by (nonlinear_arith)
        requires ij == nrow * j + i, 0 <= i < nrow, 0 <= ij < ncol * nrow, nrow > 0;
}

/// The micro-tile number `ij` of a block of `m_chunk` rows and `n_chunk` columns.
pub fn micro_tile(m_chunk: usize, n_chunk: usize, ij: usize) -> (t: MicroTile)
    requires
        ij < spec_block_jobs(m_chunk as int, n_chunk as int),
    ensures
        t == spec_micro_tile(m_chunk as int, n_chunk as int, ij as int),
        1 <= t.m_chunk_inner <= MR,
        1 <= t.n_chunk_inner <= NR,
        t.row_inner + t.m_chunk_inner <= m_chunk,
        t.col_inner + t.n_chunk_inner <= n_chunk,
        t.row_inner % MR == 0,
        t.col_inner % NR == 0,
{
    let n_row_mini: usize = div_ceil(m_chunk, MR);
    proof {
        lemma_grid_position(m_chunk as int, n_chunk as int, ij as int);
        lemma_div_ceil(m_chunk as int, MR as int);
        lemma_div_ceil(n_chunk as int, NR as int);
    }
    let i: usize = ij % n_row_mini;
    let j: usize = ij / n_row_mini;
    let row_inner: usize = MR * i;
    let col_inner: usize = NR * j;
    MicroTile {
        row_inner,
        col_inner,
        m_chunk_inner: chunk_len(MR, m_chunk, row_inner),
        n_chunk_inner: chunk_len(NR, n_chunk, col_inner),
    }
}

/// Every element of a block lies in the micro-tile that `spec_tile_of` names.
pub proof fn lemma_tiles_cover(m_chunk: int, n_chunk: int, r: int, c: int)
    requires
        m_chunk <= usize::MAX,
        n_chunk <= usize::MAX,
        0 <= r < m_chunk,
        0 <= c < n_chunk,
    ensures
        0 <= spec_tile_of(m_chunk, r, c) < spec_block_jobs(m_chunk, n_chunk),
        spec_micro_tile(m_chunk, n_chunk, spec_tile_of(m_chunk, r, c)).contains(r, c),
{
    let nrow = spec_div_ceil(m_chunk, MR as int);
    let ncol = spec_div_ceil(n_chunk, NR as int);
    lemma_div_ceil(m_chunk, MR as int);
    lemma_div_ceil(n_chunk, NR as int);
    let i = r / MR as int;
    let j = c / NR as int;
    let ij = j * nrow + i;
    assert(0 <= i < nrow);
    assert(0 <= j < ncol);
    assert(0 <= ij < ncol * nrow) by (nonlinear_arith)
        requires ij == j * nrow + i, 0 <= i < nrow, 0 <= j < ncol;
    lemma_fundamental_div_mod_converse(ij, nrow, j, i);
}

/// Only the micro-tile that `spec_tile_of` names holds a given element: the
/// tiles of a block do not overlap.
pub proof fn lemma_tile_unique(m_chunk: int, n_chunk: int, ij: int, r: int, c: int)
    requires
        0 <= m_chunk <= usize::MAX,
        0 <= n_chunk <= usize::MAX,
        0 <= ij < spec_block_jobs(m_chunk, n_chunk),
        spec_micro_tile(m_chunk, n_chunk, ij).contains(r, c),
    ensures
        ij == spec_tile_of(m_chunk, r, c),
{
    let nrow = spec_div_ceil(m_chunk, MR as int);
    lemma_grid_position(m_chunk, n_chunk, ij);
    lemma_div_ceil(m_chunk, MR as int);
    lemma_div_ceil(n_chunk, NR as int);
    let i = ij % nrow;
    let j = ij / nrow;
    assert(r / MR as int == i);
    assert(c / NR as int == j);
    assert(nrow * j == j * nrow) by (nonlinear_arith);
}

/// The share of one row block that falls to a worker: the block's first row,
/// its height, and the half-open range `first..last` of its micro-tiles.
#[derive(Clone, Copy, Debug, PartialEq, Eq, Structural)]
pub struct BlockWork {
    pub row_outer: usize,
    pub m_chunk: usize,
    pub first: usize,
    pub last: usize,
}

/// Rows that lie before row block `b`.
pub open spec fn spec_rows_before(m: int, mc: int, b: int) -> int {
    if b * mc < m {
        b * mc
    } else {
        m
    }
}

/// Jobs of a slab that lie before row block `b`.
pub open spec fn spec_jobs_before(m: int, n_chunk: int, mc: int, b: int) -> int {
    spec_block_jobs(spec_rows_before(m, mc, b), n_chunk)
}

/// The jobs of row block `b` and the range `job_start..job_end` have a job in common.
pub open spec fn block_overlaps(
    m: int,
    n_chunk: int,
    mc: int,
    job_start: int,
    job_end: int,
    b: int,
) -> bool {
    let base = spec_jobs_before(m, n_chunk, mc, b);
    let top = spec_jobs_before(m, n_chunk, mc, b + 1);
    base < job_end && job_start < top && job_start < job_end && base < top
}

/// The part of row block `b` that lies in the range `job_start..job_end`.
pub open spec fn spec_block_work(
    m: int,
    n_chunk: int,
    mc: int,
    job_start: int,
    job_end: int,
    b: int,
) -> BlockWork {
    let base = spec_jobs_before(m, n_chunk, mc, b);
    let top = spec_jobs_before(m, n_chunk, mc, b + 1);
    BlockWork {
        row_outer: (b * mc) as usize,
        m_chunk: spec_chunk(mc, m, b * mc) as usize,
        first: (if job_start < base { 0 } else { job_start - base }) as usize,
        last: (if job_end < top { job_end - base } else { top - base }) as usize,
    }
}

/// The shares of the first `nb` row blocks, in order, leaving out the blocks
/// that have no job in the range.
pub open spec fn spec_worker_blocks(
    m: int,
    n_chunk: int,
    mc: int,
    job_start: int,
    job_end: int,
    nb: nat,
) -> Seq<BlockWork>
    decreases nb,
{
    if nb == 0 {
        Seq::empty()
    } else {
        let prev = spec_worker_blocks(m, n_chunk, mc, job_start, job_end, (nb - 1) as nat);
        if block_overlaps(m, n_chunk, mc, job_start, job_end, nb - 1) {
            prev.push(spec_block_work(m, n_chunk, mc, job_start, job_end, nb - 1))
        } else {
            prev
        }
    }
}

/// A slab without rows or without columns gives no worker any work.
pub proof fn lemma_empty_slab_has_no_work(
    m: int,
    n_chunk: int,
    mc: int,
    job_start: int,
    job_end: int,
    nb: nat,
)
    requires
        mc > 0,
        m >= 0,
        n_chunk >= 0,
        m == 0 || n_chunk == 0,
    ensures
        spec_worker_blocks(m, n_chunk, mc, job_start, job_end, nb) == Seq::<BlockWork>::empty(),
        spec_block_jobs(m, n_chunk) == 0,
    decreases nb,
{
    let ncol = spec_div_ceil(n_chunk, NR as int);
    let all = spec_div_ceil(m, MR as int);
    lemma_div_ceil(n_chunk, NR as int);
    lemma_div_ceil(m, MR as int);
    assert(ncol * all == 0) by (nonlinear_arith)
        requires ncol == 0 || all == 0;
    if nb > 0 {
        lemma_empty_slab_has_no_work(m, n_chunk, mc, job_start, job_end, (nb - 1) as nat);
        let b = nb - 1;
        assert(b * mc >= 0 && (b + 1) * mc >= 0) by (nonlinear_arith)
            requires b >= 0, mc > 0;
        let x = spec_div_ceil(spec_rows_before(m, mc, b), MR as int);
        let y = spec_div_ceil(spec_rows_before(m, mc, b + 1), MR as int);
        lemma_div_ceil(spec_rows_before(m, mc, b), MR as int);
        lemma_div_ceil(spec_rows_before(m, mc, b + 1), MR as int);
        assert(ncol * x == 0 && ncol * y == 0) by (nonlinear_arith)
            requires ncol == 0 || (x == 0 && y == 0);
    }
}

/// A job of the range that lies in row block `b` is in the worker's share:
/// the share names that block, and the job's number within the block lies in
/// the range of micro-tiles given for it.
pub proof fn lemma_job_in_share(
    m: int,
    n_chunk: int,
    mc: int,
    job_start: int,
    job_end: int,
    nb: nat,
    b: int,
    job: int,
)
    requires
        0 <= b < nb,
        0 <= job_start <= job < job_end,
        0 <= spec_jobs_before(m, n_chunk, mc, b) <= job < spec_jobs_before(m, n_chunk, mc, b + 1)
            <= usize::MAX,
    ensures
        ({
            let share = spec_worker_blocks(m, n_chunk, mc, job_start, job_end, nb);
            let work = spec_block_work(m, n_chunk, mc, job_start, job_end, b);
            &&& share.contains(work)
            &&& work.first <= job - spec_jobs_before(m, n_chunk, mc, b) < work.last
        }),
    decreases nb,
{
    let share = spec_worker_blocks(m, n_chunk, mc, job_start, job_end, nb);
    let work = spec_block_work(m, n_chunk, mc, job_start, job_end, b);
    let prev = spec_worker_blocks(m, n_chunk, mc, job_start, job_end, (nb - 1) as nat);
    if b == nb - 1 {
        assert(block_overlaps(m, n_chunk, mc, job_start, job_end, b));
        assert(share == prev.push(work));
        assert(share[prev.len() as int] == work);
    } else {
        lemma_job_in_share(m, n_chunk, mc, job_start, job_end, (nb - 1) as nat, b, job);
        let i = choose|i: int| 0 <= i < prev.len() && prev[i] == work;
        if block_overlaps(m, n_chunk, mc, job_start, job_end, nb - 1) {
            assert(share[i] == work);
        }
    }
}

/// Every entry of a worker's share is the part of some row block that has
/// a job in the worker's range.
pub proof fn lemma_share_entries(
    m: int,
    n_chunk: int,
    mc: int,
    job_start: int,
    job_end: int,
    nb: nat,
    i: int,
)
    requires
        0 <= i < spec_worker_blocks(m, n_chunk, mc, job_start, job_end, nb).len(),
    ensures
        exists|b: int|
            0 <= b < nb && block_overlaps(m, n_chunk, mc, job_start, job_end, b)
                && spec_worker_blocks(m, n_chunk, mc, job_start, job_end, nb)[i]
                == #[trigger] spec_block_work(m, n_chunk, mc, job_start, job_end, b),
    decreases nb,
{
    let prev = spec_worker_blocks(m, n_chunk, mc, job_start, job_end, (nb - 1) as nat);
    if nb > 0 {
        if i < prev.len() {
            lemma_share_entries(m, n_chunk, mc, job_start, job_end, (nb - 1) as nat, i);
            let b = choose|b: int|
                0 <= b < nb - 1 && block_overlaps(m, n_chunk, mc, job_start, job_end, b) && prev[i]
                    == #[trigger] spec_block_work(m, n_chunk, mc, job_start, job_end, b);
            assert(0 <= b < nb);
        } else {
            assert(spec_worker_blocks(m, n_chunk, mc, job_start, job_end, nb)[i]
                == spec_block_work(m, n_chunk, mc, job_start, job_end, nb - 1));
        }
    }
}

/// Worker `tid` of `n_threads` computes the element at row `r`, column `c`
/// of a slab: its share names the row block of `r`, and the micro-tile that
/// holds the element lies in the range given for that block.
pub open spec fn worker_computes(
    m: int,
    n_chunk: int,
    mc: int,
    n_threads: int,
    tid: int,
    r: int,
    c: int,
) -> bool {
    let n_jobs = spec_block_jobs(m, n_chunk);
    let job_start = spec_job_start(n_jobs, n_threads, tid);
    let job_end = spec_job_end(n_jobs, n_threads, tid);
    let b = r / mc;
    let work = spec_block_work(m, n_chunk, mc, job_start, job_end, b);
    let ij = spec_tile_of(work.m_chunk as int, r - work.row_outer, c);
    &&& spec_worker_blocks(m, n_chunk, mc, job_start, job_end, spec_div_ceil(m, mc) as nat).contains(
        work,
    )
    &&& work.first <= ij < work.last
    &&& spec_micro_tile(work.m_chunk as int, n_chunk, ij).contains(r - work.row_outer, c)
}

/// The job that computes the element at row `r`, column `c` of a slab.
pub open spec fn spec_job_of(m: int, n_chunk: int, mc: int, r: int, c: int) -> int {
    let b = r / mc;
    spec_jobs_before(m, n_chunk, mc, b) + spec_tile_of(spec_chunk(mc, m, b * mc), r - b * mc, c)
}

/// Facts on the row block that holds row `r`.
proof fn lemma_block_of_row(m: int, n_chunk: int, mc: int, r: int, c: int)
    requires
        mc > 0,
        mc % (MR as int) == 0,
        0 <= r < m <= usize::MAX,
        0 <= c < n_chunk <= usize::MAX,
        spec_block_jobs(m, n_chunk) <= usize::MAX,
    ensures
        ({
            let b = r / mc;
            let chunk = spec_chunk(mc, m, b * mc);
            let job = spec_job_of(m, n_chunk, mc, r, c);
            &&& 0 <= b < spec_div_ceil(m, mc)
            &&& 0 <= b * mc <= r
            &&& 0 <= r - b * mc < chunk <= usize::MAX
            &&& 0 <= spec_jobs_before(m, n_chunk, mc, b) <= job < spec_jobs_before(
                m,
                n_chunk,
                mc,
                b + 1,
            ) <= spec_block_jobs(m, n_chunk)
            &&& job - spec_jobs_before(m, n_chunk, mc, b) == spec_tile_of(chunk, r - b * mc, c)
            &&& spec_micro_tile(chunk, n_chunk, spec_tile_of(chunk, r - b * mc, c)).contains(
                r - b * mc,
                c,
            )
        }),
{
    let b = r / mc;
    lemma_fundamental_div_mod(r, mc);
    assert(mc * b == b * mc) by (nonlinear_arith);
    assert(0 <= b) by (nonlinear_arith)
        requires r >= 0, mc > 0, b == r / mc;
    assert(0 <= b * mc) by (nonlinear_arith)
        requires 0 <= b, mc > 0;
    lemma_block_step(m, n_chunk, mc, b);
    let chunk = spec_chunk(mc, m, b * mc);
    lemma_tiles_cover(chunk, n_chunk, r - b * mc, c);
}

/// A row block whose part is in a worker's share has a job in the worker's range.
proof fn lemma_in_share_overlaps(
    m: int,
    n_chunk: int,
    mc: int,
    job_start: int,
    job_end: int,
    b: int,
)
    requires
        mc > 0,
        0 <= m <= usize::MAX,
        0 <= b < spec_div_ceil(m, mc),
        spec_worker_blocks(m, n_chunk, mc, job_start, job_end, spec_div_ceil(m, mc) as nat).contains(
            spec_block_work(m, n_chunk, mc, job_start, job_end, b),
        ),
    ensures
        block_overlaps(m, n_chunk, mc, job_start, job_end, b),
{
    let nb = spec_div_ceil(m, mc);
    let share = spec_worker_blocks(m, n_chunk, mc, job_start, job_end, nb as nat);
    let work = spec_block_work(m, n_chunk, mc, job_start, job_end, b);
    let i = choose|i: int| 0 <= i < share.len() && share[i] == work;
    lemma_share_entries(m, n_chunk, mc, job_start, job_end, nb as nat, i);
    let b2 = choose|b2: int|
        0 <= b2 < nb && block_overlaps(m, n_chunk, mc, job_start, job_end, b2) && share[i]
            == #[trigger] spec_block_work(m, n_chunk, mc, job_start, job_end, b2);
    lemma_div_ceil(m, mc);
    assert(0 <= b2 * mc <= (nb - 1) * mc) by (nonlinear_arith)
        requires 0 <= b2 <= nb - 1, mc > 0;
    assert(0 <= b * mc <= (nb - 1) * mc) by (nonlinear_arith)
        requires 0 <= b <= nb - 1, mc > 0;
    assert(b2 * mc == b * mc);
    assert(b2 == b) by (nonlinear_arith)
        requires b2 * mc == b * mc, mc > 0;
}

/// Every element of a slab is computed by some worker.
pub proof fn lemma_element_has_worker(
    m: int,
    n_chunk: int,
    mc: int,
    n_threads: int,
    r: int,
    c: int,
)
    requires
        mc > 0,
        mc % (MR as int) == 0,
        n_threads > 0,
        0 <= r < m <= usize::MAX,
        0 <= c < n_chunk <= usize::MAX,
        spec_block_jobs(m, n_chunk) <= usize::MAX,
    ensures
        exists|tid: int|
            0 <= tid < n_threads && #[trigger] worker_computes(m, n_chunk, mc, n_threads, tid, r, c),
{
    let n_jobs = spec_block_jobs(m, n_chunk);
    let b = r / mc;
    let job = spec_job_of(m, n_chunk, mc, r, c);
    lemma_block_of_row(m, n_chunk, mc, r, c);
    lemma_owner_exists(n_jobs, n_threads, job);
    let tid = choose|tid: int| 0 <= tid < n_threads && owns(n_jobs, n_threads, tid, job);
    lemma_ranges_adjoin(n_jobs, n_threads, tid);
    lemma_job_in_share(
        m,
        n_chunk,
        mc,
        spec_job_start(n_jobs, n_threads, tid),
        spec_job_end(n_jobs, n_threads, tid),
        spec_div_ceil(m, mc) as nat,
        b,
        job,
    );
    assert(worker_computes(m, n_chunk, mc, n_threads, tid, r, c));
}

/// No element of a slab is computed by two workers.
pub proof fn lemma_element_has_one_worker(
    m: int,
    n_chunk: int,
    mc: int,
    n_threads: int,
    t1: int,
    t2: int,
    r: int,
    c: int,
)
    requires
        mc > 0,
        mc % (MR as int) == 0,
        n_threads > 0,
        0 <= t1 < n_threads,
        0 <= t2 < n_threads,
        0 <= r < m <= usize::MAX,
        0 <= c < n_chunk <= usize::MAX,
        spec_block_jobs(m, n_chunk) <= usize::MAX,
        worker_computes(m, n_chunk, mc, n_threads, t1, r, c),
        worker_computes(m, n_chunk, mc, n_threads, t2, r, c),
    ensures
        t1 == t2,
{
    let n_jobs = spec_block_jobs(m, n_chunk);
    let job = spec_job_of(m, n_chunk, mc, r, c);
    lemma_block_of_row(m, n_chunk, mc, r, c);
    lemma_ranges_adjoin(n_jobs, n_threads, t1);
    lemma_ranges_adjoin(n_jobs, n_threads, t2);
    let b = r / mc;
    lemma_in_share_overlaps(
        m,
        n_chunk,
        mc,
        spec_job_start(n_jobs, n_threads, t1),
        spec_job_end(n_jobs, n_threads, t1),
        b,
    );
    lemma_in_share_overlaps(
        m,
        n_chunk,
        mc,
        spec_job_start(n_jobs, n_threads, t2),
        spec_job_end(n_jobs, n_threads, t2),
        b,
    );
    assert(owns(n_jobs, n_threads, t1, job));
    assert(owns(n_jobs, n_threads, t2, job));
    lemma_owner_unique(n_jobs, n_threads, job, t1, t2);
}

/// The jobs of a slab are those of its row blocks added up: no job lies
/// before the first block, and all of them before the end of the last.
pub proof fn lemma_jobs_add_up(m: int, n_chunk: int, mc: int)
    requires
        m >= 0,
        n_chunk >= 0,
        mc > 0,
    ensures
        spec_jobs_before(m, n_chunk, mc, 0) == 0,
        spec_jobs_before(m, n_chunk, mc, spec_div_ceil(m, mc)) == spec_block_jobs(m, n_chunk),
{
    lemma_div_ceil(m, mc);
    lemma_div_ceil(n_chunk, NR as int);
    assert(0 * mc == 0);
    assert(spec_div_ceil(n_chunk, NR as int) * 0 == 0);
}

/// One step of the walk over the row blocks: block `b` starts at row
/// `b * mc`, a multiple of the register tile, and adds the jobs of its own
/// rows to those before it.
pub proof fn lemma_block_step(m: int, n_chunk: int, mc: int, b: int)
    requires
        m >= 0,
        n_chunk >= 0,
        mc > 0,
        mc % (MR as int) == 0,
        0 <= b,
        b * mc < m,
    ensures
        b < spec_div_ceil(m, mc),
        (b * mc) % (MR as int) == 0,
        spec_rows_before(m, mc, b) == b * mc,
        spec_rows_before(m, mc, b + 1) == b * mc + spec_chunk(mc, m, b * mc),
        spec_rows_before(m, mc, b + 1) == m ==> b + 1 == spec_div_ceil(m, mc),
        spec_jobs_before(m, n_chunk, mc, b + 1) == spec_jobs_before(m, n_chunk, mc, b)
            + spec_block_jobs(spec_chunk(mc, m, b * mc), n_chunk),
        0 <= spec_jobs_before(m, n_chunk, mc, b) <= spec_jobs_before(m, n_chunk, mc, b + 1)
            <= spec_block_jobs(m, n_chunk),
{
    let nb = spec_div_ceil(m, mc);
    lemma_div_ceil(m, mc);
    assert(b < nb) by (nonlinear_arith)
        requires b * mc < m, m <= nb * mc, mc > 0;
    let k = mc / 24;
    assert(mc == 24 * k);
    assert(b * mc == 24 * (b * k)) by (nonlinear_arith)
        requires mc == 24 * k;
    assert((b + 1) * mc == b * mc + mc) by (nonlinear_arith);
    if b * mc + mc >= m {
        assert(b + 1 == nb) by (nonlinear_arith)
            requires b * mc < m, m <= (b + 1) * mc, (nb - 1) * mc < m, m <= nb * mc, mc > 0;
    }
    let ncol = spec_div_ceil(n_chunk, NR as int);
    let rows0 = b * mc;
    let chunk = spec_chunk(mc, m, b * mc);
    lemma_div_ceil(n_chunk, NR as int);
    let a = spec_div_ceil(rows0, MR as int);
    let c = spec_div_ceil(chunk, MR as int);
    assert(spec_div_ceil(rows0 + chunk, MR as int) == a + c);
    assert(ncol * (a + c) == ncol * a + ncol * c) by (nonlinear_arith);
    let t = spec_div_ceil(m, MR as int);
    assert(a >= 0 && c >= 0 && a + c <= t);
    assert(0 <= ncol * a <= ncol * (a + c) <= ncol * t) by (nonlinear_arith)
        requires ncol >= 0, a >= 0, c >= 0, a + c <= t;
}

/// The row blocks of a slab of `m` rows in which a worker with the jobs
/// `job_start..job_end` has work, in order, each with the worker's range of
/// micro-tiles in it. Row blocks hold `mc` rows, the last one what is left.
pub fn worker_blocks(
    m: usize,
    n_chunk: usize,
    mc: usize,
    job_start: usize,
    job_end: usize,
) -> (blocks: Vec<BlockWork>)
    requires
        mc > 0,
        mc % MR == 0,
        spec_block_jobs(m as int, n_chunk as int) <= usize::MAX,
    ensures
        blocks@ == spec_worker_blocks(
            m as int,
            n_chunk as int,
            mc as int,
            job_start as int,
            job_end as int,
            spec_div_ceil(m as int, mc as int) as nat,
        ),
        forall|i: int|
            0 <= i < blocks@.len() ==> {
                &&& (#[trigger] blocks@[i]).first < blocks@[i].last
                &&& blocks@[i].last <= spec_block_jobs(blocks@[i].m_chunk as int, n_chunk as int)
                &&& blocks@[i].m_chunk > 0
                &&& blocks@[i].row_outer + blocks@[i].m_chunk <= m
            },
{
    let n_col_mini: usize = div_ceil(n_chunk, NR);
    let mut blocks: Vec<BlockWork> = Vec::new();
    let mut row_outer: usize = 0;
    let mut job_id: usize = 0;
    let ghost mut b: int = 0;
    let ghost gm = m as int;
    let ghost gn = n_chunk as int;
    let ghost gmc = mc as int;
    proof {
        lemma_div_ceil(gm, gmc);
        assert(0 * gmc == 0);
        assert(n_col_mini * 0 == 0);
    }
    while row_outer != m
        invariant
            gm == m,
            gn == n_chunk,
            gmc == mc,
            mc > 0,
            mc % MR == 0,
            spec_block_jobs(gm, gn) <= usize::MAX,
            n_col_mini == spec_div_ceil(gn, NR as int),
            0 <= b <= spec_div_ceil(gm, gmc),
            row_outer == spec_rows_before(gm, gmc, b),
            row_outer < m ==> row_outer == b * gmc,
            row_outer == m ==> b == spec_div_ceil(gm, gmc),
            job_id == spec_jobs_before(gm, gn, gmc, b),
            blocks@ == spec_worker_blocks(gm, gn, gmc, job_start as int, job_end as int, b as nat),
            forall|i: int|
                0 <= i < blocks@.len() ==> {
                    &&& (#[trigger] blocks@[i]).first < blocks@[i].last
                    &&& blocks@[i].last <= spec_block_jobs(blocks@[i].m_chunk as int, gn)
                    &&& blocks@[i].m_chunk > 0
                    &&& blocks@[i].row_outer + blocks@[i].m_chunk <= m
                },
        decreases m - row_outer,
    {
        proof {
            lemma_block_step(gm, gn, gmc, b);
        }
        let m_chunk: usize = chunk_len(mc, m, row_outer);
        let n_row_mini: usize = div_ceil(m_chunk, MR);
        let n_mini_jobs: usize = n_col_mini * n_row_mini;
        let top: usize = job_id + n_mini_jobs;
        if job_id < job_end && job_start < top && job_start < job_end && job_id < top {
            let first: usize = if job_start < job_id {
                0
            } else {
                job_start - job_id
            };
            let last: usize = if job_end < top {
                job_end - job_id
            } else {
                n_mini_jobs
            };
            let work = BlockWork { row_outer, m_chunk, first, last };
            proof {
                assert(work == spec_block_work(gm, gn, gmc, job_start as int, job_end as int, b));
            }
            blocks.push(work);
        }
        row_outer += m_chunk;
        job_id = top;
        proof {
            b = b + 1;
        }
    }
    blocks
}

/// One kernel call: the destination element where the tile starts, the
/// tile's extent, where its two packed panels start, and the kernel variant.
#[derive(Clone, Copy, Debug, PartialEq, Eq, Structural)]
pub struct KernelCall {
    pub row: usize,
    pub col: usize,
    pub m_chunk_inner: usize,
    pub n_chunk_inner: usize,
    pub lhs_start: usize,
    pub rhs_start: usize,
    pub variant: KernelVariant,
}

/// The kernel call for micro-tile `ij` of the row block `work`, in a slab
/// that starts at column `col_outer` and whose panels hold `kc` depth steps.
pub open spec fn spec_kernel_call(
    work: BlockWork,
    n_chunk: int,
    col_outer: int,
    kc: int,
    ij: int,
) -> KernelCall {
    let t = spec_micro_tile(work.m_chunk as int, n_chunk, ij);
    KernelCall {
        row: (work.row_outer + t.row_inner) as usize,
        col: (col_outer + t.col_inner) as usize,
        m_chunk_inner: t.m_chunk_inner,
        n_chunk_inner: t.n_chunk_inner,
        lhs_start: (t.row_inner * kc) as usize,
        rhs_start: (t.col_inner * kc) as usize,
        variant: spec_select_kernel(t.m_chunk_inner as int, t.n_chunk_inner as int),
    }
}

/// The kernel calls of a worker in the row block `work`, in the order of
/// its micro-tiles `work.first .. work.last`.
pub fn block_calls(work: BlockWork, n_chunk: usize, col_outer: usize, kc: usize) -> (calls: Vec<
    KernelCall,
>)
    requires
        work.first <= work.last <= spec_block_jobs(work.m_chunk as int, n_chunk as int),
        work.row_outer + work.m_chunk <= usize::MAX,
        col_outer + n_chunk <= usize::MAX,
        work.m_chunk * kc <= usize::MAX,
        n_chunk * kc <= usize::MAX,
    ensures
        calls@.len() == work.last - work.first,
        forall|i: int|
            0 <= i < calls@.len() ==> #[trigger] calls@[i] == spec_kernel_call(
                work,
                n_chunk as int,
                col_outer as int,
                kc as int,
                work.first + i,
            ),
{
    let mut calls: Vec<KernelCall> = Vec::new();
    let mut ij: usize = work.first;
    while ij < work.last
        invariant
            work.first <= ij <= work.last <= spec_block_jobs(work.m_chunk as int, n_chunk as int),
            work.row_outer + work.m_chunk <= usize::MAX,
            col_outer + n_chunk <= usize::MAX,
            work.m_chunk * kc <= usize::MAX,
            n_chunk * kc <= usize::MAX,
            calls@.len() == ij - work.first,
            forall|i: int|
                0 <= i < calls@.len() ==> #[trigger] calls@[i] == spec_kernel_call(
                    work,
                    n_chunk as int,
                    col_outer as int,
                    kc as int,
                    work.first + i,
                ),
        decreases work.last - ij,
    {
        let t = micro_tile(work.m_chunk, n_chunk, ij);
        proof {
            assert(t.row_inner * kc <= work.m_chunk * kc) by (nonlinear_arith)
                requires t.row_inner <= work.m_chunk, kc >= 0;
            assert(t.col_inner * kc <= n_chunk * kc) by (nonlinear_arith)
                requires t.col_inner <= n_chunk, kc >= 0;
        }
        let call = KernelCall {
            row: work.row_outer + t.row_inner,
            col: col_outer + t.col_inner,
            m_chunk_inner: t.m_chunk_inner,
            n_chunk_inner: t.n_chunk_inner,
            lhs_start: panel_start(t.row_inner, MR, kc),
            rhs_start: panel_start(t.col_inner, NR, kc),
            variant: select_kernel(t.m_chunk_inner, t.n_chunk_inner),
        };
        calls.push(call);
        ij += 1;
    }
    calls
}

} // verus!
