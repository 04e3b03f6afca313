//! Static partition of a slab's jobs among worker threads.

use vstd::prelude::*;

verus! {

/// First job of thread `tid` when `n_jobs` jobs are shared among `n_threads`
/// threads: the first `n_jobs % n_threads` threads take one job more than the rest.
pub open spec fn spec_job_start(n_jobs: int, n_threads: int, tid: int) -> int {
    let q = n_jobs / n_threads;
    let r = n_jobs % n_threads;
    if tid < r {
        tid * (q + 1)
    } else {
        tid * q + r
    }
}

/// One past the last job of thread `tid`.
pub open spec fn spec_job_end(n_jobs: int, n_threads: int, tid: int) -> int {
    let q = n_jobs / n_threads;
    let r = n_jobs % n_threads;
    if tid < r {
        (tid + 1) * (q + 1)
    } else {
        (tid + 1) * q + r
    }
}

/// Thread `tid` owns job `job`.
pub open spec fn owns(n_jobs: int, n_threads: int, tid: int, job: int) -> bool {
    spec_job_start(n_jobs, n_threads, tid) <= job < spec_job_end(n_jobs, n_threads, tid)
}

/// The ranges of consecutive threads join without gap or overlap, start at
/// zero and end at `n_jobs`; each holds the quotient or one more.
pub proof fn lemma_ranges_adjoin(n_jobs: int, n_threads: int, tid: int)
    requires
        n_jobs >= 0,
        n_threads > 0,
        0 <= tid < n_threads,
    ensures
        spec_job_start(n_jobs, n_threads, 0) == 0,
        spec_job_start(n_jobs, n_threads, n_threads) == n_jobs,
        spec_job_end(n_jobs, n_threads, tid) == spec_job_start(n_jobs, n_threads, tid + 1),
        0 <= spec_job_start(n_jobs, n_threads, tid) <= spec_job_end(n_jobs, n_threads, tid) <= n_jobs,
        spec_job_end(n_jobs, n_threads, tid) - spec_job_start(n_jobs, n_threads, tid) == n_jobs
            / n_threads + if tid < n_jobs % n_threads { 1int } else { 0int },
{
    let q = n_jobs / n_threads;
    let r = n_jobs % n_threads;
    assert(n_jobs == n_threads * q + r && 0 <= r < n_threads && q >= 0) by (nonlinear_arith)
        requires n_jobs >= 0, n_threads > 0, q == n_jobs / n_threads, r == n_jobs % n_threads;
    assert(0 * (q + 1) == 0 && 0 * q == 0);
    assert((tid + 1) * (q + 1) == tid * (q + 1) + q + 1) by (nonlinear_arith);
    assert((tid + 1) * q == tid * q + q) by (nonlinear_arith);
    assert(tid * (q + 1) == tid * q + tid) by (nonlinear_arith);
    assert(r * (q + 1) == r * q + r) by (nonlinear_arith);
    assert(n_threads * q == q * n_threads) by (nonlinear_arith);
    assert(0 <= tid * q <= (n_threads - 1) * q) by (nonlinear_arith)
        requires 0 <= tid <= n_threads - 1, q >= 0;
    assert((n_threads - 1) * q == n_threads * q - q) by (nonlinear_arith);
}

/// A later thread starts no earlier than an earlier one.
pub proof fn lemma_starts_ordered(n_jobs: int, n_threads: int, t1: int, t2: int)
    requires
        n_jobs >= 0,
        n_threads > 0,
        0 <= t1 <= t2 <= n_threads,
    ensures
        spec_job_start(n_jobs, n_threads, t1) <= spec_job_start(n_jobs, n_threads, t2),
    decreases t2 - t1,
{
    if t1 < t2 {
        lemma_ranges_adjoin(n_jobs, n_threads, t2 - 1);
        lemma_starts_ordered(n_jobs, n_threads, t1, t2 - 1);
    }
}

/// No job belongs to two threads.
pub proof fn lemma_owner_unique(n_jobs: int, n_threads: int, job: int, t1: int, t2: int)
    requires
        n_jobs >= 0,
        n_threads > 0,
        0 <= t1 < n_threads,
        0 <= t2 < n_threads,
        owns(n_jobs, n_threads, t1, job),
        owns(n_jobs, n_threads, t2, job),
    ensures
        t1 == t2,
{
    if t1 < t2 {
        lemma_ranges_adjoin(n_jobs, n_threads, t1);
        lemma_starts_ordered(n_jobs, n_threads, t1 + 1, t2);
    } else if t2 < t1 {
        lemma_ranges_adjoin(n_jobs, n_threads, t2);
        lemma_starts_ordered(n_jobs, n_threads, t2 + 1, t1);
    }
}

/// Every job belongs to some thread.
pub proof fn lemma_owner_exists(n_jobs: int, n_threads: int, job: int)
    requires
        n_threads > 0,
        0 <= job < n_jobs,
    ensures
        exists|tid: int| 0 <= tid < n_threads && owns(n_jobs, n_threads, tid, job),
{
    lemma_ranges_adjoin(n_jobs, n_threads, 0);
    let tid = find_owner(n_jobs, n_threads, job, 0);
    assert(0 <= tid < n_threads && owns(n_jobs, n_threads, tid, job));
}

/// Walks the threads from `from` until the one whose range holds `job`.
proof fn find_owner(n_jobs: int, n_threads: int, job: int, from: int) -> (tid: int)
    requires
        n_threads > 0,
        0 <= job < n_jobs,
        0 <= from < n_threads,
        spec_job_start(n_jobs, n_threads, from) <= job,
    ensures
        from <= tid < n_threads,
        owns(n_jobs, n_threads, tid, job),
    decreases n_threads - from,
{
    lemma_ranges_adjoin(n_jobs, n_threads, from);
    if job < spec_job_end(n_jobs, n_threads, from) {
        from
    } else {
        find_owner(n_jobs, n_threads, job, from + 1)
    }
}

/// The half-open range of jobs that thread `tid` of `n_threads` works on.
pub fn job_range(n_jobs: usize, n_threads: usize, tid: usize) -> (range: (usize, usize))
    requires
        n_threads > 0,
        tid < n_threads,
    ensures
        range.0 == spec_job_start(n_jobs as int, n_threads as int, tid as int),
        range.1 == spec_job_end(n_jobs as int, n_threads as int, tid as int),
        range.0 <= range.1 <= n_jobs,
{
    let min_jobs: usize = n_jobs / n_threads;
    let rem: usize = n_jobs % n_threads;
    proof {
        lemma_ranges_adjoin(n_jobs as int, n_threads as int, tid as int);
        let q = min_jobs as int;
        assert((tid + 1) * (q + 1) == tid * (q + 1) + q + 1) by (nonlinear_arith);
        assert((tid + 1) * q == tid * q + q) by (nonlinear_arith);
        assert(0 <= tid * q) by (nonlinear_arith)
            requires tid >= 0, q >= 0;
        assert(0 <= tid * (q + 1)) by (nonlinear_arith)
            requires tid >= 0, q >= 0;
    }
    if tid < rem {
        let start: usize = tid * (min_jobs + 1);
        (start, start + min_jobs + 1)
    } else {
        let start: usize = tid * min_jobs + rem;
        (start, start + min_jobs)
    }
}

} // verus!
