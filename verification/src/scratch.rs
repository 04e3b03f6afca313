//! Sizing of the scratch memory that holds the packed operands.

use crate::pack::{lemma_div_ceil, panels_fit, spec_div_ceil};
use crate::params::{blocking, spec_blocking, ELEM_BYTES, MR, N, NR};
use dyn_stack::StackReq;
use vstd::prelude::*;

verus! {

/// `dyn_stack::StackReq`: a size and an alignment in bytes, carried as an
/// opaque value and read through `req_size_bytes` and `req_align_bytes`.
#[verifier::external_type_specification]
#[verifier::external_body]
pub struct ExStackReq(StackReq);

/// The number of bytes that a request asks for, as `StackReq::size_bytes` reports it.
pub uninterp spec fn req_size_bytes(req: StackReq) -> nat;

/// The alignment that a request asks for, as `StackReq::align_bytes` reports
/// it: zero for a request that cannot be met.
pub uninterp spec fn req_align_bytes(req: StackReq) -> nat;

/// `a` is a power of two.
pub open spec fn power_of_two(a: nat) -> bool {
    a > 0 && a <= usize::MAX && (a as usize) & ((a - 1) as usize) == 0
}

/// The least multiple of `unit` that is no less than `len`.
pub open spec fn round_up(len: int, unit: int) -> int {
    spec_div_ceil(len, unit) * unit
}

/// Thread counts above this are planned for as this many.
pub const MAX_PLANNED_THREADS: usize = 64;

/// Alignment in bytes of both packed buffers: one vector register.
pub const SIMD_ALIGN: usize = 64;

/// Elements of the packed right-hand buffer.
pub open spec fn spec_rhs_elems() -> int {
    spec_blocking().kc * NR * spec_blocking().nc / (NR as int)
}

/// Elements of the packed left-hand slot of one worker.
pub open spec fn spec_lhs_slot_elems() -> int {
    spec_blocking().kc * MR * (spec_blocking().mc / MR)
}

/// Bytes of scratch memory planned for `n_threads` workers.
pub open spec fn spec_scratch_bytes(n_threads: int) -> int {
    let planned = if n_threads < MAX_PLANNED_THREADS { n_threads } else { MAX_PLANNED_THREADS as int };
    round_up(ELEM_BYTES * spec_rhs_elems(), SIMD_ALIGN as int) + round_up(
        ELEM_BYTES * (planned * spec_lhs_slot_elems()),
        SIMD_ALIGN as int,
    )
}

/// A request that cannot be met: size and alignment are both reported as zero.
pub open spec fn unmet(req: StackReq) -> bool {
    req_size_bytes(req) == 0 && req_align_bytes(req) == 0
}

/// `StackReq::new_aligned` for 8-byte words. For an alignment that is a power
/// of two and at least 8, and a byte count that fits the machine word, the
/// request asks for `8 * n` bytes at that alignment. For an alignment that
/// is no power of two, or a byte count that does not fit, it cannot be met.
#[verifier::external_body]
fn words_req(n: usize, align: usize) -> (req: StackReq)
    ensures
        power_of_two(align as nat) && align >= 8 && 8 * n <= usize::MAX ==> req_size_bytes(req) == 8
            * n && req_align_bytes(req) == align,
        !power_of_two(align as nat) || 8 * n > usize::MAX ==> unmet(req),
{
    StackReq::new_aligned::<u64>(n, align)
}

/// The alignment and the size of room for two requests at once: the larger
/// alignment, and the two sizes added up, each rounded up to it.
pub open spec fn spec_both(first: StackReq, second: StackReq) -> (int, int) {
    let align = if req_align_bytes(first) > req_align_bytes(second) {
        req_align_bytes(first) as int
    } else {
        req_align_bytes(second) as int
    };
    (align, round_up(req_size_bytes(first) as int, align) + round_up(req_size_bytes(second) as int, align))
}

/// `StackReq::and`: room for both requests at once. Where both alignments
/// are powers of two and the sum fits the machine word, the result has the
/// larger alignment and the sum of the two sizes, each rounded up to it.
/// Where the sum does not fit, or either request cannot be met, neither can
/// the result.
#[verifier::external_body]
fn both_req(first: StackReq, second: StackReq) -> (req: StackReq)
    ensures
        power_of_two(req_align_bytes(first)) && power_of_two(req_align_bytes(second)) && spec_both(
            first,
            second,
        ).1 <= usize::MAX ==> req_align_bytes(req) == spec_both(first, second).0 && req_size_bytes(
            req,
        ) == spec_both(first, second).1,
        power_of_two(req_align_bytes(first)) && power_of_two(req_align_bytes(second)) && spec_both(
            first,
            second,
        ).1 > usize::MAX ==> unmet(req),
        req_align_bytes(first) == 0 || req_align_bytes(second) == 0 ==> unmet(req),
{
    first.and(second)
}

/// `StackReq::size_bytes`: the number of bytes that the request asks for.
#[verifier::external_body]
fn size_of_req(req: &StackReq) -> (bytes: usize)
    ensures
        bytes == req_size_bytes(*req),
{
    req.size_bytes()
}

/// `StackReq::align_bytes`: the alignment in bytes that the request asks
/// for, zero where it cannot be met.
#[verifier::external_body]
fn align_of_req(req: &StackReq) -> (bytes: usize)
    ensures
        bytes == req_align_bytes(*req),
{
    req.align_bytes()
}

/// Elements of the packed right-hand buffer.
pub fn packed_rhs_elems() -> (elems: usize)
    ensures
        elems == spec_rhs_elems(),
        elems == 1048560,
{
    let p = blocking();
    let packed_rhs_stride: usize = p.kc * NR;
    packed_rhs_stride * p.nc / NR
}

/// Elements of the packed left-hand slot of one worker.
pub fn packed_lhs_slot_elems() -> (elems: usize)
    ensures
        elems == spec_lhs_slot_elems(),
        elems == 65280,
{
    let p = blocking();
    let packed_lhs_stride: usize = p.kc * MR;
    packed_lhs_stride * (p.mc / MR)
}

/// First element of worker `tid`'s slot in the packed left-hand buffer. The
/// slots of different workers do not overlap, and with `n_threads` workers
/// all of them lie within `n_threads` slots.
pub fn lhs_slot_start(tid: usize) -> (start: usize)
    requires
        tid * spec_lhs_slot_elems() <= usize::MAX,
    ensures
        start == tid * spec_lhs_slot_elems(),
{
    let slot: usize = packed_lhs_slot_elems();
    tid * slot
}

/// The slots of two different workers share no element, and each lies below
/// the end of the last worker's slot.
pub proof fn lemma_slots_apart(t1: int, t2: int, n_threads: int)
    requires
        0 <= t1 < t2 < n_threads,
    ensures
        t1 * spec_lhs_slot_elems() + spec_lhs_slot_elems() <= t2 * spec_lhs_slot_elems(),
        t2 * spec_lhs_slot_elems() + spec_lhs_slot_elems() <= n_threads * spec_lhs_slot_elems(),
{
    let s = spec_lhs_slot_elems();
    assert(t1 * s + s <= t2 * s && t2 * s + s <= n_threads * s) by (nonlinear_arith)
        requires 0 <= t1 < t2 < n_threads, s >= 0;
}

/// The packed buffers hold the panels of every block that the driver packs:
/// up to `nc` columns or `mc` rows, and up to `kc` depth steps.
pub proof fn lemma_scratch_holds_panels(m_chunk: int, n_chunk: int, k_chunk: int)
    requires
        0 <= m_chunk <= spec_blocking().mc,
        0 <= n_chunk <= spec_blocking().nc,
        0 <= k_chunk <= spec_blocking().kc,
    ensures
        panels_fit(spec_rhs_elems(), NR as int, n_chunk, k_chunk, spec_blocking().kc * NR),
        panels_fit(spec_lhs_slot_elems(), MR as int, m_chunk, k_chunk, spec_blocking().kc * MR),
{
    lemma_div_ceil(m_chunk, MR as int);
    lemma_div_ceil(n_chunk, NR as int);
}

/// The scratch memory that a product on `n_threads` workers needs: the packed
/// right-hand buffer, then one packed left-hand slot per worker, each
/// aligned to a vector register. More than 64 workers are planned as 64.
pub fn gemm_req(n_threads: usize) -> (req: StackReq)
    ensures
        req_align_bytes(req) == SIMD_ALIGN,
        req_size_bytes(req) == spec_scratch_bytes(n_threads as int),
        req_size_bytes(req) == 8388480 + 522240 * (if n_threads < 64 { n_threads as int } else { 64 }),
{
    let planned: usize = if n_threads < MAX_PLANNED_THREADS {
        n_threads
    } else {
        MAX_PLANNED_THREADS
    };
    let simd_align: usize = ELEM_BYTES * N;
    let rhs_elems: usize = packed_rhs_elems();
    let lhs_elems: usize = planned * packed_lhs_slot_elems();
    proof {
        assert(64usize & 63usize == 0) by (bit_vector);
        assert(power_of_two(64));
    }
    let rhs = words_req(rhs_elems, simd_align);
    let lhs = words_req(lhs_elems, simd_align);
    both_req(rhs, lhs)
}

/// Size in bytes and alignment of the scratch memory for `n_threads` workers.
pub fn scratch_bytes(n_threads: usize) -> (r: (usize, usize))
    ensures
        r.0 == spec_scratch_bytes(n_threads as int),
        r.1 == SIMD_ALIGN,
{
    let req = gemm_req(n_threads);
    (size_of_req(&req), align_of_req(&req))
}

} // verus!
