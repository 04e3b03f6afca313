use blocked_gemm::dispatch::{select_kernel, KernelVariant};
use blocked_gemm::driver::{
    first_slab, gemm_mode, next_slab, slab_alpha, slab_reads_dst, Mode, Slab,
};
use blocked_gemm::pack::{div_ceil, pack_lhs, pack_rhs, panel_start};
use blocked_gemm::params::{blocking, kernel_params, KernelParams, ELEM_BYTES, MR, N, NR};
use blocked_gemm::partition::job_range;
use blocked_gemm::schedule::{
    block_calls, chunk_len, job_count, micro_tile, worker_blocks, BlockWork, KernelCall, MicroTile,
};
use blocked_gemm::scratch::{
    gemm_req, lhs_slot_start, packed_lhs_slot_elems, packed_rhs_elems, scratch_bytes,
};
use blocked_gemm::view::{element_offset, Ptr};

#[test]
fn register_tile_constants() {
    assert_eq!(N, 8);
    assert_eq!(MR, 3 * N);
    assert_eq!(NR, 4);
    assert_eq!(ELEM_BYTES, 8);
}

#[test]
fn blocking_sizes_for_the_fixed_tile() {
    let p = blocking();
    assert_eq!(p, KernelParams { kc: 85, mc: 768, nc: 12336 });
    assert_eq!(p, kernel_params(MR, NR, ELEM_BYTES));
    assert_eq!(p.mc % MR, 0);
    assert_eq!(p.nc % NR, 0);
}

#[test]
fn blocking_sizes_for_other_tiles() {
    assert_eq!(kernel_params(8, 4, 4), KernelParams { kc: 512, mc: 32 * 8, nc: 1024 * 4 });
    // A tile too large for any budget still gets one step and one tile.
    let p = kernel_params(usize::MAX, usize::MAX, usize::MAX);
    assert_eq!(p, KernelParams { kc: 1, mc: usize::MAX, nc: usize::MAX });
    let q = kernel_params(1, 1, 1);
    assert_eq!(q, KernelParams { kc: 16384, mc: 32, nc: 512 });
}

#[test]
fn rounded_up_quotients() {
    assert_eq!(div_ceil(0, 4), 0);
    assert_eq!(div_ceil(1, 4), 1);
    assert_eq!(div_ceil(4, 4), 1);
    assert_eq!(div_ceil(5, 4), 2);
    assert_eq!(div_ceil(usize::MAX, 1), usize::MAX);
    assert_eq!(div_ceil(usize::MAX, usize::MAX), 1);
}

#[test]
fn pack_rhs_lays_rows_of_each_panel_side_by_side() {
    // A 2 x 5 block (k_chunk = 2, n_chunk = 5) stored row-major.
    let src: Vec<f64> = (0..10).map(|x| x as f64 + 1.0).collect();
    let panel_stride = 3 * 4;
    let mut dst = vec![-1.0; 2 * panel_stride + 2];
    pack_rhs(4, 5, 2, &mut dst, &src, 0, 1, 5, panel_stride, 0.0);
    let mut want = vec![-1.0; 2 * panel_stride + 2];
    want[0..8].copy_from_slice(&[1.0, 2.0, 3.0, 4.0, 6.0, 7.0, 8.0, 9.0]);
    want[12..20].copy_from_slice(&[5.0, 0.0, 0.0, 0.0, 10.0, 0.0, 0.0, 0.0]);
    assert_eq!(dst, want);
}

#[test]
fn pack_lhs_lays_columns_of_each_panel_side_by_side() {
    // A 5 x 2 block (m_chunk = 5, k_chunk = 2) stored column-major, panels of 3 rows.
    let src: Vec<u32> = (1..=10).collect();
    let panel_stride = 6;
    let mut dst = vec![77u32; 12];
    pack_lhs(3, 5, 2, &mut dst, &src, 0, 5, 1, panel_stride, 0);
    assert_eq!(dst, vec![1, 2, 3, 6, 7, 8, 4, 5, 0, 9, 10, 0]);
}

#[test]
fn packers_follow_negative_and_wide_strides() {
    // 3 rows x 2 columns read backwards from the end of a buffer, rows 4 apart.
    let src: Vec<i64> = (0..12).collect();
    let mut dst = vec![-5i64; 8];
    // element (r, c) sits at 11 - 4 * r - 2 * c
    pack_lhs(4, 3, 2, &mut dst, &src, 11, -2, -4, 8, 0);
    assert_eq!(dst, vec![11, 7, 3, 0, 9, 5, 1, 0]);
    let mut dst = vec![-5i64; 12];
    // the same view as a right-hand block: 3 depth steps, 2 columns, panels of 2
    pack_rhs(2, 2, 3, &mut dst, &src, 11, -2, -4, 12, 0);
    assert_eq!(dst, vec![11, 9, 7, 5, 3, 1, -5, -5, -5, -5, -5, -5]);
}

#[test]
fn packing_an_empty_block_writes_nothing() {
    let src: Vec<u8> = vec![];
    let mut dst = vec![9u8; 4];
    pack_rhs(4, 0, 3, &mut dst, &src, 0, 1, 1, 12, 0);
    assert_eq!(dst, vec![9u8; 4]);
    let mut dst = vec![9u8; 8];
    pack_lhs(4, 3, 0, &mut dst, &src, 0, 1, 1, 0, 0);
    assert_eq!(dst, vec![9u8; 8]);
}

#[test]
fn packed_panel_read_back_gives_the_source() {
    let (m_chunk, k_chunk) = (50usize, 7usize);
    let rs = 9isize;
    let cs = 500isize;
    let src: Vec<u64> = (0..4000).map(|x| x * 3 + 1).collect();
    let panel_stride = 10 * MR;
    let mut dst = vec![u64::MAX; 3 * panel_stride];
    pack_lhs(MR, m_chunk, k_chunk, &mut dst, &src, 2, cs, rs, panel_stride, 0);
    for i in 0..3 {
        for d in 0..k_chunk {
            for r in 0..MR {
                let got = dst[i * panel_stride + d * MR + r];
                let row = MR * i + r;
                if row < m_chunk {
                    assert_eq!(got, src[2 + row * 9 + d * 500]);
                } else {
                    assert_eq!(got, 0);
                }
            }
        }
        for o in (k_chunk * MR)..panel_stride {
            assert_eq!(dst[i * panel_stride + o], u64::MAX);
        }
    }
}

#[test]
fn panels_start_a_whole_slot_apart() {
    assert_eq!(panel_start(0, 24, 85), 0);
    assert_eq!(panel_start(24, 24, 85), 85 * 24);
    assert_eq!(panel_start(48, 24, 85), 2 * 85 * 24);
    assert_eq!(panel_start(8, 4, 85), 2 * 85 * 4);
    assert_eq!(panel_start(8, 4, 0), 0);
}

#[test]
fn kernel_table() {
    let table = [
        (1, 1, 4),
        (1, 2, 4),
        (1, 3, 4),
        (1, 4, 2),
        (2, 1, 4),
        (2, 2, 2),
        (2, 3, 2),
        (2, 4, 2),
        (3, 1, 4),
        (3, 2, 2),
        (3, 3, 2),
        (3, 4, 1),
    ];
    for (mr, nr, mul) in table {
        let want = KernelVariant { mr, nr, mul, k_unroll: 4 };
        assert_eq!(select_kernel(mr * N, nr), want);
        assert_eq!(select_kernel((mr - 1) * N + 1, nr), want);
    }
    assert_eq!(select_kernel(9, 3), KernelVariant { mr: 2, nr: 3, mul: 2, k_unroll: 4 });
}

#[test]
fn jobs_are_shared_by_the_remainder_rule() {
    assert_eq!(job_range(10, 4, 0), (0, 3));
    assert_eq!(job_range(10, 4, 1), (3, 6));
    assert_eq!(job_range(10, 4, 2), (6, 8));
    assert_eq!(job_range(10, 4, 3), (8, 10));
    assert_eq!(job_range(2, 4, 1), (1, 2));
    assert_eq!(job_range(2, 4, 2), (2, 2));
    assert_eq!(job_range(0, 3, 2), (0, 0));
    assert_eq!(job_range(7, 1, 0), (0, 7));
    assert_eq!(job_range(usize::MAX, 2, 1), (usize::MAX / 2 + 1, usize::MAX));
}

#[test]
fn job_ranges_cover_every_job_once() {
    for n_jobs in [0usize, 1, 5, 64, 97] {
        for n_threads in [1usize, 2, 3, 8, 100] {
            let mut next = 0;
            for tid in 0..n_threads {
                let (start, end) = job_range(n_jobs, n_threads, tid);
                assert_eq!(start, next);
                assert!(end >= start);
                next = end;
            }
            assert_eq!(next, n_jobs);
        }
    }
}

#[test]
fn chunks_are_clamped_to_what_is_left() {
    assert_eq!(chunk_len(768, 1000, 0), 768);
    assert_eq!(chunk_len(768, 1000, 768), 232);
    assert_eq!(chunk_len(768, 768, 0), 768);
    assert_eq!(chunk_len(4, 4, 4), 0);
}

#[test]
fn job_counts() {
    assert_eq!(job_count(1, 1), 1);
    assert_eq!(job_count(24, 4), 1);
    assert_eq!(job_count(25, 5), 4);
    assert_eq!(job_count(4096, 4096), 171 * 1024);
    assert_eq!(job_count(0, 7), 0);
}

#[test]
fn micro_tiles_run_down_the_rows_first() {
    // 50 rows, 6 columns: a 3 x 2 grid of micro-tiles.
    assert_eq!(
        micro_tile(50, 6, 0),
        MicroTile { row_inner: 0, col_inner: 0, m_chunk_inner: 24, n_chunk_inner: 4 }
    );
    assert_eq!(
        micro_tile(50, 6, 2),
        MicroTile { row_inner: 48, col_inner: 0, m_chunk_inner: 2, n_chunk_inner: 4 }
    );
    assert_eq!(
        micro_tile(50, 6, 3),
        MicroTile { row_inner: 0, col_inner: 4, m_chunk_inner: 24, n_chunk_inner: 2 }
    );
    assert_eq!(
        micro_tile(50, 6, 5),
        MicroTile { row_inner: 48, col_inner: 4, m_chunk_inner: 2, n_chunk_inner: 2 }
    );
}

#[test]
fn micro_tiles_cover_a_block_once() {
    let (m_chunk, n_chunk) = (53usize, 11usize);
    let mut seen = vec![0u8; m_chunk * n_chunk];
    for ij in 0..job_count(m_chunk, n_chunk) {
        let t = micro_tile(m_chunk, n_chunk, ij);
        for r in t.row_inner..t.row_inner + t.m_chunk_inner {
            for c in t.col_inner..t.col_inner + t.n_chunk_inner {
                seen[r * n_chunk + c] += 1;
            }
        }
    }
    assert!(seen.iter().all(|&x| x == 1));
}

#[test]
fn worker_blocks_name_the_blocks_that_hold_its_jobs() {
    // 1000 rows in blocks of 768: 32 and 10 row tiles; 6 columns: 2 column tiles.
    // Jobs 0..64 lie in the first block, 64..84 in the second.
    assert_eq!(
        worker_blocks(1000, 6, 768, 0, 84),
        vec![
            BlockWork { row_outer: 0, m_chunk: 768, first: 0, last: 64 },
            BlockWork { row_outer: 768, m_chunk: 232, first: 0, last: 20 },
        ]
    );
    assert_eq!(
        worker_blocks(1000, 6, 768, 60, 70),
        vec![
            BlockWork { row_outer: 0, m_chunk: 768, first: 60, last: 64 },
            BlockWork { row_outer: 768, m_chunk: 232, first: 0, last: 6 },
        ]
    );
    // A range that ends where the second block starts has no work in it.
    assert_eq!(
        worker_blocks(1000, 6, 768, 10, 64),
        vec![BlockWork { row_outer: 0, m_chunk: 768, first: 10, last: 64 }]
    );
    // A range that starts where the first block ends has no work in the first.
    assert_eq!(
        worker_blocks(1000, 6, 768, 64, 65),
        vec![BlockWork { row_outer: 768, m_chunk: 232, first: 0, last: 1 }]
    );
    assert_eq!(worker_blocks(1000, 6, 768, 64, 64), vec![]);
    assert_eq!(worker_blocks(1000, 6, 768, 70, 60), vec![]);
    assert_eq!(worker_blocks(0, 6, 768, 0, 0), vec![]);
    assert_eq!(worker_blocks(1000, 0, 768, 0, 0), vec![]);
}

#[test]
fn workers_together_do_every_job_once() {
    let (m, n_chunk, mc) = (2000usize, 10usize, 768usize);
    let n_jobs = job_count(m, n_chunk);
    for n_threads in [1usize, 3, 7, 64] {
        let mut seen = vec![0u8; m * n_chunk];
        for tid in 0..n_threads {
            let (start, end) = job_range(n_jobs, n_threads, tid);
            for w in worker_blocks(m, n_chunk, mc, start, end) {
                for ij in w.first..w.last {
                    let t = micro_tile(w.m_chunk, n_chunk, ij);
                    for r in 0..t.m_chunk_inner {
                        for c in 0..t.n_chunk_inner {
                            seen[(w.row_outer + t.row_inner + r) * n_chunk + t.col_inner + c] += 1;
                        }
                    }
                }
            }
        }
        assert!(seen.iter().all(|&x| x == 1));
    }
}

#[test]
fn scratch_request_sizes() {
    assert_eq!(packed_rhs_elems(), 85 * 12336);
    assert_eq!(packed_lhs_slot_elems(), 85 * 24 * 32);
    let req = gemm_req(1);
    assert_eq!(req.align_bytes(), 64);
    assert_eq!(req.size_bytes(), 8 * 85 * 12336 + 8 * 85 * 24 * 32);
    let req = gemm_req(0);
    assert_eq!(req.align_bytes(), 64);
    assert_eq!(req.size_bytes(), 8 * 85 * 12336);
    let req = gemm_req(3);
    assert_eq!(req.size_bytes(), 8388480 + 3 * 522240);
    assert_eq!(scratch_bytes(3), (8388480 + 3 * 522240, 64));
}

#[test]
fn scratch_request_plans_for_at_most_64_workers() {
    let at_cap = gemm_req(64);
    assert_eq!(at_cap.size_bytes(), 8388480 + 64 * 522240);
    assert_eq!(gemm_req(65), at_cap);
    assert_eq!(gemm_req(usize::MAX), at_cap);
    assert_eq!(scratch_bytes(1000), (8388480 + 64 * 522240, 64));
}

#[test]
fn worker_slots_lie_side_by_side() {
    assert_eq!(lhs_slot_start(0), 0);
    assert_eq!(lhs_slot_start(1), 65280);
    assert_eq!(lhs_slot_start(63), 63 * 65280);
}

#[test]
fn positions_wrap_around() {
    let p = Ptr { addr: 10 };
    assert_eq!(p.wrapping_offset(5), Ptr { addr: 15 });
    assert_eq!(p.wrapping_offset(-10), Ptr { addr: 0 });
    assert_eq!(p.wrapping_offset(-11), Ptr { addr: usize::MAX });
    assert_eq!(p.wrapping_add(7), Ptr { addr: 17 });
    assert_eq!(Ptr { addr: usize::MAX }.wrapping_add(2), Ptr { addr: 1 });
    assert_eq!(Ptr { addr: usize::MAX }.wrapping_offset(1), Ptr { addr: 0 });
    assert_eq!(Ptr { addr: 0 }.wrapping_offset(isize::MIN), Ptr { addr: 1usize << (usize::BITS - 1) });
}

#[test]
fn element_offsets() {
    assert_eq!(element_offset(0, 0, 7, -3), Some(0));
    assert_eq!(element_offset(2, 3, 10, 1), Some(23));
    assert_eq!(element_offset(2, 3, -10, -1), Some(-23));
    assert_eq!(element_offset(1, 1, isize::MAX, isize::MIN), Some(-1));
    assert_eq!(element_offset(1, 1, isize::MAX, 1), None);
    assert_eq!(element_offset(2, 0, isize::MIN, 0), None);
    assert_eq!(element_offset(usize::MAX, usize::MAX, isize::MAX, isize::MAX), None);
    assert_eq!(element_offset(usize::MAX, usize::MAX, isize::MIN, isize::MAX), None);
    assert_eq!(element_offset(usize::MAX, usize::MAX, 1, -1), Some(0));
}

#[test]
fn modes() {
    assert_eq!(gemm_mode(0, 5, 5), Mode::Nothing);
    assert_eq!(gemm_mode(5, 0, 0), Mode::Nothing);
    assert_eq!(gemm_mode(0, 0, 0), Mode::Nothing);
    assert_eq!(gemm_mode(5, 5, 0), Mode::ScaleOnly);
    assert_eq!(gemm_mode(1, 1, 1), Mode::Blocked);
}

#[test]
fn later_depth_slabs_accumulate() {
    assert!(!slab_reads_dst(0, false));
    assert!(slab_reads_dst(0, true));
    assert!(slab_reads_dst(85, false));
    assert!(slab_reads_dst(85, true));
    assert_eq!(slab_alpha(0, 2.5, 1.0), 2.5);
    assert_eq!(slab_alpha(85, 2.5, 1.0), 1.0);
}

#[test]
fn slabs_walk_depth_first_then_columns() {
    // 10 columns in blocks of 4, depth 5 in blocks of 3.
    let mut seen = vec![];
    let mut slab = first_slab(10, 5, 4, 3);
    while let Some(s) = slab {
        seen.push(s);
        slab = next_slab(10, 5, 4, 3, s);
    }
    let want: Vec<Slab> = [(0, 4, 0, 3), (0, 4, 3, 2), (4, 4, 0, 3), (4, 4, 3, 2), (8, 2, 0, 3), (8, 2, 3, 2)]
        .iter()
        .map(|&(col_outer, n_chunk, depth_outer, k_chunk)| Slab {
            col_outer,
            n_chunk,
            depth_outer,
            k_chunk,
        })
        .collect();
    assert_eq!(seen, want);
}

#[test]
fn no_slab_without_columns_or_depth() {
    assert_eq!(first_slab(0, 5, 4, 3), None);
    assert_eq!(first_slab(5, 0, 4, 3), None);
    assert_eq!(
        first_slab(1, 1, 4, 3),
        Some(Slab { col_outer: 0, n_chunk: 1, depth_outer: 0, k_chunk: 1 })
    );
    assert_eq!(next_slab(1, 1, 4, 3, first_slab(1, 1, 4, 3).unwrap()), None);
}

#[test]
fn kernel_calls_of_a_block() {
    // Second row block of 1000 rows, 6 columns wide, slab at column 12336.
    let work = BlockWork { row_outer: 768, m_chunk: 232, first: 9, last: 11 };
    let calls = block_calls(work, 6, 12336, 85);
    assert_eq!(
        calls,
        vec![
            KernelCall {
                row: 768 + 9 * 24,
                col: 12336,
                m_chunk_inner: 16,
                n_chunk_inner: 4,
                lhs_start: 9 * 24 * 85,
                rhs_start: 0,
                variant: KernelVariant { mr: 2, nr: 4, mul: 2, k_unroll: 4 },
            },
            KernelCall {
                row: 768,
                col: 12340,
                m_chunk_inner: 24,
                n_chunk_inner: 2,
                lhs_start: 0,
                rhs_start: 4 * 85,
                variant: KernelVariant { mr: 3, nr: 2, mul: 2, k_unroll: 4 },
            },
        ]
    );
    assert_eq!(block_calls(BlockWork { row_outer: 0, m_chunk: 24, first: 1, last: 1 }, 4, 0, 85), vec![]);
}
