use blocked_gemm::driver::{first_slab, gemm_mode, next_slab, slab_alpha, slab_reads_dst, Mode};
use blocked_gemm::pack::{pack_lhs, pack_rhs};
use blocked_gemm::params::{blocking, MR, N, NR};
use blocked_gemm::partition::job_range;
use blocked_gemm::schedule::{block_calls, job_count, worker_blocks};
use blocked_gemm::scratch::{lhs_slot_start, packed_lhs_slot_elems, packed_rhs_elems};
use blocked_gemm::view::{element_offset, Ptr};

struct Lcg(u64);

impl Lcg {
    fn next(&mut self) -> f64 {
        self.0 = self.0.wrapping_mul(6364136223846793005).wrapping_add(1442695040888963407);
        ((self.0 >> 11) as f64) / ((1u64 << 53) as f64)
    }
}

fn at(base: usize, row: usize, col: usize, rs: isize, cs: isize) -> usize {
    Ptr { addr: base }.wrapping_offset(element_offset(row, col, rs, cs).unwrap()).addr
}

#[allow(clippy::too_many_arguments)]
fn product_blocked(
    m: usize,
    n: usize,
    k: usize,
    dst: &mut [f64],
    dst_base: usize,
    dst_cs: isize,
    dst_rs: isize,
    read_dst: bool,
    lhs: &[f64],
    lhs_base: usize,
    lhs_cs: isize,
    lhs_rs: isize,
    rhs: &[f64],
    rhs_base: usize,
    rhs_cs: isize,
    rhs_rs: isize,
    alpha: f64,
    beta: f64,
    n_threads: usize,
) {
    match gemm_mode(m, n, k) {
        Mode::Nothing => return,
        Mode::ScaleOnly => {
            for row in 0..m {
                for col in 0..n {
                    let i = at(dst_base, row, col, dst_rs, dst_cs);
                    dst[i] = if read_dst { alpha * dst[i] } else { 0.0 };
                }
            }
            return;
        }
        Mode::Blocked => {}
    }
    let p = blocking();
    let rhs_stride = p.kc * NR;
    let lhs_stride = p.kc * MR;
    let slot = packed_lhs_slot_elems();
    let mut packed_rhs = vec![0.0f64; packed_rhs_elems()];
    let mut packed_lhs = vec![0.0f64; n_threads * slot];
    let mut slab = first_slab(n, k, p.nc, p.kc);
    while let Some(s) = slab {
        pack_rhs(
            NR,
            s.n_chunk,
            s.k_chunk,
            &mut packed_rhs,
            rhs,
            at(rhs_base, s.depth_outer, s.col_outer, rhs_rs, rhs_cs),
            rhs_cs,
            rhs_rs,
            rhs_stride,
            0.0,
        );
        let n_jobs = job_count(m, s.n_chunk);
        let gamma = slab_alpha(s.depth_outer, alpha, 1.0);
        let reads = slab_reads_dst(s.depth_outer, read_dst);
        for tid in 0..n_threads {
            let (job_start, job_end) = job_range(n_jobs, n_threads, tid);
            let s0 = lhs_slot_start(tid);
            let slot_buf = &mut packed_lhs[s0..s0 + slot];
            for w in worker_blocks(m, s.n_chunk, p.mc, job_start, job_end) {
                pack_lhs(
                    MR,
                    w.m_chunk,
                    s.k_chunk,
                    slot_buf,
                    lhs,
                    at(lhs_base, w.row_outer, s.depth_outer, lhs_rs, lhs_cs),
                    lhs_cs,
                    lhs_rs,
                    lhs_stride,
                    0.0,
                );
                for call in block_calls(w, s.n_chunk, s.col_outer, p.kc) {
                    assert!(call.m_chunk_inner <= call.variant.mr * N);
                    assert_eq!(call.n_chunk_inner, call.variant.nr);
                    for i in 0..call.m_chunk_inner {
                        for j in 0..call.n_chunk_inner {
                            let mut acc = 0.0;
                            for d in 0..s.k_chunk {
                                acc += slot_buf[call.lhs_start + d * MR + i]
                                    * packed_rhs[call.rhs_start + d * NR + j];
                            }
                            let x = at(dst_base, call.row + i, call.col + j, dst_rs, dst_cs);
                            dst[x] = if reads { gamma * dst[x] + beta * acc } else { beta * acc };
                        }
                    }
                }
            }
        }
        slab = next_slab(n, k, p.nc, p.kc, s);
    }
}

#[allow(clippy::too_many_arguments)]
fn product_plain(
    m: usize,
    n: usize,
    k: usize,
    dst: &mut [f64],
    dst_base: usize,
    dst_cs: isize,
    dst_rs: isize,
    read_dst: bool,
    lhs: &[f64],
    lhs_base: usize,
    lhs_cs: isize,
    lhs_rs: isize,
    rhs: &[f64],
    rhs_base: usize,
    rhs_cs: isize,
    rhs_rs: isize,
    alpha: f64,
    beta: f64,
) {
    for row in 0..m {
        for col in 0..n {
            let mut accum = 0.0;
            for depth in 0..k {
                accum += lhs[at(lhs_base, row, depth, lhs_rs, lhs_cs)]
                    * rhs[at(rhs_base, depth, col, rhs_rs, rhs_cs)];
            }
            accum *= beta;
            let i = at(dst_base, row, col, dst_rs, dst_cs);
            if read_dst {
                accum += alpha * dst[i];
            }
            dst[i] = accum;
        }
    }
}

fn close(c: f64, d: f64) -> bool {
    (c - d).abs() <= 1e-10 * d.abs().max(1.0)
}

fn compare_column_major(m: usize, n: usize, k: usize, n_threads: usize, seed: u64) {
    let mut rng = Lcg(seed);
    let a_vec: Vec<f64> = (0..(m * k)).map(|_| rng.next()).collect();
    let b_vec: Vec<f64> = (0..(k * n)).map(|_| rng.next()).collect();
    let mut c_vec = vec![0.0; m * n];
    let mut d_vec = vec![0.0; m * n];
    product_blocked(
        m, n, k, &mut c_vec, 0, m as isize, 1, true, &a_vec, 0, m as isize, 1, &b_vec, 0,
        k as isize, 1, 0.0, 1.0, n_threads,
    );
    product_plain(
        m, n, k, &mut d_vec, 0, m as isize, 1, true, &a_vec, 0, m as isize, 1, &b_vec, 0,
        k as isize, 1, 0.0, 1.0,
    );
    for (c, d) in c_vec.iter().zip(d_vec.iter()) {
        assert!(close(*c, *d));
    }
}

#[test]
fn test_gemm() {
    let mut mnks = vec![];
    mnks.push((1, 1, 2));
    mnks.push((4, 4, 4));
    mnks.push((256, 256, 256));
    mnks.push((1024, 1024, 1));
    mnks.push((4096, 4096, 1));
    for (m, n, k) in mnks {
        compare_column_major(m, n, k, 4, 7);
    }
}

#[test]
fn product_below_one_register_block_on_many_workers() {
    compare_column_major(4, 4, 4, 64, 11);
    compare_column_major(23, 3, 200, 5, 13);
}

#[test]
fn scalar_dot() {
    let a = vec![2.0, 3.0];
    let b = vec![5.0, 7.0];
    let mut c = vec![1.0];
    product_blocked(1, 1, 2, &mut c, 0, 1, 1, true, &a, 0, 1, 1, &b, 0, 1, 1, 10.0, 2.0, 1);
    assert_eq!(c[0], 10.0 + 2.0 * (2.0 * 5.0 + 3.0 * 7.0));
}

#[test]
fn empty_destination_is_left_alone() {
    let a = vec![1.0; 6];
    let b = vec![1.0; 6];
    let mut c = vec![3.5, -0.0, f64::MAX];
    let before: Vec<u64> = c.iter().map(|x| x.to_bits()).collect();
    product_blocked(0, 3, 2, &mut c, 0, 1, 1, false, &a, 0, 1, 1, &b, 0, 1, 1, 2.0, 3.0, 2);
    product_blocked(3, 0, 2, &mut c, 0, 1, 1, true, &a, 0, 1, 1, &b, 0, 1, 1, 2.0, 3.0, 2);
    let after: Vec<u64> = c.iter().map(|x| x.to_bits()).collect();
    assert_eq!(before, after);
}

#[test]
fn zero_depth_scales_or_clears() {
    let a: Vec<f64> = vec![];
    let b: Vec<f64> = vec![];
    let mut c = vec![1.0, 2.0, 3.0, 4.0];
    let mut d = c.clone();
    product_blocked(2, 2, 0, &mut c, 0, 2, 1, true, &a, 0, 1, 1, &b, 0, 1, 1, 3.0, 5.0, 2);
    product_plain(2, 2, 0, &mut d, 0, 2, 1, true, &a, 0, 1, 1, &b, 0, 1, 1, 3.0, 5.0);
    assert_eq!(c, vec![3.0, 6.0, 9.0, 12.0]);
    assert_eq!(c, d);
    product_blocked(2, 2, 0, &mut c, 0, 2, 1, false, &a, 0, 1, 1, &b, 0, 1, 1, 3.0, 5.0, 2);
    product_plain(2, 2, 0, &mut d, 0, 2, 1, false, &a, 0, 1, 1, &b, 0, 1, 1, 3.0, 5.0);
    assert_eq!(c, vec![0.0; 4]);
    assert_eq!(c, d);
}

#[test]
fn result_does_not_depend_on_layout() {
    let (m, n, k) = (37usize, 29usize, 100usize);
    let mut rng = Lcg(3);
    let a_col: Vec<f64> = (0..(m * k)).map(|_| rng.next()).collect();
    let b_col: Vec<f64> = (0..(k * n)).map(|_| rng.next()).collect();
    let mut c_col = vec![0.5; m * n];
    product_blocked(
        m, n, k, &mut c_col, 0, m as isize, 1, true, &a_col, 0, m as isize, 1, &b_col, 0,
        k as isize, 1, 2.0, 3.0, 3,
    );
    // The same operands row-major, the left one stored back to front, inside
    // larger buffers.
    let pad = 5usize;
    let mut a_row = vec![9.0; pad + m * k];
    for r in 0..m {
        for d in 0..k {
            a_row[pad + (m * k - 1) - (r * k + d)] = a_col[d * m + r];
        }
    }
    let mut b_row = vec![9.0; k * (n + pad)];
    for d in 0..k {
        for c in 0..n {
            b_row[d * (n + pad) + c] = b_col[c * k + d];
        }
    }
    let mut c_row = vec![0.5; m * n];
    product_blocked(
        m, n, k, &mut c_row, 0, 1, n as isize, true, &a_row, pad + m * k - 1, -1, -(k as isize),
        &b_row, 0, 1, (n + pad) as isize, 2.0, 3.0, 3,
    );
    for r in 0..m {
        for c in 0..n {
            assert!(close(c_row[r * n + c], c_col[c * m + r]));
        }
    }
}

#[test]
fn result_does_not_depend_on_worker_count() {
    let (m, n, k) = (130usize, 23usize, 90usize);
    let mut rng = Lcg(5);
    let a: Vec<f64> = (0..(m * k)).map(|_| rng.next()).collect();
    let b: Vec<f64> = (0..(k * n)).map(|_| rng.next()).collect();
    let mut base = vec![0.0; m * n];
    product_plain(
        m, n, k, &mut base, 0, m as isize, 1, false, &a, 0, m as isize, 1, &b, 0, k as isize, 1,
        0.0, 1.5,
    );
    for n_threads in [1usize, 2, 4, 8, 16, 200] {
        let mut c = vec![7.0; m * n];
        product_blocked(
            m, n, k, &mut c, 0, m as isize, 1, false, &a, 0, m as isize, 1, &b, 0, k as isize, 1,
            0.0, 1.5, n_threads,
        );
        for (x, y) in c.iter().zip(base.iter()) {
            assert!(close(*x, *y));
        }
    }
}
