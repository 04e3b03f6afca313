//! Packing of strided operand blocks into contiguous, zero-padded panels.

use vstd::prelude::*;

verus! {

/// Number of `unit`-sized pieces needed to cover `len`.
pub open spec fn spec_div_ceil(len: int, unit: int) -> int {
    (len + unit - 1) / unit
}

/// Number of `unit`-sized pieces needed to cover `len`.
pub fn div_ceil(len: usize, unit: usize) -> (q: usize)
    requires
        unit > 0,
    ensures
        q == spec_div_ceil(len as int, unit as int),
        (q - 1) * unit < len <= q * unit,
{
    let whole: usize = len / unit;
    let rest: usize = len % unit;
    proof {
        lemma_div_ceil(len as int, unit as int);
    }
    if rest == 0 {
        whole
    } else {
        whole + 1
    }
}

/// The rounded-up quotient is the quotient, plus one where a remainder is left.
pub proof fn lemma_div_ceil(len: int, unit: int)
    requires
        len >= 0,
        unit > 0,
    ensures
        spec_div_ceil(len, unit) == len / unit + if len % unit == 0 { 0int } else { 1int },
        (spec_div_ceil(len, unit) - 1) * unit < len <= spec_div_ceil(len, unit) * unit,
        spec_div_ceil(len, unit) >= 0,
        spec_div_ceil(len, unit) <= len,
{
    let q = len / unit;
    let r = len % unit;
    assert(len == q * unit + r && 0 <= r < unit && q >= 0) by (nonlinear_arith)
        requires len >= 0, unit > 0, q == len / unit, r == len % unit;
    let t = len + unit - 1;
    assert((q + 1) * unit == q * unit + unit) by (nonlinear_arith);
    if r == 0 {
        assert(t / unit == q) by (nonlinear_arith)
            requires t == q * unit + (unit - 1), unit > 0;
    } else {
        assert(t / unit == q + 1) by (nonlinear_arith)
            requires t == (q + 1) * unit + (r - 1), 0 < r < unit;
    }
    let c = spec_div_ceil(len, unit);
    assert((c - 1) * unit < len <= c * unit && c <= len) by (nonlinear_arith)
        requires
            len == q * unit + r,
            0 <= r < unit,
            q >= 0,
            c == q + if r == 0 { 0int } else { 1int },
    ;
}

/// Position in a buffer of the element at (`row`, `col`) of a strided view
/// that starts at `base`.
pub open spec fn strided_index(base: int, row: int, col: int, rs: int, cs: int) -> int {
    base + row * rs + col * cs
}

/// Every element of a `rows` x `cols` view lies inside a buffer of `len` elements.
pub open spec fn view_in_bounds(len: int, base: int, rows: int, cols: int, rs: int, cs: int) -> bool {
    forall|r: int, c: int|
        0 <= r < rows && 0 <= c < cols ==> 0 <= #[trigger] strided_index(base, r, c, rs, cs) < len
}

/// Position in the packed buffer of lane `lane` at depth `depth` of panel `panel`.
pub open spec fn panel_slot(panel: int, depth: int, lane: int, width: int, panel_stride: int) -> int {
    panel * panel_stride + depth * width + lane
}

/// The packed buffer has room for every panel of a block of `chunk` lanes.
pub open spec fn panels_fit(
    dst_len: int,
    width: int,
    chunk: int,
    k_chunk: int,
    panel_stride: int,
) -> bool {
    &&& width > 0
    &&& k_chunk * width <= panel_stride
    &&& spec_div_ceil(chunk, width) * panel_stride <= dst_len
}

/// First element of the panel that starts at lane `inner` of a block, in a
/// packed buffer whose panels of `width` lanes hold `kc` depth steps each.
pub fn panel_start(inner: usize, width: usize, kc: usize) -> (start: usize)
    requires
        width > 0,
        inner % width == 0,
        inner * kc <= usize::MAX,
    ensures
        start == inner * kc,
        start == panel_slot(inner as int / width as int, 0, 0, width as int, kc * width),
{
    proof {
        let q = inner as int / width as int;
        assert(inner == q * width) by (nonlinear_arith)
            requires width > 0, inner % width == 0, q == inner as int / width as int;
        assert(q * width * kc == q * (kc * width)) by (nonlinear_arith);
        assert(0 * (width as int) == 0);
    }
    inner * kc
}

/// What a packed right-hand buffer holds at (`panel`, `depth`, `lane`): the
/// source element of that row and column, or `zero` past the last column.
pub open spec fn rhs_packed_value<T>(
    src: Seq<T>,
    src_base: int,
    src_cs: int,
    src_rs: int,
    nr: int,
    n_chunk: int,
    zero: T,
    panel: int,
    depth: int,
    lane: int,
) -> T {
    if nr * panel + lane < n_chunk {
        src[strided_index(src_base, depth, nr * panel + lane, src_rs, src_cs)]
    } else {
        zero
    }
}

/// What a packed left-hand buffer holds at (`panel`, `depth`, `lane`): the
/// source element of that row and column, or `zero` past the last row.
pub open spec fn lhs_packed_value<T>(
    src: Seq<T>,
    src_base: int,
    src_cs: int,
    src_rs: int,
    mr: int,
    m_chunk: int,
    zero: T,
    panel: int,
    depth: int,
    lane: int,
) -> T {
    if mr * panel + lane < m_chunk {
        src[strided_index(src_base, mr * panel + lane, depth, src_rs, src_cs)]
    } else {
        zero
    }
}

/// Two operands that hold the same element at every row and column of a
/// block are packed to the same values, whatever their strides and bases.
pub proof fn lemma_packing_ignores_layout<T>(
    src1: Seq<T>,
    base1: int,
    cs1: int,
    rs1: int,
    src2: Seq<T>,
    base2: int,
    cs2: int,
    rs2: int,
    width: int,
    rows: int,
    cols: int,
    zero: T,
    panel: int,
    depth: int,
    lane: int,
)
    requires
        width > 0,
        0 <= panel,
        0 <= lane < width,
        forall|r: int, c: int|
            0 <= r < rows && 0 <= c < cols ==> src1[strided_index(base1, r, c, rs1, cs1)]
                == src2[#[trigger] strided_index(base2, r, c, rs2, cs2)],
    ensures
        0 <= depth < cols ==> lhs_packed_value(src1, base1, cs1, rs1, width, rows, zero, panel, depth, lane)
            == lhs_packed_value(src2, base2, cs2, rs2, width, rows, zero, panel, depth, lane),
        0 <= depth < rows ==> rhs_packed_value(src1, base1, cs1, rs1, width, cols, zero, panel, depth, lane)
            == rhs_packed_value(src2, base2, cs2, rs2, width, cols, zero, panel, depth, lane),
{
    let at = width * panel + lane;
    assert(0 <= width * panel) by (nonlinear_arith)
        requires width > 0, 0 <= panel;
    if 0 <= depth < cols && at < rows {
        assert(src1[strided_index(base1, at, depth, rs1, cs1)] == src2[strided_index(
            base2,
            at,
            depth,
            rs2,
            cs2,
        )]);
    }
    if 0 <= depth < rows && at < cols {
        assert(src1[strided_index(base1, depth, at, rs1, cs1)] == src2[strided_index(
            base2,
            depth,
            at,
            rs2,
            cs2,
        )]);
    }
}

/// Outside the `used` leading elements of each of the first `n_panels`
/// panels, `after` holds what `before` held.
pub open spec fn rest_kept<T>(
    before: Seq<T>,
    after: Seq<T>,
    n_panels: int,
    used: int,
    panel_stride: int,
) -> bool {
    &&& after.len() == before.len()
    &&& forall|i: int| n_panels * panel_stride <= i < before.len() ==> after[i] == before[i]
    &&& forall|p: int, o: int|
        0 <= p < n_panels && used <= o < panel_stride ==> after[#[trigger] (p * panel_stride + o)]
            == before[p * panel_stride + o]
}

/// Slots are laid out in the order of (panel, depth, lane).
proof fn lemma_slot_bounds(panel: int, depth: int, lane: int, width: int, k_chunk: int, ps: int)
    requires
        0 <= panel,
        0 <= depth < k_chunk,
        0 <= lane < width,
        k_chunk * width <= ps,
    ensures
        panel * ps + depth * width <= panel_slot(panel, depth, lane, width, ps),
        panel_slot(panel, depth, lane, width, ps) < panel * ps + (depth + 1) * width,
        panel * ps + (depth + 1) * width <= panel * ps + k_chunk * width,
        panel * ps + k_chunk * width <= (panel + 1) * ps,
        0 <= panel * ps,
        0 <= depth * width,
        (depth + 1) * width == depth * width + width,
        (panel + 1) * ps == panel * ps + ps,
{
    assert((depth + 1) * width == depth * width + width) by (nonlinear_arith);
    assert((depth + 1) * width <= k_chunk * width) by (nonlinear_arith)
        requires depth + 1 <= k_chunk, width > 0;
    assert((panel + 1) * ps == panel * ps + ps) by (nonlinear_arith);
    assert(0 <= panel * ps) by (nonlinear_arith)
        requires 0 <= panel, 0 <= ps;
    assert(0 <= depth * width) by (nonlinear_arith)
        requires 0 <= depth, 0 <= width;
}

proof fn lemma_mul_le(a: int, b: int, c: int)
    requires
        0 <= a <= b,
        0 <= c,
    ensures
        a * c <= b * c,
        0 <= a * c,
{
    assert(a * c <= b * c && 0 <= a * c) by (nonlinear_arith)
        requires 0 <= a <= b, 0 <= c;
}

/// A strided source: the buffer, the position of its first element, and
/// the strides from lane to lane and from one depth step to the next.
pub struct Source<T> {
    pub elements: Seq<T>,
    pub base: int,
    pub lane_stride: int,
    pub depth_stride: int,
}

/// What the packed buffer holds for lane `lane` at depth `depth` of panel
/// `panel`, packing `chunk` lanes of `src` in panels of `width`.
pub open spec fn packed_value<T>(
    src: Source<T>,
    width: int,
    chunk: int,
    zero: T,
    panel: int,
    depth: int,
    lane: int,
) -> T {
    lhs_packed_value(
        src.elements,
        src.base,
        src.depth_stride,
        src.lane_stride,
        width,
        chunk,
        zero,
        panel,
        depth,
        lane,
    )
}

/// The slot of (`panel`, `depth`, `lane`) in `dst` holds its packed value.
pub open spec fn slot_holds<T>(
    dst: Seq<T>,
    src: Source<T>,
    width: int,
    chunk: int,
    panel_stride: int,
    zero: T,
    panel: int,
    depth: int,
    lane: int,
) -> bool {
    dst[panel_slot(panel, depth, lane, width, panel_stride)] == packed_value(
        src,
        width,
        chunk,
        zero,
        panel,
        depth,
        lane,
    )
}

/// Packs a block of `chunk` lanes and `k_chunk` depth steps into panels of
/// `width` lanes. Lane `l` at depth `d` is read at
/// `src_base + l * lane_stride + d * depth_stride`.
fn pack_panels<T: Copy>(
    width: usize,
    chunk: usize,
    k_chunk: usize,
    dst: &mut [T],
    src: &[T],
    src_base: usize,
    lane_stride: isize,
    depth_stride: isize,
    panel_stride: usize,
    zero: T,
)
    requires
        panels_fit(old(dst)@.len() as int, width as int, chunk as int, k_chunk as int, panel_stride as int),
        view_in_bounds(
            src@.len() as int,
            src_base as int,
            chunk as int,
            k_chunk as int,
            lane_stride as int,
            depth_stride as int,
        ),
    ensures
        forall|p: int, d: int, l: int|
            0 <= p < spec_div_ceil(chunk as int, width as int) && 0 <= d < k_chunk && 0 <= l < width
                ==> 0 <= #[trigger] panel_slot(p, d, l, width as int, panel_stride as int)
                < old(dst)@.len() && slot_holds(
                final(dst)@,
                (Source {
                    elements: src@,
                    base: src_base as int,
                    lane_stride: lane_stride as int,
                    depth_stride: depth_stride as int,
                }),
                width as int,
                chunk as int,
                panel_stride as int,
                zero,
                p,
                d,
                l,
            ),
        rest_kept(
            old(dst)@,
            final(dst)@,
            spec_div_ceil(chunk as int, width as int),
            k_chunk * width,
            panel_stride as int,
        ),
{
    let n_panels: usize = div_ceil(chunk, width);
    let dst_len: usize = dst.len();
    let src_len: usize = src.len();
    let ghost w = width as int;
    let ghost ps = panel_stride as int;
    let ghost kc = k_chunk as int;
    let ghost n = chunk as int;
    let ghost before = dst@;
    let ghost from = Source {
        elements: src@,
        base: src_base as int,
        lane_stride: lane_stride as int,
        depth_stride: depth_stride as int,
    };
    let mut p: usize = 0;
    while p < n_panels
        invariant
            0 <= p <= n_panels,
            n_panels == spec_div_ceil(n, w),
            (n_panels - 1) * w < n <= n_panels * w,
            w == width && ps == panel_stride && kc == k_chunk && n == chunk,
            w > 0,
            kc * w <= ps,
            n_panels * ps <= before.len(),
            dst@.len() == before.len() == dst_len,
            src@.len() == src_len,
            from.elements == src@ && from.base == src_base && from.lane_stride == lane_stride
                && from.depth_stride == depth_stride,
            view_in_bounds(src@.len() as int, from.base, n, kc, from.lane_stride, from.depth_stride),
            forall|pp: int, d: int, l: int|
                0 <= pp < p && 0 <= d < kc && 0 <= l < w ==> #[trigger] slot_holds(
                    dst@,
                    from,
                    w,
                    n,
                    ps,
                    zero,
                    pp,
                    d,
                    l,
                ),
            forall|i: int| p * ps <= i < before.len() ==> dst@[i] == before[i],
            forall|pp: int, o: int|
                0 <= pp < p && kc * w <= o < ps ==> dst@[#[trigger] (pp * ps + o)] == before[pp
                    * ps + o],
        decreases n_panels - p,
    {
        proof {
            lemma_mul_le(p as int + 1, n_panels as int, ps);
            assert((p + 1) * ps == p * ps + ps) by (nonlinear_arith);
            lemma_mul_le(p as int, p as int, ps);
            lemma_mul_le(p as int, n_panels as int - 1, w);
            assert((n_panels - 1) * w == n_panels * w - w) by (nonlinear_arith);
            lemma_mul_le(p as int, p as int, w);
        }
        let panel_base: usize = p * panel_stride;
        let lane_base: usize = p * width;
        let mut d: usize = 0;
        while d < k_chunk
            invariant
                0 <= p < n_panels,
                0 <= d <= k_chunk,
                w == width && ps == panel_stride && kc == k_chunk && n == chunk,
                w > 0,
                kc * w <= ps,
                panel_base == p * ps,
                lane_base == p * w,
                lane_base < chunk,
                panel_base + ps <= before.len(),
                dst@.len() == before.len() == dst_len,
                src@.len() == src_len,
                from.elements == src@ && from.base == src_base && from.lane_stride == lane_stride
                    && from.depth_stride == depth_stride,
                view_in_bounds(
                    src@.len() as int,
                    from.base,
                    n,
                    kc,
                    from.lane_stride,
                    from.depth_stride,
                ),
                forall|pp: int, dd: int, l: int|
                    0 <= pp < p && 0 <= dd < kc && 0 <= l < w ==> #[trigger] slot_holds(
                        dst@,
                        from,
                        w,
                        n,
                        ps,
                        zero,
                        pp,
                        dd,
                        l,
                    ),
                forall|dd: int, l: int|
                    0 <= dd < d && 0 <= l < w ==> #[trigger] slot_holds(
                        dst@,
                        from,
                        w,
                        n,
                        ps,
                        zero,
                        p as int,
                        dd,
                        l,
                    ),
                forall|i: int| p * ps + d * w <= i < before.len() ==> dst@[i] == before[i],
                forall|pp: int, o: int|
                    0 <= pp < p && kc * w <= o < ps ==> dst@[#[trigger] (pp * ps + o)]
                        == before[pp * ps + o],
            decreases k_chunk - d,
        {
            proof {
                lemma_slot_bounds(p as int, d as int, 0, w, kc, ps);
            }
            let row_base: usize = panel_base + d * width;
            let mut l: usize = 0;
            while l < width
                invariant
                    0 <= p < n_panels,
                    0 <= d < k_chunk,
                    0 <= l <= width,
                    w == width && ps == panel_stride && kc == k_chunk && n == chunk,
                    w > 0,
                    kc * w <= ps,
                    panel_base == p * ps,
                    lane_base == p * w,
                    lane_base < chunk,
                    row_base == p * ps + d * w,
                    row_base + w <= panel_base + ps,
                    panel_base + ps <= before.len(),
                    dst@.len() == before.len() == dst_len,
                    src@.len() == src_len,
                    from.elements == src@ && from.base == src_base && from.lane_stride
                        == lane_stride && from.depth_stride == depth_stride,
                    view_in_bounds(
                        src@.len() as int,
                        from.base,
                        n,
                        kc,
                        from.lane_stride,
                        from.depth_stride,
                    ),
                    forall|pp: int, dd: int, ll: int|
                        0 <= pp < p && 0 <= dd < kc && 0 <= ll < w ==> #[trigger] slot_holds(
                            dst@,
                            from,
                            w,
                            n,
                            ps,
                            zero,
                            pp,
                            dd,
                            ll,
                        ),
                    forall|dd: int, ll: int|
                        0 <= dd < d && 0 <= ll < w ==> #[trigger] slot_holds(
                            dst@,
                            from,
                            w,
                            n,
                            ps,
                            zero,
                            p as int,
                            dd,
                            ll,
                        ),
                    forall|ll: int|
                        0 <= ll < l ==> #[trigger] slot_holds(
                            dst@,
                            from,
                            w,
                            n,
                            ps,
                            zero,
                            p as int,
                            d as int,
                            ll,
                        ),
                    forall|i: int| row_base + l <= i < before.len() ==> dst@[i] == before[i],
                    forall|pp: int, o: int|
                        0 <= pp < p && kc * w <= o < ps ==> dst@[#[trigger] (pp * ps + o)]
                            == before[pp * ps + o],
                decreases width - l,
            {
                let value: T = if l < chunk - lane_base {
                    let at: usize = source_index(
                        src_base,
                        lane_base + l,
                        d,
                        lane_stride,
                        depth_stride,
                        Ghost(src@.len() as int),
                        Ghost(n),
                        Ghost(kc),
                    );
                    src[at]
                } else {
                    zero
                };
                let ghost prev = dst@;
                let slot: usize = row_base + l;
                dst[slot] = value;
                proof {
                    assert(dst@ == prev.update(slot as int, value));
                    assert forall|pp: int, dd: int, ll: int|
                        0 <= pp < p && 0 <= dd < kc && 0 <= ll < w implies #[trigger] slot_holds(
                        dst@,
                        from,
                        w,
                        n,
                        ps,
                        zero,
                        pp,
                        dd,
                        ll,
                    ) by {
                        lemma_slot_bounds(pp, dd, ll, w, kc, ps);
                        lemma_mul_le(pp + 1, p as int, ps);
                        assert(slot_holds(prev, from, w, n, ps, zero, pp, dd, ll));
                    }
                    assert forall|dd: int, ll: int| 0 <= dd < d && 0 <= ll < w implies #[trigger] slot_holds(
                        dst@,
                        from,
                        w,
                        n,
                        ps,
                        zero,
                        p as int,
                        dd,
                        ll,
                    ) by {
                        lemma_slot_bounds(p as int, dd, ll, w, kc, ps);
                        lemma_mul_le(dd + 1, d as int, w);
                        assert(slot_holds(prev, from, w, n, ps, zero, p as int, dd, ll));
                    }
                    assert forall|ll: int| 0 <= ll < l implies #[trigger] slot_holds(
                        dst@,
                        from,
                        w,
                        n,
                        ps,
                        zero,
                        p as int,
                        d as int,
                        ll,
                    ) by {
                        assert(slot_holds(prev, from, w, n, ps, zero, p as int, d as int, ll));
                    }
                    assert forall|pp: int, o: int| 0 <= pp < p && kc * w <= o < ps implies 0 <= (
                    #[trigger] (pp * ps + o)) < slot by {
                        lemma_mul_le(pp + 1, p as int, ps);
                        assert((pp + 1) * ps == pp * ps + ps) by (nonlinear_arith);
                        lemma_mul_le(pp, pp, ps);
                        lemma_mul_le(0, kc, w);
                    }
                    assert(panel_slot(p as int, d as int, l as int, w, ps) == slot);
                    assert(w * p == p * w) by (nonlinear_arith);
                    assert(slot_holds(dst@, from, w, n, ps, zero, p as int, d as int, l as int));
                }
                l += 1;
            }
            proof {
                assert((d + 1) * w == d * w + w) by (nonlinear_arith);
            }
            d += 1;
        }
        proof {
            assert forall|o: int| kc * w <= o < ps implies dst@[#[trigger] (p * ps + o)]
                == before[p * ps + o] by {}
        }
        p += 1;
    }
    proof {
        assert forall|pp: int, d: int, l: int|
            0 <= pp < n_panels && 0 <= d < kc && 0 <= l < w implies 0 <= #[trigger] panel_slot(
            pp,
            d,
            l,
            w,
            ps,
        ) < before.len() && slot_holds(dst@, from, w, n, ps, zero, pp, d, l) by {
            lemma_slot_bounds(pp, d, l, w, kc, ps);
            lemma_mul_le(pp + 1, n_panels as int, ps);
        }
    }
}

/// Packs the `k_chunk` x `n_chunk` block of `src` that starts at `src_base`
/// into panels of `nr` columns: panel `j` holds at depth `d`, lane `c` the
/// source element of row `d` and column `nr * j + c`, or `zero` where that
/// column lies past the block. Panels start `panel_stride` elements apart.
pub fn pack_rhs<T: Copy>(
    nr: usize,
    n_chunk: usize,
    k_chunk: usize,
    dst: &mut [T],
    src: &[T],
    src_base: usize,
    src_cs: isize,
    src_rs: isize,
    panel_stride: usize,
    zero: T,
)
    requires
        panels_fit(old(dst)@.len() as int, nr as int, n_chunk as int, k_chunk as int, panel_stride as int),
        view_in_bounds(
            src@.len() as int,
            src_base as int,
            k_chunk as int,
            n_chunk as int,
            src_rs as int,
            src_cs as int,
        ),
    ensures
        forall|j: int, d: int, c: int|
            0 <= j < spec_div_ceil(n_chunk as int, nr as int) && 0 <= d < k_chunk && 0 <= c < nr
                ==> 0 <= #[trigger] panel_slot(j, d, c, nr as int, panel_stride as int)
                < old(dst)@.len() && final(dst)@[panel_slot(j, d, c, nr as int, panel_stride as int)]
                == rhs_packed_value(
                src@,
                src_base as int,
                src_cs as int,
                src_rs as int,
                nr as int,
                n_chunk as int,
                zero,
                j,
                d,
                c,
            ),
        rest_kept(
            old(dst)@,
            final(dst)@,
            spec_div_ceil(n_chunk as int, nr as int),
            k_chunk * nr,
            panel_stride as int,
        ),
{
    proof {
        assert forall|l: int, d: int| 0 <= l < n_chunk && 0 <= d < k_chunk implies 0
            <= #[trigger] strided_index(src_base as int, l, d, src_cs as int, src_rs as int)
            < src@.len() by {
            assert(0 <= strided_index(src_base as int, d, l, src_rs as int, src_cs as int)
                < src@.len());
        }
    }
    pack_panels(nr, n_chunk, k_chunk, dst, src, src_base, src_cs, src_rs, panel_stride, zero);
}

/// Packs the `m_chunk` x `k_chunk` block of `src` that starts at `src_base`
/// into panels of `mr` rows: panel `i` holds at depth `d`, lane `r` the
/// source element of row `mr * i + r` and column `d`, or `zero` where that
/// row lies past the block. Panels start `panel_stride` elements apart.
pub fn pack_lhs<T: Copy>(
    mr: usize,
    m_chunk: usize,
    k_chunk: usize,
    dst: &mut [T],
    src: &[T],
    src_base: usize,
    src_cs: isize,
    src_rs: isize,
    panel_stride: usize,
    zero: T,
)
    requires
        panels_fit(old(dst)@.len() as int, mr as int, m_chunk as int, k_chunk as int, panel_stride as int),
        view_in_bounds(
            src@.len() as int,
            src_base as int,
            m_chunk as int,
            k_chunk as int,
            src_rs as int,
            src_cs as int,
        ),
    ensures
        forall|i: int, d: int, r: int|
            0 <= i < spec_div_ceil(m_chunk as int, mr as int) && 0 <= d < k_chunk && 0 <= r < mr
                ==> 0 <= #[trigger] panel_slot(i, d, r, mr as int, panel_stride as int)
                < old(dst)@.len() && final(dst)@[panel_slot(i, d, r, mr as int, panel_stride as int)]
                == lhs_packed_value(
                src@,
                src_base as int,
                src_cs as int,
                src_rs as int,
                mr as int,
                m_chunk as int,
                zero,
                i,
                d,
                r,
            ),
        rest_kept(
            old(dst)@,
            final(dst)@,
            spec_div_ceil(m_chunk as int, mr as int),
            k_chunk * mr,
            panel_stride as int,
        ),
{
    pack_panels(mr, m_chunk, k_chunk, dst, src, src_base, src_rs, src_cs, panel_stride, zero);
}

/// Position in the source buffer of lane `lane` at depth `depth`.
fn source_index(
    src_base: usize,
    lane: usize,
    depth: usize,
    lane_stride: isize,
    depth_stride: isize,
    Ghost(len): Ghost<int>,
    Ghost(lanes): Ghost<int>,
    Ghost(depths): Ghost<int>,
) -> (at: usize)
    requires
        lane < lanes,
        depth < depths,
        len <= usize::MAX,
        view_in_bounds(len, src_base as int, lanes, depths, lane_stride as int, depth_stride as int),
    ensures
        at == strided_index(
            src_base as int,
            lane as int,
            depth as int,
            lane_stride as int,
            depth_stride as int,
        ),
        at < len,
{
    proof {
        let b = src_base as int;
        let ls = lane_stride as int;
        let ds = depth_stride as int;
        assert(0 <= strided_index(b, lane as int, depth as int, ls, ds) < len);
        assert(0 <= strided_index(b, lane as int, 0, ls, ds) < len);
        assert(0 <= strided_index(b, 0, depth as int, ls, ds) < len);
        assert(0 <= strided_index(b, 0, 0, ls, ds) < len);
        assert(0 * ls == 0 && 0 * ds == 0);
    }
    let along: i128 = (lane as i128) * (lane_stride as i128);
    let down: i128 = (depth as i128) * (depth_stride as i128);
    let at: i128 = src_base as i128 + along + down;
    at as usize
}

} // verus!
