use vstd::prelude::*;
use vstd::arithmetic::div_mod::lemma_fundamental_div_mod;

use crate::detect::{interior, lemma_cell_in_interior, lemma_cell_position, lemma_pixel_in_frame};
use crate::pixels::Pixels;

verus! {

/// Luma sample of pixel (x, y) in a buffer whose luma samples are `stride`
/// entries apart, with rows of `w` pixels.
pub open spec fn frame_sample(d: Seq<u8>, stride: int, w: int, x: int, y: int) -> int {
    d[stride * (x + y * w)] as int
}

/// Sum of the `n` samples of row `y` from column `x0` on.
pub open spec fn row_sum(d: Seq<u8>, stride: int, w: int, x0: int, y: int, n: nat) -> int
    decreases n,
{
    if n == 0 {
        0
    } else {
        row_sum(d, stride, w, x0, y, (n - 1) as nat) + frame_sample(d, stride, w, x0 + n - 1, y)
    }
}

/// Sum of the samples of the `cols` by `rows` block whose top left pixel is
/// (x0, y0).
pub open spec fn block_sum(
    d: Seq<u8>,
    stride: int,
    w: int,
    x0: int,
    y0: int,
    cols: nat,
    rows: nat,
) -> int
    decreases rows,
{
    if rows == 0 {
        0
    } else {
        block_sum(d, stride, w, x0, y0, cols, (rows - 1) as nat) + row_sum(
            d,
            stride,
            w,
            x0,
            y0 + rows - 1,
            cols,
        )
    }
}

/// Half the side of the averaging window: `max(1, ratio / 2)`.
pub open spec fn half_window(ratio: int) -> int {
    if ratio / 2 > 1 {
        ratio / 2
    } else {
        1
    }
}

/// Truncated mean of the square window of side `2 * half_window(ratio)`
/// centred on pixel (x * ratio, y * ratio).
pub open spec fn window_mean(d: Seq<u8>, stride: int, w: int, ratio: int, x: int, y: int) -> int {
    let half = half_window(ratio);
    let side = 2 * half;
    block_sum(d, stride, w, x * ratio - half, y * ratio - half, side as nat, side as nat) / (side
        * side)
}

/// The downsampled frame: one window mean for each destination cell of
/// `[1, w / ratio - 1) x [1, h / ratio - 1)`, row by row. The first and the
/// last destination row and column are left out on purpose, so the luma
/// frame is `(w / ratio - 2)` by `(h / ratio - 2)`.
pub open spec fn blurred(d: Seq<u8>, stride: int, w: int, h: int, ratio: int) -> Seq<u8> {
    let cw = interior(w / ratio);
    Seq::new(
        (cw * interior(h / ratio)) as nat,
        |i: int| window_mean(d, stride, w, ratio, 1 + i % cw, 1 + i / cw) as u8,
    )
}

/// The window of destination cell `x` lies inside a frame side of `w`
/// pixels.
proof fn lemma_window_in_frame(w: int, ratio: int, x: int)
    requires
        ratio >= 1,
        w >= 0,
        1 <= x < w / ratio - 1,
    ensures
        0 <= x * ratio - half_window(ratio),
        x * ratio + half_window(ratio) <= w,
        2 * half_window(ratio) <= w,
{
    let half = half_window(ratio);
    let q = w / ratio;
    assert(half <= ratio);
    lemma_fundamental_div_mod(w, ratio);
    assert(ratio * q <= w);
    assert(ratio <= x * ratio) by (nonlinear_arith)
        requires
            1 <= x,
            ratio >= 1,
    ;
    assert(x * ratio + ratio <= ratio * q) by (nonlinear_arith)
        requires
            x + 1 < q,
            ratio >= 1,
    ;
}

proof fn lemma_row_sum_bounds(d: Seq<u8>, stride: int, w: int, x0: int, y: int, n: nat)
    ensures
        0 <= row_sum(d, stride, w, x0, y, n) <= 255 * n,
    decreases n,
{
    if n > 0 {
        lemma_row_sum_bounds(d, stride, w, x0, y, (n - 1) as nat);
    }
}

proof fn lemma_block_sum_bounds(
    d: Seq<u8>,
    stride: int,
    w: int,
    x0: int,
    y0: int,
    cols: nat,
    rows: nat,
)
    ensures
        0 <= block_sum(d, stride, w, x0, y0, cols, rows) <= 255 * cols * rows,
    decreases rows,
{
    if rows > 0 {
        lemma_block_sum_bounds(d, stride, w, x0, y0, cols, (rows - 1) as nat);
        lemma_row_sum_bounds(d, stride, w, x0, y0 + rows - 1, cols);
        assert(255 * cols * (rows - 1) + 255 * cols == 255 * cols * rows) by (nonlinear_arith);
    }
}

proof fn lemma_in_frame<T: Copy>(p: &Pixels<T>, x: int, y: int, w: int, h: int)
    requires
        p.wf(),
        p.covers(w, h),
        0 <= x < w,
        0 <= y < h,
    ensures
        p.in_bounds(x, y),
{
    lemma_pixel_in_frame(x, y, w, h);
    assert(p.stride() * (x + y * w) < p.stride() * (w * h)) by (nonlinear_arith)
        requires
            1 <= p.stride(),
            x + y * w < w * h,
    ;
}

/// Sum of the luma samples of the `side` by `side` block whose top left
/// pixel is (x0, y0).
fn window_total(pixels: &Pixels<u8>, width: u32, height: u32, x0: u32, y0: u32, side: u32) -> (total:
    u128)
    requires
        pixels.wf(),
        pixels.covers(width as int, height as int),
        x0 + side <= width,
        y0 + side <= height,
    ensures
        total == block_sum(
            pixels.data(),
            pixels.stride(),
            width as int,
            x0 as int,
            y0 as int,
            side as nat,
            side as nat,
        ),
{
    let ghost d = pixels.data();
    let ghost stride = pixels.stride();
    let mut total: u128 = 0;
    for wy in y0..y0 + side
        invariant
            pixels.wf(),
            pixels.covers(width as int, height as int),
            d == pixels.data(),
            stride == pixels.stride(),
            x0 + side <= width,
            y0 + side <= height,
            total == block_sum(d, stride, width as int, x0 as int, y0 as int, side as nat, (wy - y0) as nat),
    {
        proof {
            lemma_block_sum_bounds(d, stride, width as int, x0 as int, y0 as int, side as nat, (wy - y0) as nat);
            assert(255 * side * (wy - y0) <= 255 * 0x1_0000_0000 * 0x1_0000_0000) by (nonlinear_arith)
                requires
                    0 <= side <= 0x1_0000_0000,
                    0 <= wy - y0 <= 0x1_0000_0000,
            ;
        }
        let ghost before = total;
        for wx in x0..x0 + side
            invariant
                pixels.wf(),
                pixels.covers(width as int, height as int),
                d == pixels.data(),
                stride == pixels.stride(),
                x0 + side <= width,
                y0 <= wy < y0 + side,
                y0 + side <= height,
                before == block_sum(d, stride, width as int, x0 as int, y0 as int, side as nat, (wy - y0) as nat),
                before <= 255 * 0x1_0000_0000 * 0x1_0000_0000,
                total == before + row_sum(d, stride, width as int, x0 as int, wy as int, (wx - x0) as nat),
        {
            proof {
                lemma_in_frame(pixels, wx as int, wy as int, width as int, height as int);
                lemma_row_sum_bounds(d, stride, width as int, x0 as int, wy as int, (wx - x0) as nat);
            }
            total += pixels.get(wx as usize, wy as usize) as u128;
        }
    }
    total
}

/// Reduces a frame of `width` by `height` pixels by averaging the luma
/// samples of a square window of side `2 * max(1, ratio / 2)` around every
/// `ratio`-th pixel, skipping the first and last destination row and
/// column. The mean is truncated.
pub fn blur_down(pixels: &Pixels<u8>, width: u32, height: u32, ratio: u32) -> (v: Vec<u8>)
    requires
        pixels.wf(),
        ratio >= 1,
        pixels.covers(width as int, height as int),
    ensures
        v@ == blurred(pixels.data(), pixels.stride(), width as int, height as int, ratio as int),
{
    let ghost d = pixels.data();
    let ghost stride = pixels.stride();
    let ghost target = blurred(d, stride, width as int, height as int, ratio as int);
    let mut v: Vec<u8> = Vec::new();
    let r2: u32 = if ratio / 2 > 1 {
        ratio / 2
    } else {
        1
    };
    let cols = width / ratio;
    let rows = height / ratio;
    if cols < 3 || rows < 3 {
        assert(interior(cols as int) * interior(rows as int) == 0) by (nonlinear_arith)
            requires
                interior(cols as int) == 0 || interior(rows as int) == 0,
        ;
        assert(v@ =~= target);
        return v;
    }
    proof {
        lemma_window_in_frame(width as int, ratio as int, 1);
        lemma_window_in_frame(height as int, ratio as int, 1);
    }
    let side: u128 = 2 * r2 as u128;
    assert(1 <= side * side <= 0x2_0000_0000 * 0x2_0000_0000) by (nonlinear_arith)
        requires
            2 <= side <= 0x2_0000_0000,
    ;
    let count: u128 = side * side;
    let ghost cw = cols - 2;
    assert((1 - 1) * cw == 0);
    assert(target.len() == (rows - 2) * cw) by (nonlinear_arith)
        requires
            target.len() == interior(cols as int) * interior(rows as int),
            cw == cols - 2,
            cols >= 2,
            rows >= 2,
    ;
    for y in 1..rows - 1
        invariant
            pixels.wf(),
            ratio >= 1,
            pixels.covers(width as int, height as int),
            d == pixels.data(),
            stride == pixels.stride(),
            cols == width / ratio,
            rows == height / ratio,
            cols >= 3,
            rows >= 3,
            cw == cols - 2,
            r2 == half_window(ratio as int),
            side == 2 * r2,
            count == side * side,
            count >= 1,
            side <= width,
            side <= height,
            target == blurred(d, stride, width as int, height as int, ratio as int),
            target.len() == (rows - 2) * cw,
            v@.len() == (y - 1) * cw,
            forall|j: int| 0 <= j < v@.len() ==> v@[j] == target[j],
    {
        assert(0 <= (y - 1) * cw) by (nonlinear_arith)
            requires
                1 <= y,
                0 <= cw,
        ;
        proof {
            lemma_window_in_frame(height as int, ratio as int, y as int);
        }
        for x in 1..cols - 1
            invariant
                pixels.wf(),
                ratio >= 1,
                pixels.covers(width as int, height as int),
                d == pixels.data(),
                stride == pixels.stride(),
                cols == width / ratio,
                rows == height / ratio,
                cols >= 3,
                rows >= 3,
                1 <= y < rows - 1,
                cw == cols - 2,
                r2 == half_window(ratio as int),
                side == 2 * r2,
                count == side * side,
                count >= 1,
                side <= width,
                side <= height,
                0 <= y * ratio - r2,
                y * ratio + r2 <= height,
                target == blurred(d, stride, width as int, height as int, ratio as int),
                target.len() == (rows - 2) * cw,
                v@.len() == (y - 1) * cw + (x - 1),
                forall|j: int| 0 <= j < v@.len() ==> v@[j] == target[j],
        {
            proof {
                lemma_window_in_frame(width as int, ratio as int, x as int);
            }
            let total = window_total(pixels, width, height, x * ratio - r2, y * ratio - r2, r2 * 2);
            let mean = total / count;
            let ghost i = (y - 1) * cw + (x - 1);
            proof {
                lemma_block_sum_bounds(d, stride, width as int, x * ratio - r2, y * ratio - r2, side as nat, side as nat);
                assert(mean <= 255) by (nonlinear_arith)
                    requires
                        0 <= total <= 255 * side * side,
                        count == side * side,
                        count > 0,
                        mean == total / count,
                ;
                lemma_cell_position(cols as int, x as int, y as int);
                assert(i < (rows - 2) * cw) by (nonlinear_arith)
                    requires
                        i == (y - 1) * cw + (x - 1),
                        x < cw + 1,
                        y < rows - 1,
                        1 <= y,
                        1 <= x,
                ;
            }
            v.push(mean as u8);
        }
        assert((y - 1) * cw + (cols - 1 - 1) == y * cw) by (nonlinear_arith)
            requires
                cw == cols - 2,
        ;
    }
    assert(v@.len() == target.len());
    assert(v@ =~= target);
    v
}

proof fn lemma_row_sum_constant(d: Seq<u8>, stride: int, w: int, x0: int, y: int, n: nat, v: u8)
    requires
        forall|x: int| x0 <= x < x0 + n ==> #[trigger] frame_sample(d, stride, w, x, y) == v,
    ensures
        row_sum(d, stride, w, x0, y, n) == n * v,
    decreases n,
{
    if n > 0 {
        lemma_row_sum_constant(d, stride, w, x0, y, (n - 1) as nat, v);
        assert(frame_sample(d, stride, w, x0 + n - 1, y) == v);
        assert((n - 1) * v + v == n * v) by (nonlinear_arith);
    } else {
        assert(n * v == 0) by (nonlinear_arith)
            requires
                n == 0,
        ;
    }
}

proof fn lemma_block_sum_constant(
    d: Seq<u8>,
    stride: int,
    w: int,
    x0: int,
    y0: int,
    cols: nat,
    rows: nat,
    v: u8,
)
    requires
        forall|x: int, y: int|
            x0 <= x < x0 + cols && y0 <= y < y0 + rows ==> #[trigger] frame_sample(
                d,
                stride,
                w,
                x,
                y,
            ) == v,
    ensures
        block_sum(d, stride, w, x0, y0, cols, rows) == cols * rows * v,
    decreases rows,
{
    if rows > 0 {
        lemma_block_sum_constant(d, stride, w, x0, y0, cols, (rows - 1) as nat, v);
        let y = y0 + rows - 1;
        assert forall|x: int| x0 <= x < x0 + cols implies #[trigger] frame_sample(
            d,
            stride,
            w,
            x,
            y,
        ) == v by {}
        lemma_row_sum_constant(d, stride, w, x0, y, cols, v);
        assert(cols * (rows - 1) * v + cols * v == cols * rows * v) by (nonlinear_arith);
    } else {
        assert(cols * rows * v == 0) by (nonlinear_arith)
            requires
                rows == 0,
        ;
    }
}

/// Downsampling a frame that holds the same luma value at every pixel gives
/// that value at every destination cell.
pub proof fn lemma_blur_constant(d: Seq<u8>, stride: int, w: int, h: int, ratio: int, v: u8)
    requires
        ratio >= 1,
        w >= 0,
        h >= 0,
        forall|x: int, y: int|
            0 <= x < w && 0 <= y < h ==> #[trigger] frame_sample(d, stride, w, x, y) == v,
    ensures
        forall|i: int|
            0 <= i < blurred(d, stride, w, h, ratio).len() ==> #[trigger] blurred(
                d,
                stride,
                w,
                h,
                ratio,
            )[i] == v,
{
    let b = blurred(d, stride, w, h, ratio);
    let cols = w / ratio;
    let rows = h / ratio;
    assert(cols >= 0 && rows >= 0) by (nonlinear_arith)
        requires
            ratio >= 1,
            w >= 0,
            h >= 0,
            cols == w / ratio,
            rows == h / ratio,
    ;
    assert forall|i: int| 0 <= i < b.len() implies #[trigger] b[i] == v by {
        lemma_cell_in_interior(cols, rows, i);
        let x = 1 + i % interior(cols);
        let y = 1 + i / interior(cols);
        lemma_window_in_frame(w, ratio, x);
        lemma_window_in_frame(h, ratio, y);
        let half = half_window(ratio);
        let side = 2 * half;
        let x0 = x * ratio - half;
        let y0 = y * ratio - half;
        assert forall|px: int, py: int|
            x0 <= px < x0 + side && y0 <= py < y0 + side implies #[trigger] frame_sample(
            d,
            stride,
            w,
            px,
            py,
        ) == v by {}
        lemma_block_sum_constant(d, stride, w, x0, y0, side as nat, side as nat, v);
        assert(side * side * v / (side * side) == v) by (nonlinear_arith)
            requires
                side >= 2,
        ;
    }
}

} // verus!
