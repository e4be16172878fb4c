use vstd::prelude::*;
use vstd::arithmetic::div_mod::{lemma_fundamental_div_mod, lemma_fundamental_div_mod_converse};

pub use crate::blur::blur_down;
use crate::pixels::{Kernel, PixelType, Pixels};

verus! {

/// Horizontal Sobel weights, row by row.
pub const SOBEL_X: [i16; 9] = [-1, 0, 1, -2, 0, 2, -1, 0, 1];

/// Vertical Sobel weights, row by row.
pub const SOBEL_Y: [i16; 9] = [1, 2, 1, 0, 0, 0, -1, -2, -1];

pub open spec fn sobel_x() -> Seq<i16> {
    seq![-1i16, 0i16, 1i16, -2i16, 0i16, 2i16, -1i16, 0i16, 1i16]
}

pub open spec fn sobel_y() -> Seq<i16> {
    seq![1i16, 2i16, 1i16, 0i16, 0i16, 0i16, -1i16, -2i16, -1i16]
}

/// `|a - b|`, which always fits in a byte.
pub open spec fn abs_diff(a: u8, b: u8) -> u8 {
    if a > b {
        (a - b) as u8
    } else {
        (b - a) as u8
    }
}

/// Element-wise absolute difference of two luma buffers.
pub open spec fn diff_seq(a: Seq<u8>, b: Seq<u8>) -> Seq<u8> {
    Seq::new(a.len(), |i: int| abs_diff(a[i], b[i]))
}

pub open spec fn abs(v: int) -> int {
    if v < 0 {
        -v
    } else {
        v
    }
}

/// Sample (x, y) of a single-channel buffer with rows of `w` samples.
pub open spec fn luma(d: Seq<u8>, w: int, x: int, y: int) -> int {
    d[x + y * w] as int
}

/// Weight in column `i`, row `j` of a 3x3 kernel stored row by row.
pub open spec fn weight(k: Seq<i16>, i: int, j: int) -> int {
    k[i + j * 3] as int
}

/// Response of kernel `k` centred on (x, y). The window is the one the
/// detector has always been tuned with: the columns x-1 and x and the rows
/// y-1 and y, each sample (wx, wy) weighted by the mirrored kernel entry
/// (x - wx + 1, y - wy + 1). The row and column after the centre are not
/// read.
pub open spec fn kernel_response(k: Seq<i16>, d: Seq<u8>, w: int, x: int, y: int) -> int {
    luma(d, w, x - 1, y - 1) * weight(k, 2, 2) + luma(d, w, x, y - 1) * weight(k, 1, 2)
        + luma(d, w, x - 1, y) * weight(k, 2, 1) + luma(d, w, x, y) * weight(k, 1, 1)
}

/// Gradient at (x, y): both kernel responses added into one accumulator.
pub open spec fn gradient(d: Seq<u8>, w: int, x: int, y: int) -> int {
    kernel_response(sobel_x(), d, w, x, y) + kernel_response(sobel_y(), d, w, x, y)
}

pub open spec fn is_edge(d: Seq<u8>, w: int, x: int, y: int, t: i16) -> bool {
    abs(gradient(d, w, x, y)) > t
}

/// Number of interior rows (or columns) of a frame side of `n` samples:
/// the first and the last are border.
pub open spec fn interior(n: int) -> int {
    if n >= 2 {
        n - 2
    } else {
        0
    }
}

/// Interior cells are numbered row by row; cell `i` is the pixel
/// (1 + i % interior(w), 1 + i / interior(w)).
pub open spec fn cell_is_edge(d: Seq<u8>, w: int, t: i16, i: int) -> bool {
    is_edge(d, w, 1 + i % interior(w), 1 + i / interior(w), t)
}

/// Edge mask of the interior of a `w` by `h` frame: 255 where the gradient
/// magnitude exceeds `t`, else 0, row by row.
pub open spec fn edge_mask(d: Seq<u8>, w: int, h: int, t: i16) -> Seq<u8> {
    Seq::new(
        (interior(w) * interior(h)) as nat,
        |i: int|
            if cell_is_edge(d, w, t, i) {
                255u8
            } else {
                0u8
            },
    )
}

/// Number of edge cells among the first `n` interior cells.
pub open spec fn edges_before(d: Seq<u8>, w: int, t: i16, n: nat) -> nat
    decreases n,
{
    if n == 0 {
        0
    } else {
        edges_before(d, w, t, (n - 1) as nat) + if cell_is_edge(d, w, t, n - 1) {
            1nat
        } else {
            0nat
        }
    }
}

/// Number of interior pixels of a `w` by `h` frame whose gradient
/// magnitude exceeds `t`.
pub open spec fn edge_count(d: Seq<u8>, w: int, h: int, t: i16) -> nat {
    edges_before(d, w, t, (interior(w) * interior(h)) as nat)
}

pub(crate) proof fn lemma_pixel_in_frame(x: int, y: int, w: int, h: int)
    requires
        0 <= x < w,
        0 <= y < h,
    ensures
        0 <= x + y * w < w * h,
{
    assert(0 <= y * w) by (nonlinear_arith)
        requires
            0 <= y,
            0 <= w,
    ;
    assert(y * w + w <= w * h) by (nonlinear_arith)
        requires
            y + 1 <= h,
            0 <= w,
    ;
}

/// Interior cell `i` of row `y - 1`, column `x - 1` is pixel (x, y).
pub(crate) proof fn lemma_cell_position(w: int, x: int, y: int)
    requires
        w >= 2,
        1 <= x < w - 1,
        1 <= y,
    ensures
        ((y - 1) * (w - 2) + (x - 1)) % (w - 2) == x - 1,
        ((y - 1) * (w - 2) + (x - 1)) / (w - 2) == y - 1,
{
    lemma_fundamental_div_mod_converse((y - 1) * (w - 2) + (x - 1), w - 2, y - 1, x - 1);
}

proof fn lemma_weighted_sample(s: u8, w: i16)
    requires
        -2 <= w <= 2,
    ensures
        -510 <= s * w <= 510,
{
    assert(-510 <= s * w <= 510) by (nonlinear_arith)
        requires
            0 <= s <= 255,
            -2 <= w <= 2,
    ;
}

proof fn lemma_edges_before_bound(d: Seq<u8>, w: int, t: i16, n: nat)
    ensures
        edges_before(d, w, t, n) <= n,
    decreases n,
{
    if n > 0 {
        lemma_edges_before_bound(d, w, t, (n - 1) as nat);
    }
}

fn vec_diff(v0: &Vec<u8>, v1: &Vec<u8>) -> (d: Vec<u8>)
    requires
        v0@.len() == v1@.len(),
    ensures
        d@ == diff_seq(v0@, v1@),
{
    let mut d: Vec<u8> = Vec::with_capacity(v0.len());
    for i in 0..v0.len()
        invariant
            v0@.len() == v1@.len(),
            d@ == diff_seq(v0@, v1@).take(i as int),
    {
        let a = v0[i];
        let b = v1[i];
        d.push(if a > b { a - b } else { b - a });
        assert(d@ =~= diff_seq(v0@, v1@).take(i + 1));
    }
    assert(d@ =~= diff_seq(v0@, v1@));
    d
}

/// Response of one kernel at (x, y) over the window of `kernel_response`.
fn kernel_window(pixels: &Pixels<u8>, k: &Kernel<i16>, x: usize, y: usize) -> (v: i16)
    requires
        pixels.wf(),
        pixels.stride() == 1,
        k.weights().len() == 9,
        forall|i: int| 0 <= i < 9 ==> -2 <= #[trigger] k.weights()[i] <= 2,
        1 <= x,
        1 <= y,
        pixels.in_bounds(x as int, y as int),
        pixels.in_bounds(x - 1, y as int),
        pixels.in_bounds(x as int, y - 1),
        pixels.in_bounds(x - 1, y - 1),
    ensures
        v == kernel_response(k.weights(), pixels.data(), pixels.width(), x as int, y as int),
        -2040 <= v <= 2040,
{
    let (s0, w0) = (pixels.get(x - 1, y - 1), k.get(2, 2));
    let (s1, w1) = (pixels.get(x, y - 1), k.get(1, 2));
    let (s2, w2) = (pixels.get(x - 1, y), k.get(2, 1));
    let (s3, w3) = (pixels.get(x, y), k.get(1, 1));
    proof {
        lemma_weighted_sample(s0, w0);
        lemma_weighted_sample(s1, w1);
        lemma_weighted_sample(s2, w2);
        lemma_weighted_sample(s3, w3);
    }
    s0 as i16 * w0 + s1 as i16 * w1 + s2 as i16 * w2 + s3 as i16 * w3
}

/// Gradient at the interior pixel (x, y) of a difference frame.
fn sobel_window(pixels: &Pixels<u8>, width: u32, height: u32, x: usize, y: usize) -> (v: i16)
    requires
        pixels.wf(),
        pixels.stride() == 1,
        pixels.covers(width as int, height as int),
        1 <= x < width,
        1 <= y < height,
    ensures
        v == gradient(pixels.data(), pixels.width(), x as int, y as int),
        -4080 <= v <= 4080,
{
    proof {
        lemma_pixel_in_frame(x as int, y as int, width as int, height as int);
        lemma_pixel_in_frame(x - 1, y as int, width as int, height as int);
        lemma_pixel_in_frame(x as int, y - 1, width as int, height as int);
        lemma_pixel_in_frame(x - 1, y - 1, width as int, height as int);
    }
    let kx = Kernel::from_weights(SOBEL_X);
    let ky = Kernel::from_weights(SOBEL_Y);
    assert(kx.weights() == sobel_x());
    assert(ky.weights() == sobel_y());
    kernel_window(pixels, &kx, x, y) + kernel_window(pixels, &ky, x, y)
}

/// Counts the interior pixels whose gradient magnitude exceeds `threshold`.
fn edge_sum(pixels: &Pixels<u8>, width: u32, height: u32, threshold: i16) -> (sum: u32)
    requires
        pixels.wf(),
        pixels.stride() == 1,
        pixels.covers(width as int, height as int),
        width * height <= u32::MAX,
    ensures
        sum == edge_count(pixels.data(), width as int, height as int, threshold),
{
    if width < 2 || height < 2 {
        assert(interior(width as int) * interior(height as int) == 0) by (nonlinear_arith)
            requires
                interior(width as int) == 0 || interior(height as int) == 0,
        ;
        return 0;
    }
    let ghost d = pixels.data();
    let ghost w = width as int;
    let ghost cw = w - 2;
    let mut sum: u32 = 0;
    assert((1 - 1) * cw == 0);
    for y in 1..height - 1
        invariant
            pixels.wf(),
            pixels.stride() == 1,
            pixels.covers(width as int, height as int),
            width * height <= u32::MAX,
            width >= 2,
            height >= 2,
            d == pixels.data(),
            w == width,
            cw == w - 2,
            sum == edges_before(d, w, threshold, ((y - 1) * cw) as nat),
    {
        assert(0 <= (y - 1) * cw) by (nonlinear_arith)
            requires
                1 <= y,
                0 <= cw,
        ;
        for x in 1..width - 1
            invariant
                pixels.wf(),
                pixels.stride() == 1,
                pixels.covers(width as int, height as int),
                width * height <= u32::MAX,
                width >= 2,
                1 <= y < height - 1,
                d == pixels.data(),
                w == width,
                cw == w - 2,
                0 <= (y - 1) * cw,
                sum == edges_before(d, w, threshold, ((y - 1) * cw + (x - 1)) as nat),
        {
            let ghost i = (y - 1) * cw + (x - 1);
            proof {
                lemma_cell_position(w, x as int, y as int);
                lemma_edges_before_bound(d, w, threshold, i as nat);
                assert(i < w * height) by (nonlinear_arith)
                    requires
                        i == (y - 1) * cw + (x - 1),
                        cw == w - 2,
                        x < w,
                        y < height,
                        1 <= y,
                        1 <= x,
                ;
            }
            let value = sobel_window(pixels, width, height, x as usize, y as usize);
            let magnitude: i16 = if value < 0 {
                -value
            } else {
                value
            };
            if magnitude > threshold {
                sum += 1;
            }
            assert(edges_before(d, w, threshold, (i + 1) as nat) == edges_before(
                d,
                w,
                threshold,
                i as nat,
            ) + if cell_is_edge(d, w, threshold, i) {
                1nat
            } else {
                0nat
            });
        }
        assert((y - 1) * cw + (width - 1 - 1) == y * cw) by (nonlinear_arith)
            requires
                cw == width - 2,
        ;
    }
    assert((height - 1 - 1) * cw == interior(w) * interior(height as int)) by (nonlinear_arith)
        requires
            cw == w - 2,
            w >= 2,
            height >= 2,
    ;
    sum
}

/// Edge mask of the interior pixels: 255 where the gradient magnitude exceeds
/// `threshold`, else 0.
fn sobel(pixels: &Pixels<u8>, width: u32, height: u32, threshold: i16) -> (v: Vec<u8>)
    requires
        pixels.wf(),
        pixels.stride() == 1,
        pixels.covers(width as int, height as int),
    ensures
        v@ == edge_mask(pixels.data(), width as int, height as int, threshold),
{
    let ghost d = pixels.data();
    let ghost w = width as int;
    let ghost mask = edge_mask(d, w, height as int, threshold);
    let mut v: Vec<u8> = Vec::new();
    if width < 2 || height < 2 {
        assert(interior(width as int) * interior(height as int) == 0) by (nonlinear_arith)
            requires
                interior(width as int) == 0 || interior(height as int) == 0,
        ;
        assert(v@ =~= mask);
        return v;
    }
    let ghost cw = w - 2;
    assert((1 - 1) * cw == 0);
    assert(mask.len() == (height - 2) * cw) by (nonlinear_arith)
        requires
            mask.len() == interior(w) * interior(height as int),
            cw == w - 2,
            w >= 2,
            height >= 2,
    ;
    for y in 1..height - 1
        invariant
            pixels.wf(),
            pixels.stride() == 1,
            pixels.covers(width as int, height as int),
            width >= 2,
            height >= 2,
            mask.len() == (height - 2) * cw,
            d == pixels.data(),
            w == width,
            cw == w - 2,
            mask == edge_mask(d, w, height as int, threshold),
            v@.len() == (y - 1) * cw,
            forall|j: int| 0 <= j < v@.len() ==> v@[j] == mask[j],
    {
        assert(0 <= (y - 1) * cw) by (nonlinear_arith)
            requires
                1 <= y,
                0 <= cw,
        ;
        for x in 1..width - 1
            invariant
                pixels.wf(),
                pixels.stride() == 1,
                pixels.covers(width as int, height as int),
                width >= 2,
                height >= 2,
                1 <= y < height - 1,
                d == pixels.data(),
                w == width,
                cw == w - 2,
                mask == edge_mask(d, w, height as int, threshold),
                mask.len() == (height - 2) * cw,
                v@.len() == (y - 1) * cw + (x - 1),
                forall|j: int| 0 <= j < v@.len() ==> v@[j] == mask[j],
        {
            let ghost i = (y - 1) * cw + (x - 1);
            proof {
                lemma_cell_position(w, x as int, y as int);
                assert(i < (height - 2) * cw) by (nonlinear_arith)
                    requires
                        i == (y - 1) * cw + (x - 1),
                        x < cw + 1,
                        y < height - 1,
                        1 <= y,
                        1 <= x,
                ;
            }
            let value = sobel_window(pixels, width, height, x as usize, y as usize);
            let magnitude: i16 = if value < 0 {
                -value
            } else {
                value
            };
            if magnitude > threshold {
                v.push(255);
            } else {
                v.push(0);
            }
        }
        assert((y - 1) * cw + (width - 1 - 1) == y * cw) by (nonlinear_arith)
            requires
                cw == width - 2,
        ;
    }
    assert(v@.len() == mask.len());
    assert(v@ =~= mask);
    v
}

/// Edge mask of the difference of two equally sized luma frames of `w` by
/// `h` samples: 255 at each interior pixel whose gradient magnitude exceeds
/// `thresh`, else 0, row by row, `(w - 2) * (h - 2)` entries.
pub fn get_diff_edges(a: &Vec<u8>, b: &Vec<u8>, w: u32, h: u32, thresh: i16) -> (mask: Vec<u8>)
    requires
        a@.len() == b@.len(),
        w * h <= a@.len(),
    ensures
        mask@ == edge_mask(diff_seq(a@, b@), w as int, h as int, thresh),
{
    let diff = vec_diff(a, b);
    sobel(&Pixels::new(w as usize, diff.as_slice(), PixelType::Gray), w, h, thresh)
}

/// Motion score of two equally sized luma frames of `w` by `h` samples: the
/// number of interior pixels of their difference whose gradient magnitude
/// exceeds `thresh`.
pub fn compare(a: &Vec<u8>, b: &Vec<u8>, w: u32, h: u32, thresh: i16) -> (count: u32)
    requires
        a@.len() == b@.len(),
        w * h <= a@.len(),
        w * h <= u32::MAX,
    ensures
        count == edge_count(diff_seq(a@, b@), w as int, h as int, thresh),
{
    let diff = vec_diff(a, b);
    edge_sum(&Pixels::new(w as usize, diff.as_slice(), PixelType::Gray), w, h, thresh)
}

/// Interior cell `i` of a `w` by `h` frame is a pixel with a full border
/// around it.
pub(crate) proof fn lemma_cell_in_interior(w: int, h: int, i: int)
    requires
        0 <= i < interior(w) * interior(h),
    ensures
        w >= 3,
        h >= 3,
        1 <= 1 + i % interior(w) < w - 1,
        1 <= 1 + i / interior(w) < h - 1,
{
    let cw = interior(w);
    let ch = interior(h);
    assert(cw > 0 && ch > 0) by (nonlinear_arith)
        requires
            0 <= i < cw * ch,
            cw >= 0,
            ch >= 0,
    ;
    lemma_fundamental_div_mod(i, cw);
    let q = i / cw;
    let m = i % cw;
    assert(0 <= q < ch) by (nonlinear_arith)
        requires
            i == cw * q + m,
            0 <= m < cw,
            0 <= i < cw * ch,
    ;
}

/// The absolute difference does not depend on the order of its operands.
pub proof fn lemma_diff_symmetric(a: Seq<u8>, b: Seq<u8>)
    requires
        a.len() == b.len(),
    ensures
        diff_seq(a, b) == diff_seq(b, a),
{
    assert(diff_seq(a, b) =~= diff_seq(b, a));
}

/// A buffer differs from itself by zero everywhere.
pub proof fn lemma_diff_self_zero(a: Seq<u8>)
    ensures
        diff_seq(a, a).len() == a.len(),
        forall|i: int| 0 <= i < a.len() ==> #[trigger] diff_seq(a, a)[i] == 0,
{
}

proof fn lemma_no_edges_in_zero(d: Seq<u8>, w: int, h: int, t: i16, n: nat)
    requires
        t >= 0,
        0 <= w,
        0 <= h,
        w * h <= d.len(),
        n <= interior(w) * interior(h),
        forall|i: int| 0 <= i < d.len() ==> #[trigger] d[i] == 0,
    ensures
        edges_before(d, w, t, n) == 0,
    decreases n,
{
    if n > 0 {
        lemma_no_edges_in_zero(d, w, h, t, (n - 1) as nat);
        let i = n - 1;
        lemma_cell_in_interior(w, h, i);
        let x = 1 + i % interior(w);
        let y = 1 + i / interior(w);
        lemma_pixel_in_frame(x, y, w, h);
        lemma_pixel_in_frame(x - 1, y, w, h);
        lemma_pixel_in_frame(x, y - 1, w, h);
        lemma_pixel_in_frame(x - 1, y - 1, w, h);
        assert(luma(d, w, x, y) == 0);
        assert(luma(d, w, x - 1, y) == 0);
        assert(luma(d, w, x, y - 1) == 0);
        assert(luma(d, w, x - 1, y - 1) == 0);
        assert(gradient(d, w, x, y) == 0);
    }
}

/// Comparing a frame with itself finds no edge at any non-negative
/// threshold.
pub proof fn lemma_compare_self_zero(a: Seq<u8>, w: int, h: int, t: i16)
    requires
        t >= 0,
        0 <= w,
        0 <= h,
        w * h <= a.len(),
    ensures
        edge_count(diff_seq(a, a), w, h, t) == 0,
{
    lemma_no_edges_in_zero(diff_seq(a, a), w, h, t, (interior(w) * interior(h)) as nat);
}

proof fn lemma_edges_before_monotone(d: Seq<u8>, w: int, t1: i16, t2: i16, n: nat)
    requires
        t1 <= t2,
    ensures
        edges_before(d, w, t2, n) <= edges_before(d, w, t1, n),
    decreases n,
{
    if n > 0 {
        lemma_edges_before_monotone(d, w, t1, t2, (n - 1) as nat);
    }
}

/// Raising the threshold never raises the motion score.
pub proof fn lemma_edge_count_monotone(d: Seq<u8>, w: int, h: int, t1: i16, t2: i16)
    requires
        t1 <= t2,
    ensures
        edge_count(d, w, h, t2) <= edge_count(d, w, h, t1),
{
    lemma_edges_before_monotone(d, w, t1, t2, (interior(w) * interior(h)) as nat);
}

} // verus!
