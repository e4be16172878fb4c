use vstd::prelude::*;
use vstd::arithmetic::div_mod::lemma_fundamental_div_mod_converse;

verus! {

/// `v` clamped to `[0, 255]`.
pub open spec fn clamp_byte(v: int) -> u8 {
    if v < 0 {
        0
    } else if v > 255 {
        255
    } else {
        v as u8
    }
}

/// Fixed-point chroma terms, in 1/256 steps rounded towards minus infinity.
pub open spec fn red_term(v: int) -> int {
    (351 * (v - 128)) / 256
}

pub open spec fn green_term(u: int, v: int) -> int {
    (179 * (v - 128) + 86 * (u - 128)) / 256
}

pub open spec fn blue_term(u: int) -> int {
    (443 * (u - 128)) / 256
}

/// Channel `c` (0 red, 1 green, 2 blue) of a pixel with luma `y` and the
/// chroma pair (u, v).
pub open spec fn rgb_channel(c: int, y: int, u: int, v: int) -> u8 {
    if c == 0 {
        clamp_byte(y + red_term(v))
    } else if c == 1 {
        clamp_byte(y - green_term(u, v))
    } else {
        clamp_byte(y + blue_term(u))
    }
}

/// Byte `j` (0..6) of the two RGB pixels decoded from the YUYV group
/// starting at `base`: the first pixel takes luma `buf[base]`, the second
/// `buf[base + 2]`, both the chroma pair (`buf[base + 1]`, `buf[base + 3]`).
pub open spec fn group_byte(buf: Seq<u8>, base: int, j: int) -> u8 {
    let y = if j < 3 {
        buf[base]
    } else {
        buf[base + 2]
    };
    rgb_channel(j % 3, y as int, buf[base + 1] as int, buf[base + 3] as int)
}

/// RGB bytes of a YUYV buffer: six bytes for each whole group of four; a
/// trailing partial group is ignored.
pub open spec fn yuyv_rgb(buf: Seq<u8>) -> Seq<u8> {
    Seq::new(((buf.len() / 4) * 6) as nat, |i: int| group_byte(buf, 4 * (i / 6), i % 6))
}

fn clamp(v: isize) -> (b: u8)
    requires
        -100000 <= v <= 100000,
    ensures
        b == clamp_byte(v as int),
{
    if v < 0 {
        0
    } else if v > 255 {
        255
    } else {
        v as u8
    }
}

fn floor_div_256(t: isize) -> (r: isize)
    requires
        -200000 <= t <= 200000,
    ensures
        r == t / 256,
        -1000 <= r <= 1000,
{
    let r = t >> 8;
    assert(r == t / 256) by (bit_vector)
        requires
            r == t >> 8,
    ;
    r
}

/// Converts interleaved YUYV samples to packed RGB, two pixels for every
/// group of four bytes, with fixed-point coefficients and clamping.
pub fn yuyv_to_rgb(buf: &[u8]) -> (out: Vec<u8>)
    ensures
        out@ == yuyv_rgb(buf@),
{
    let n = buf.len();
    let groups = n / 4;
    let mut out: Vec<u8> = Vec::new();
    let ghost target = yuyv_rgb(buf@);
    for x in 0..groups
        invariant
            n == buf@.len(),
            groups == n / 4,
            target == yuyv_rgb(buf@),
            out@.len() == 6 * x,
            forall|k: int| 0 <= k < out@.len() ==> out@[k] == target[k],
    {
        proof {
            vstd::arithmetic::div_mod::lemma_fundamental_div_mod(buf@.len() as int, 4);
        }
        let i = 4 * x;
        let y0 = buf[i] as isize;
        let u = buf[i + 1] as isize;
        let y1 = buf[i + 2] as isize;
        let v = buf[i + 3] as isize;

        let r_comp = floor_div_256(351 * (v - 128));
        let g_comp = floor_div_256(179 * (v - 128) + 86 * (u - 128));
        let b_comp = floor_div_256(443 * (u - 128));

        let r0 = clamp(y0 + r_comp);
        let g0 = clamp(y0 - g_comp);
        let b0 = clamp(y0 + b_comp);

        let r1 = clamp(y1 + r_comp);
        let g1 = clamp(y1 - g_comp);
        let b1 = clamp(y1 + b_comp);

        proof {
            lemma_fundamental_div_mod_converse(6 * x + 0, 6, x as int, 0);
            lemma_fundamental_div_mod_converse(6 * x + 1, 6, x as int, 1);
            lemma_fundamental_div_mod_converse(6 * x + 2, 6, x as int, 2);
            lemma_fundamental_div_mod_converse(6 * x + 3, 6, x as int, 3);
            lemma_fundamental_div_mod_converse(6 * x + 4, 6, x as int, 4);
            lemma_fundamental_div_mod_converse(6 * x + 5, 6, x as int, 5);
            assert(6 * x + 6 <= (buf@.len() / 4) * 6);
        }
        out.push(r0);
        out.push(g0);
        out.push(b0);

        out.push(r1);
        out.push(g1);
        out.push(b1);
        assert(out@[6 * x + 0] == target[6 * x + 0]);
        assert(out@[6 * x + 1] == target[6 * x + 1]);
        assert(out@[6 * x + 2] == target[6 * x + 2]);
        assert(out@[6 * x + 3] == target[6 * x + 3]);
        assert(out@[6 * x + 4] == target[6 * x + 4]);
        assert(out@[6 * x + 5] == target[6 * x + 5]);
    }
    assert(out@ =~= target);
    out
}

/// The (u, v) pair of YUYV group `g`.
pub open spec fn chroma_pair(buf: Seq<u8>, g: int) -> (u8, u8) {
    (buf[4 * g + 1], buf[4 * g + 3])
}

/// With neutral chroma (u = v = 128) every decoded pixel is grey at its own
/// luma: R = G = B = Y.
pub proof fn lemma_neutral_chroma_is_grey(buf: Seq<u8>)
    requires
        forall|g: int|
            0 <= g < buf.len() / 4 ==> #[trigger] chroma_pair(buf, g) == (128u8, 128u8),
    ensures
        forall|g: int, c: int|
            0 <= g < buf.len() / 4 && 0 <= c < 3 ==> #[trigger] yuyv_rgb(buf)[6 * g + c] == buf[4
                * g] && yuyv_rgb(buf)[6 * g + 3 + c] == buf[4 * g + 2],
{
    assert forall|g: int, c: int| 0 <= g < buf.len() / 4 && 0 <= c < 3 implies #[trigger] yuyv_rgb(
        buf,
    )[6 * g + c] == buf[4 * g] && yuyv_rgb(buf)[6 * g + 3 + c] == buf[4 * g + 2] by {
        lemma_fundamental_div_mod_converse(6 * g + c, 6, g, c);
        lemma_fundamental_div_mod_converse(6 * g + 3 + c, 6, g, 3 + c);
        assert(chroma_pair(buf, g) == (128u8, 128u8));
        assert(6 * g + 6 <= (buf.len() / 4) * 6);
    }
}

} // verus!
