//! Layouts of sampled noise fields: the order in which a grid is walked and
//! the interleaved byte buffers that one gray byte per pixel becomes.

use vstd::prelude::*;
use vstd::arithmetic::div_mod::lemma_fundamental_div_mod_converse;

verus! {

/// Alpha value of every pixel of an RGBA buffer: fully opaque.
pub const OPAQUE: u8 = 255;

/// `out` is the RGBA buffer of the gray pixels `gray`: four bytes per pixel,
/// the gray value in red, green and blue, then an opaque alpha.
pub open spec fn is_rgba_of(out: Seq<u8>, gray: Seq<u8>) -> bool {
    &&& out.len() == 4 * gray.len()
    &&& forall|i: int, c: int|
        0 <= i < gray.len() && 0 <= c < 4 ==> #[trigger] out[4 * i + c] == if c == 3 {
            OPAQUE
        } else {
            gray[i]
        }
}

/// `out` is the RGB image data of the gray pixels `gray`: three bytes per
/// pixel, each equal to the gray value.
pub open spec fn is_rgb_of(out: Seq<u8>, gray: Seq<u8>) -> bool {
    &&& out.len() == 3 * gray.len()
    &&& forall|i: int, c: int|
        0 <= i < gray.len() && 0 <= c < 3 ==> #[trigger] out[3 * i + c] == gray[i]
}

/// Value of every colour channel of column `x` in the stripe pattern:
/// black on even columns, white on odd ones.
pub open spec fn stripe_value(x: int) -> u8 {
    if x % 2 == 0 {
        0
    } else {
        255
    }
}

/// The RGBA buffer of `gray`, for hosts that draw raw pixel data.
pub fn rgba_from_gray(gray: &Vec<u8>) -> (r: Vec<u8>)
    requires
        4 * gray@.len() <= usize::MAX,
    ensures
        is_rgba_of(r@, gray@),
{
    let n = gray.len();
    let mut out: Vec<u8> = Vec::with_capacity(4 * n);
    let mut i: usize = 0;
    while i < n
        invariant
            n == gray@.len(),
            4 * n <= usize::MAX,
            i <= n,
            out@.len() == 4 * i,
            forall|j: int, c: int|
                0 <= j < i && 0 <= c < 4 ==> #[trigger] out@[4 * j + c] == if c == 3 {
                    OPAQUE
                } else {
                    gray@[j]
                },
        decreases n - i,
    {
        let v = gray[i];
        out.push(v);
        out.push(v);
        out.push(v);
        out.push(OPAQUE);
        i = i + 1;
    }
    out
}

/// The RGB image data of `gray`, as an image encoder takes it.
pub fn rgb_from_gray(gray: &Vec<u8>) -> (r: Vec<u8>)
    requires
        3 * gray@.len() <= usize::MAX,
    ensures
        is_rgb_of(r@, gray@),
{
    let n = gray.len();
    let mut out: Vec<u8> = Vec::with_capacity(3 * n);
    let mut i: usize = 0;
    while i < n
        invariant
            n == gray@.len(),
            3 * n <= usize::MAX,
            i <= n,
            out@.len() == 3 * i,
            forall|j: int, c: int|
                0 <= j < i && 0 <= c < 3 ==> #[trigger] out@[3 * j + c] == gray@[j],
        decreases n - i,
    {
        let v = gray[i];
        out.push(v);
        out.push(v);
        out.push(v);
        i = i + 1;
    }
    out
}

/// A raw buffer and an image made from the same gray pixels agree on the
/// colour channels of every pixel.
pub proof fn lemma_buffer_matches_image(rgba: Seq<u8>, rgb: Seq<u8>, gray: Seq<u8>)
    requires
        is_rgba_of(rgba, gray),
        is_rgb_of(rgb, gray),
    ensures
        forall|i: int, c: int|
            0 <= i < gray.len() && 0 <= c < 3 ==> #[trigger] rgba[4 * i + c] == rgb[3 * i + c],
{
    assert forall|i: int, c: int| 0 <= i < gray.len() && 0 <= c < 3 implies #[trigger] rgba[4
        * i + c] == rgb[3 * i + c] by {
        assert(rgba[4 * i + c] == gray[i]);
        assert(rgb[3 * i + c] == gray[i]);
    }
}

/// A `canvas_width` by `canvas_height` RGBA test pattern of vertical
/// stripes one pixel wide, black on even columns and white on odd ones.
pub fn draw_pixels(canvas_width: u32, canvas_height: u32) -> (r: Vec<u8>)
    requires
        4 * canvas_width * canvas_height <= u32::MAX,
    ensures
        r@.len() == 4 * canvas_width * canvas_height,
        forall|p: int, c: int|
            0 <= p < canvas_width * canvas_height && 0 <= c < 4 ==> #[trigger] r@[4 * p + c]
                == if c == 3 {
                OPAQUE
            } else {
                stripe_value(p % (canvas_width as int))
            },
{
    let w = canvas_width as usize;
    let h = canvas_height as usize;
    assert(4 * w * h == 4 * (w * h)) by (nonlinear_arith);
    let mut out: Vec<u8> = Vec::new();
    let mut y: usize = 0;
    while y < h
        invariant
            4 * (w * h) <= u32::MAX,
            w == canvas_width,
            y <= h,
            out@.len() == 4 * (y * w),
            forall|p: int, c: int|
                0 <= p < y * w && 0 <= c < 4 ==> #[trigger] out@[4 * p + c] == if c == 3 {
                    OPAQUE
                } else {
                    stripe_value(p % (w as int))
                },
        decreases h - y,
    {
        assert(y * w + w <= w * h) by (nonlinear_arith)
            requires
                y < h,
        ;
        let mut x: usize = 0;
        while x < w
            invariant
                4 * (w * h) <= u32::MAX,
                w == canvas_width,
                y < h,
                y * w + w <= w * h,
                x <= w,
                out@.len() == 4 * (y * w + x),
                forall|p: int, c: int|
                    0 <= p < y * w + x && 0 <= c < 4 ==> #[trigger] out@[4 * p + c] == if c
                        == 3 {
                        OPAQUE
                    } else {
                        stripe_value(p % (w as int))
                    },
            decreases w - x,
        {
            proof {
                lemma_fundamental_div_mod_converse(y * w + x, w as int, y as int, x as int);
            }
            let value: u8 = if x % 2 == 0 {
                0
            } else {
                255
            };
            out.push(value);
            out.push(value);
            out.push(value);
            out.push(OPAQUE);
            x = x + 1;
        }
        assert((y + 1) * w == y * w + w) by (nonlinear_arith);
        y = y + 1;
    }
    assert(y * w == w * h) by (nonlinear_arith)
        requires
            y == h,
    ;
    out
}

/// The points of a `width` by `height` grid in the order a sampler visits
/// them: row by row, each row from left to right, so that the point at
/// position `p` is `(p % width, p / width)`.
pub fn grid_points(width: usize, height: usize) -> (r: Vec<(usize, usize)>)
    requires
        width * height <= usize::MAX,
    ensures
        r@.len() == width * height,
        forall|p: int|
            0 <= p < width * height ==> #[trigger] r@[p].0 as int == p % (width as int)
                && r@[p].1 as int == p / (width as int),
{
    let mut out: Vec<(usize, usize)> = Vec::new();
    let mut y: usize = 0;
    while y < height
        invariant
            width * height <= usize::MAX,
            y <= height,
            out@.len() == y * width,
            forall|p: int|
                0 <= p < y * width ==> #[trigger] out@[p].0 as int == p % (width as int)
                && out@[p].1 as int == p / (width as int),
        decreases height - y,
    {
        let mut x: usize = 0;
        while x < width
            invariant
                width * height <= usize::MAX,
                y < height,
                x <= width,
                out@.len() == y * width + x,
                forall|p: int|
                    0 <= p < y * width + x ==> #[trigger] out@[p].0 as int == p % (width as int)
                && out@[p].1 as int == p / (width as int),
            decreases width - x,
        {
            proof {
                let p = y * width + x;
                lemma_fundamental_div_mod_converse(p, width as int, y as int, x as int);
            }
            out.push((x, y));
            x = x + 1;
        }
        assert((y + 1) * width == y * width + width) by (nonlinear_arith);
        y = y + 1;
    }
    assert(y * width == width * height) by (nonlinear_arith)
        requires
            y == height,
    ;
    out
}

} // verus!
