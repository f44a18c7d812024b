use vstd::prelude::*;

use crate::color::{clamp, dequantize, div_trunc, quantize, Color16, RGBColor};
use crate::image::ImageView;
use crate::plane::sum_of;

verus! {

// Ordered dithering
/// The threshold matrix of ordered dithering.
#[derive(Clone, Copy, Debug, PartialEq, Eq, Structural)]
pub enum Pattern {
    /// A 4x4 Bayer matrix of 16 levels, tiled over the 8x8 footprint.
    Bayer4,
    /// An 8x8 Bayer matrix of 64 levels.
    Bayer8,
}

pub const BAYER_4X4: [i32; 16] = [0, 8, 2, 10, 12, 4, 14, 6, 3, 11, 1, 9, 15, 7, 13, 5];

pub const BAYER_8X8: [i32; 64] = [
    0, 32, 8, 40, 2, 34, 10, 42,
    48, 16, 56, 24, 50, 18, 58, 26,
    12, 44, 4, 36, 14, 46, 6, 38,
    60, 28, 52, 20, 62, 30, 54, 22,
    3, 35, 11, 43, 1, 33, 9, 41,
    51, 19, 59, 27, 49, 17, 57, 25,
    15, 47, 7, 39, 13, 45, 5, 37,
    63, 31, 55, 23, 61, 29, 53, 21,
];

pub open spec fn bayer4(i: int) -> int {
    seq![0int, 8, 2, 10, 12, 4, 14, 6, 3, 11, 1, 9, 15, 7, 13, 5][i]
}

pub open spec fn bayer8(i: int) -> int {
    seq![
        0int, 32, 8, 40, 2, 34, 10, 42,
        48, 16, 56, 24, 50, 18, 58, 26,
        12, 44, 4, 36, 14, 46, 6, 38,
        60, 28, 52, 20, 62, 30, 54, 22,
        3, 35, 11, 43, 1, 33, 9, 41,
        51, 19, 59, 27, 49, 17, 57, 25,
        15, 47, 7, 39, 13, 45, 5, 37,
        63, 31, 55, 23, 61, 29, 53, 21,
    ][i]
}

/// The number of levels of a matrix.
pub open spec fn level_count(p: Pattern) -> int {
    match p {
        Pattern::Bayer4 => 16,
        Pattern::Bayer8 => 64,
    }
}

/// The matrix level at the footprint cell (x mod 8, y mod 8).
pub open spec fn threshold(p: Pattern, x: int, y: int) -> int {
    match p {
        Pattern::Bayer4 => bayer4((x % 8) % 4 + ((y % 8) % 4) * 4),
        Pattern::Bayer8 => bayer8(x % 8 + (y % 8) * 8),
    }
}

/// An 8-bit channel value moved by the matrix offset `level / count - 1/2`
/// scaled to one quantization step (`255 / steps`), truncated and clamped
/// to [0, 255]; the sum is taken exactly, over a common denominator.
pub open spec fn dither_channel(v: int, level: int, count: int, steps: int) -> int {
    clamp((2 * count * steps * v + (2 * level - count) * 255) / (2 * count * steps), 0, 255)
}

/// The packed color that ordered dithering gives a pixel of color `c` at
/// column `x`, row `y`.
pub open spec fn ordered_pixel(c: RGBColor, p: Pattern, x: int, y: int) -> Color16 {
    let level = threshold(p, x, y);
    let count = level_count(p);
    quantize(
        RGBColor {
            r: dither_channel(c.r as int, level, count, 31) as i32,
            g: dither_channel(c.g as int, level, count, 63) as i32,
            b: dither_channel(c.b as int, level, count, 31) as i32,
        },
    )
}

/// What ordered dithering gives every pixel of an image.
pub open spec fn ordered_pixels(v: ImageView, p: Pattern) -> Seq<Color16> {
    Seq::new(
        (v.width * v.height) as nat,
        |i: int| ordered_pixel(v.colors[i], p, i % v.width as int, i / v.width as int),
    )
}

/// What posterizing gives every pixel of an image.
pub open spec fn posterize_pixels(v: ImageView) -> Seq<Color16> {
    Seq::new((v.width * v.height) as nat, |i: int| quantize(v.colors[i]))
}

/// Ordered dithering depends on a pixel's color and on its position modulo
/// 8 alone.
pub proof fn lemma_ordered_periodic(c: RGBColor, p: Pattern, x1: int, y1: int, x2: int, y2: int)
    requires
        x1 >= 0,
        y1 >= 0,
        x2 >= 0,
        y2 >= 0,
        x1 % 8 == x2 % 8,
        y1 % 8 == y2 % 8,
    ensures
        ordered_pixel(c, p, x1, y1) == ordered_pixel(c, p, x2, y2),
{
}

/// Two pixels of an image with the same color and the same column and row
/// modulo 8 get the same ordered-dithered color.
pub proof fn lemma_ordered_pixels_periodic(v: ImageView, p: Pattern, i: int, j: int)
    requires
        v.wf(),
        0 <= i < v.width * v.height,
        0 <= j < v.width * v.height,
        v.colors[i] == v.colors[j],
        (i % v.width as int) % 8 == (j % v.width as int) % 8,
        (i / v.width as int) % 8 == (j / v.width as int) % 8,
    ensures
        ordered_pixels(v, p)[i] == ordered_pixels(v, p)[j],
{
    assert(v.width > 0) by (nonlinear_arith)
        requires
            0 <= i < v.width * v.height,
    ;
    lemma_ordered_periodic(
        v.colors[i],
        p,
        i % v.width as int,
        i / v.width as int,
        j % v.width as int,
        j / v.width as int,
    );
}

// Error diffusion
pub open spec fn zero() -> RGBColor {
    RGBColor { r: 0, g: 0, b: 0 }
}

/// One channel of a working color: 0 red, 1 green, 2 blue.
pub open spec fn chan(c: RGBColor, t: int) -> int {
    if t == 0 {
        c.r as int
    } else if t == 1 {
        c.g as int
    } else {
        c.b as int
    }
}

/// A source channel with the pending error, held in sixteenths, added:
/// `v + pending / 16`, truncated toward zero. Nothing is clamped here; the
/// sum may leave [0, 255], and only quantization clamps it.
pub open spec fn combine_channel(v: int, pending: int) -> int {
    div_trunc(16 * v + pending, 16)
}

/// The color fed to quantization: the source color with its pending error,
/// unclamped.
pub open spec fn combine(c: RGBColor, pending: RGBColor) -> RGBColor {
    RGBColor {
        r: combine_channel(c.r as int, pending.r as int) as i32,
        g: combine_channel(c.g as int, pending.g as int) as i32,
        b: combine_channel(c.b as int, pending.b as int) as i32,
    }
}

/// What quantizing `m` loses: `m` less the color its packed color stands for.
pub open spec fn diffusion_error(m: RGBColor) -> RGBColor {
    let d = dequantize(quantize(m));
    RGBColor { r: (m.r - d.r) as i32, g: (m.g - d.g) as i32, b: (m.b - d.b) as i32 }
}

/// `e` multiplied by `k`, channel-wise.
pub open spec fn scale(e: RGBColor, k: int) -> RGBColor {
    RGBColor { r: (e.r * k) as i32, g: (e.g * k) as i32, b: (e.b * k) as i32 }
}

/// `k` sixteenths of `e` added to cell `i`.
pub open spec fn scaled_add(cells: Seq<RGBColor>, i: int, e: RGBColor, k: int) -> Seq<RGBColor> {
    cells.update(i, sum_of(cells[i], scale(e, k)))
}

pub open spec fn right_in(opaque: Seq<bool>, i: int, w: int, h: int) -> bool {
    i % w + 1 < w && opaque[i + 1]
}

pub open spec fn below_left_in(opaque: Seq<bool>, i: int, w: int, h: int) -> bool {
    i / w + 1 < h && i % w > 0 && opaque[i + w - 1]
}

pub open spec fn below_in(opaque: Seq<bool>, i: int, w: int, h: int) -> bool {
    i / w + 1 < h && opaque[i + w]
}

pub open spec fn below_right_in(opaque: Seq<bool>, i: int, w: int, h: int) -> bool {
    i / w + 1 < h && i % w + 1 < w && opaque[i + w + 1]
}

/// The error `e` of pixel `i` handed on to the neighbors not yet visited:
/// 7/16 right, 3/16 below left, 5/16 below, 1/16 below right; a neighbor
/// off the image or transparent gets nothing.
pub open spec fn spread(
    cells: Seq<RGBColor>,
    opaque: Seq<bool>,
    i: int,
    w: int,
    h: int,
    e: RGBColor,
) -> Seq<RGBColor> {
    let c1 = if right_in(opaque, i, w, h) {
        scaled_add(cells, i + 1, e, 7)
    } else {
        cells
    };
    let c2 = if below_left_in(opaque, i, w, h) {
        scaled_add(c1, i + w - 1, e, 3)
    } else {
        c1
    };
    let c3 = if below_in(opaque, i, w, h) {
        scaled_add(c2, i + w, e, 5)
    } else {
        c2
    };
    if below_right_in(opaque, i, w, h) {
        scaled_add(c3, i + w + 1, e, 1)
    } else {
        c3
    }
}

/// The pending error of every pixel once the first `k` pixels, in scan
/// order, have been visited. A transparent pixel neither takes nor hands on
/// error.
pub open spec fn fs_cells(v: ImageView, k: nat) -> Seq<RGBColor>
    decreases k,
{
    if k == 0 {
        Seq::new((v.width * v.height) as nat, |i: int| zero())
    } else {
        let prev = fs_cells(v, (k - 1) as nat);
        let i = k - 1;
        if v.opaque[i] {
            spread(
                prev,
                v.opaque,
                i,
                v.width as int,
                v.height as int,
                diffusion_error(combine(v.colors[i], prev[i])),
            )
        } else {
            prev
        }
    }
}

/// What Floyd-Steinberg dithering gives every pixel of an image (the value
/// at a transparent pixel is not used).
pub open spec fn fs_pixels(v: ImageView) -> Seq<Color16> {
    Seq::new(
        (v.width * v.height) as nat,
        |i: int| quantize(combine(v.colors[i], fs_cells(v, i as nat)[i])),
    )
}

/// The sum of one channel over all cells.
pub open spec fn total(cells: Seq<RGBColor>, t: int) -> int
    decreases cells.len(),
{
    if cells.len() == 0 {
        0
    } else {
        total(cells.drop_last(), t) + chan(cells.last(), t)
    }
}

/// The sixteenths of a pixel's error that reach its neighbors.
pub open spec fn spread_weight(opaque: Seq<bool>, i: int, w: int, h: int) -> int {
    (if right_in(opaque, i, w, h) {
        7int
    } else {
        0
    }) + (if below_left_in(opaque, i, w, h) {
        3int
    } else {
        0
    }) + (if below_in(opaque, i, w, h) {
        5int
    } else {
        0
    }) + (if below_right_in(opaque, i, w, h) {
        1int
    } else {
        0
    })
}

/// A bound on the pending error of cell `j` once `k` pixels are visited:
/// 255 for each sixteenth that its neighbors before `k` could have handed on.
pub open spec fn pending_bound(j: int, k: int, w: int) -> int {
    255 * ((if j - 1 < k {
        7int
    } else {
        0
    }) + (if j - w + 1 < k {
        3int
    } else {
        0
    }) + (if j - w < k {
        5int
    } else {
        0
    }) + (if j - w - 1 < k {
        1int
    } else {
        0
    }))
}

pub open spec fn bounded_cells(cells: Seq<RGBColor>, k: int, w: int) -> bool {
    forall|j: int, t: int|
        0 <= j < cells.len() && 0 <= t < 3 ==> -pending_bound(j, k, w) <= #[trigger] chan(
            cells[j],
            t,
        ) <= pending_bound(j, k, w)
}

pub open spec fn small(c: RGBColor, m: int) -> bool {
    forall|t: int| 0 <= t < 3 ==> -m <= #[trigger] chan(c, t) <= m
}

proof fn lemma_scaled_add_chan(cells: Seq<RGBColor>, i: int, e: RGBColor, k: int, t: int)
    requires
        0 <= i < cells.len(),
        0 <= t < 3,
        0 < k <= 7,
        -0x1000_0000 <= chan(cells[i], t) <= 0x1000_0000,
        small(e, 0x100_0000),
    ensures
        chan(scaled_add(cells, i, e, k)[i], t) == chan(cells[i], t) + k * chan(e, t),
{
    assert(-0x100_0000 <= chan(e, 0) <= 0x100_0000);
    assert(-0x100_0000 <= chan(e, 1) <= 0x100_0000);
    assert(-0x100_0000 <= chan(e, 2) <= 0x100_0000);
    assert(forall|a: int| -0x100_0000 <= a <= 0x100_0000 ==> -0x0700_0000 <= #[trigger] (a * k)
        <= 0x0700_0000 && a * k == k * a) by (nonlinear_arith)
        requires
            0 < k <= 7,
    ;
    let a = e.r as int;
    assert(-0x0700_0000 <= a * k <= 0x0700_0000);
    let b = e.g as int;
    assert(-0x0700_0000 <= b * k <= 0x0700_0000);
    let c = e.b as int;
    assert(-0x0700_0000 <= c * k <= 0x0700_0000);
}

pub(crate) proof fn lemma_split_index(i: int, w: int, h: int)
    requires
        0 <= w,
        0 <= h,
        0 <= i < w * h,
    ensures
        w > 0,
        0 <= i % w < w,
        0 <= i / w < h,
        i == i % w + (i / w) * w,
        i - i % w + w <= w * h,
        i / w + 1 < h ==> i + w + (w - i % w) <= w * h,
{
    assert(w > 0) by (nonlinear_arith)
        requires
            0 <= i < w * h,
            0 <= w,
            0 <= h,
    ;
    vstd::arithmetic::div_mod::lemma_fundamental_div_mod(i, w);
    let x = i % w;
    let y = i / w;
    assert(0 <= x < w);
    assert(i == w * y + x);
    assert(y * w == w * y) by (nonlinear_arith);
    assert(0 <= y) by (nonlinear_arith)
        requires
            i == w * y + x,
            0 <= i,
            x < w,
            w > 0,
    ;
    assert(y < h) by (nonlinear_arith)
        requires
            0 <= i < w * h,
            i == w * y + x,
            0 <= x,
            w > 0,
    ;
    assert((y + 1) * w <= w * h && (y + 1) * w == y * w + w) by (nonlinear_arith)
        requires
            y + 1 <= h,
            w > 0,
    ;
    if y + 1 < h {
        assert((y + 2) * w <= w * h && (y + 2) * w == y * w + 2 * w) by (nonlinear_arith)
            requires
                y + 2 <= h,
                w > 0,
        ;
    }
}

/// Handing on one pixel's error keeps every cell within its bound.
proof fn lemma_spread_bounded(
    cells: Seq<RGBColor>,
    opaque: Seq<bool>,
    k: int,
    w: int,
    h: int,
    e: RGBColor,
)
    requires
        0 <= w,
        0 <= h,
        0 <= k < w * h,
        cells.len() == w * h,
        opaque.len() == w * h,
        bounded_cells(cells, k, w),
        small(e, 255),
    ensures
        bounded_cells(spread(cells, opaque, k, w, h, e), k + 1, w),
        spread(cells, opaque, k, w, h, e).len() == w * h,
{
    lemma_split_index(k, w, h);
    let n = w * h;
    let c1 = if right_in(opaque, k, w, h) {
        scaled_add(cells, k + 1, e, 7)
    } else {
        cells
    };
    let c2 = if below_left_in(opaque, k, w, h) {
        scaled_add(c1, k + w - 1, e, 3)
    } else {
        c1
    };
    let c3 = if below_in(opaque, k, w, h) {
        scaled_add(c2, k + w, e, 5)
    } else {
        c2
    };
    let c4 = spread(cells, opaque, k, w, h, e);
    assert(c1.len() == n && c2.len() == n && c3.len() == n && c4.len() == n);
    assert forall|j: int, t: int| 0 <= j < n && 0 <= t < 3 implies -pending_bound(j, k + 1, w)
        <= #[trigger] chan(c4[j], t) <= pending_bound(j, k + 1, w) by {
        assert(-pending_bound(j, k, w) <= chan(cells[j], t) <= pending_bound(j, k, w));
        if right_in(opaque, k, w, h) && j == k + 1 {
            lemma_scaled_add_chan(cells, k + 1, e, 7, t);
        }
        assert(-pending_bound(j, k + 1, w) <= chan(c1[j], t) <= pending_bound(j, k + 1, w));
        if below_left_in(opaque, k, w, h) && j == k + w - 1 {
            lemma_scaled_add_chan(c1, k + w - 1, e, 3, t);
        }
        assert(-pending_bound(j, k + 1, w) <= chan(c2[j], t) <= pending_bound(j, k + 1, w));
        if below_in(opaque, k, w, h) && j == k + w {
            lemma_scaled_add_chan(c2, k + w, e, 5, t);
        }
        assert(-pending_bound(j, k + 1, w) <= chan(c3[j], t) <= pending_bound(j, k + 1, w));
        if below_right_in(opaque, k, w, h) && j == k + w + 1 {
            lemma_scaled_add_chan(c3, k + w + 1, e, 1, t);
        }
    }
}


/// A source channel in [0, 255] with a pending error within 16 * 255
/// sixteenths sums to a value in [-255, 510].
pub(crate) proof fn lemma_combine_range(v: int, pending: int)
    requires
        0 <= v <= 255,
        -4080 <= pending <= 4080,
    ensures
        -255 <= combine_channel(v, pending) <= 510,
{
}

/// Quantization clamps, and the colors it stands for lie in [0, 255]: so the
/// error of a sum in [-255, 510] is within 255 either way.
pub(crate) proof fn lemma_error_small(m: RGBColor)
    requires
        -255 <= m.r <= 510,
        -255 <= m.g <= 510,
        -255 <= m.b <= 510,
    ensures
        small(diffusion_error(m), 255),
{
    let r = clamp(m.r as int, 0, 255) / 8;
    let g = clamp(m.g as int, 0, 255) / 4;
    let b = clamp(m.b as int, 0, 255) / 8;
    crate::color::lemma_pack_unpack(r, g, b);
    crate::color::lemma_expand5_quantizes_back(r);
    crate::color::lemma_expand6_quantizes_back(g);
    crate::color::lemma_expand5_quantizes_back(b);
}

/// The pending errors stay within their bounds all along the scan.
pub(crate) proof fn lemma_fs_cells_bounded(v: ImageView, k: nat)
    requires
        v.wf(),
        k <= v.width * v.height,
    ensures
        fs_cells(v, k).len() == v.width * v.height,
        bounded_cells(fs_cells(v, k), k as int, v.width as int),
    decreases k,
{
    let w = v.width as int;
    let h = v.height as int;
    if k > 0 {
        let prev = fs_cells(v, (k - 1) as nat);
        lemma_fs_cells_bounded(v, (k - 1) as nat);
        let i = k - 1;
        if v.opaque[i] {
            let m = combine(v.colors[i], prev[i]);
            assert(-4080 <= chan(prev[i], 0) <= 4080);
            assert(-4080 <= chan(prev[i], 1) <= 4080);
            assert(-4080 <= chan(prev[i], 2) <= 4080);
            lemma_combine_range(v.colors[i].r as int, prev[i].r as int);
            lemma_combine_range(v.colors[i].g as int, prev[i].g as int);
            lemma_combine_range(v.colors[i].b as int, prev[i].b as int);
            lemma_error_small(m);
            lemma_spread_bounded(prev, v.opaque, i, w, h, diffusion_error(m));
        }
    }
}

proof fn lemma_total_update(cells: Seq<RGBColor>, i: int, c: RGBColor, t: int)
    requires
        0 <= i < cells.len(),
    ensures
        total(cells.update(i, c), t) == total(cells, t) - chan(cells[i], t) + chan(c, t),
    decreases cells.len(),
{
    let u = cells.update(i, c);
    if i == cells.len() - 1 {
        assert(u.drop_last() =~= cells.drop_last());
    } else {
        lemma_total_update(cells.drop_last(), i, c, t);
        assert(u.drop_last() =~= cells.drop_last().update(i, c));
    }
}

proof fn lemma_total_scaled_add(cells: Seq<RGBColor>, i: int, e: RGBColor, k: int, t: int)
    requires
        0 <= i < cells.len(),
        0 <= t < 3,
        0 < k <= 7,
        -0x1000_0000 <= chan(cells[i], t) <= 0x1000_0000,
        small(e, 0x100_0000),
    ensures
        total(scaled_add(cells, i, e, k), t) == total(cells, t) + k * chan(e, t),
        scaled_add(cells, i, e, k).len() == cells.len(),
{
    lemma_scaled_add_chan(cells, i, e, k, t);
    lemma_total_update(cells, i, sum_of(cells[i], scale(e, k)), t);
}

/// Error diffusion creates no error: what the neighbors of a pixel receive
/// in all is its error times the sixteenths that reach a neighbor on the
/// image, and those are 7 + 3 + 5 + 1 = 16 where all four neighbors are on
/// it.
pub proof fn lemma_spread_conserves(
    cells: Seq<RGBColor>,
    opaque: Seq<bool>,
    k: int,
    w: int,
    h: int,
    e: RGBColor,
)
    requires
        0 <= w,
        0 <= h,
        0 <= k < w * h,
        cells.len() == w * h,
        opaque.len() == w * h,
        forall|j: int, t: int|
            0 <= j < cells.len() && 0 <= t < 3 ==> -0x0800_0000 <= #[trigger] chan(cells[j], t)
                <= 0x0800_0000,
        small(e, 0x0100_0000),
    ensures
        forall|t: int|
            0 <= t < 3 ==> #[trigger] total(spread(cells, opaque, k, w, h, e), t) == total(cells, t)
                + spread_weight(opaque, k, w, h) * chan(e, t),
        right_in(opaque, k, w, h) && below_left_in(opaque, k, w, h) && below_in(opaque, k, w, h)
            && below_right_in(opaque, k, w, h) ==> spread_weight(opaque, k, w, h) == 16,
{
    lemma_split_index(k, w, h);
    let c1 = if right_in(opaque, k, w, h) {
        scaled_add(cells, k + 1, e, 7)
    } else {
        cells
    };
    let c2 = if below_left_in(opaque, k, w, h) {
        scaled_add(c1, k + w - 1, e, 3)
    } else {
        c1
    };
    let c3 = if below_in(opaque, k, w, h) {
        scaled_add(c2, k + w, e, 5)
    } else {
        c2
    };
    assert forall|t: int| 0 <= t < 3 implies #[trigger] total(spread(cells, opaque, k, w, h, e), t)
        == total(cells, t) + spread_weight(opaque, k, w, h) * chan(e, t) by {
        let ce = chan(e, t);
        let r1 = if right_in(opaque, k, w, h) { 7 * ce } else { 0 };
        let r2 = if below_left_in(opaque, k, w, h) { 3 * ce } else { 0 };
        let r3 = if below_in(opaque, k, w, h) { 5 * ce } else { 0 };
        let r4 = if below_right_in(opaque, k, w, h) { ce } else { 0 };
        if right_in(opaque, k, w, h) {
            lemma_total_scaled_add(cells, k + 1, e, 7, t);
        }
        assert(total(c1, t) == total(cells, t) + r1);
        if below_left_in(opaque, k, w, h) {
            lemma_total_scaled_add(c1, k + w - 1, e, 3, t);
        }
        assert(total(c2, t) == total(cells, t) + r1 + r2);
        if below_in(opaque, k, w, h) {
            lemma_total_scaled_add(c2, k + w, e, 5, t);
        }
        assert(total(c3, t) == total(cells, t) + r1 + r2 + r3);
        if below_right_in(opaque, k, w, h) {
            lemma_total_scaled_add(c3, k + w + 1, e, 1, t);
        }
        assert(r1 + r2 + r3 + r4 == spread_weight(opaque, k, w, h) * ce) by (nonlinear_arith)
            requires
                r1 == (if right_in(opaque, k, w, h) { 7 * ce } else { 0 }),
                r2 == (if below_left_in(opaque, k, w, h) { 3 * ce } else { 0 }),
                r3 == (if below_in(opaque, k, w, h) { 5 * ce } else { 0 }),
                r4 == (if below_right_in(opaque, k, w, h) { ce } else { 0 }),
        ;
    }
}


/// The first pixel in scan order has no pending error, so error diffusion
/// gives it its posterized color; on a 1x1 image the two conversions agree.
pub proof fn lemma_fs_first_pixel(v: ImageView)
    requires
        v.wf(),
        v.width * v.height >= 1,
    ensures
        fs_pixels(v)[0] == posterize_pixels(v)[0],
        v.width * v.height == 1 ==> fs_pixels(v) == posterize_pixels(v),
{
    let c = v.colors[0];
    assert(fs_cells(v, 0)[0] == zero());
    assert(combine(c, zero()) == c);
    if v.width * v.height == 1 {
        assert(fs_pixels(v) =~= posterize_pixels(v));
    }
}

} // verus!
