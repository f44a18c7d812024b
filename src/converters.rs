use vstd::prelude::*;

use crate::background::{exhausted, is_key, AllocError, BackgroundColor, KeyPolicy};
use crate::color::{Color16, RGBColor};
use crate::dither::{
    below_in, below_left_in, bounded_cells, chan, combine, combine_channel, diffusion_error,
    dither_channel, fs_cells, fs_pixels, lemma_fs_cells_bounded, ordered_pixel, ordered_pixels,
    pending_bound, posterize_pixels, right_in, scaled_add, spread, threshold, Pattern, BAYER_4X4,
    BAYER_8X8,
};
use crate::image::{ImageView, PixelGrid, RgbImage, RgbaImage};
use crate::plane::RGBPlane;
use crate::texture::{Texture, TextureView};

verus! {

/// The packed values that the opaque pixels among the first `k` receive.
pub open spec fn opaque_colors_upto(v: ImageView, px: Seq<Color16>, k: int) -> Set<u16> {
    Set::new(|c: u16| exists|i: int| 0 <= i < k && v.opaque[i] && #[trigger] px[i].0 == c)
}

/// The packed values that the opaque pixels of the image receive.
pub open spec fn opaque_colors(v: ImageView, px: Seq<Color16>) -> Set<u16> {
    opaque_colors_upto(v, px, v.width * v.height)
}

/// `t` is the texture of an opaque image whose pixels convert to `px`.
pub open spec fn plain_result(t: TextureView, v: ImageView, px: Seq<Color16>) -> bool {
    t == TextureView { width: v.width, height: v.height, pixels: px, key: None }
}

/// `t` is the texture of an image whose opaque pixels convert to `px`: the
/// transparency key is the key that `policy` picks for the colors they use,
/// and it fills every transparent pixel.
pub open spec fn keyed_result(t: TextureView, v: ImageView, px: Seq<Color16>, policy: KeyPolicy) -> bool {
    &&& t.wf()
    &&& t.width == v.width
    &&& t.height == v.height
    &&& t.key is Some
    &&& is_key(opaque_colors(v, px), policy, (t.key->0).0)
    &&& forall|i: int|
        0 <= i < t.pixels.len() ==> #[trigger] t.pixels[i] == if v.opaque[i] {
            px[i]
        } else {
            t.key->0
        }
}

/// What a transparent conversion returns: the keyed texture, or an error
/// exactly when the opaque pixels use every color.
pub open spec fn keyed_outcome(
    r: Result<Texture, AllocError>,
    v: ImageView,
    px: Seq<Color16>,
    policy: KeyPolicy,
) -> bool {
    match r {
        Ok(t) => keyed_result(t@, v, px, policy),
        Err(_) => exhausted(opaque_colors(v, px)),
    }
}

/// What the direct conversions (posterize, or ordered dithering with a
/// pattern) give every pixel.
pub open spec fn direct_pixels(v: ImageView, pattern: Option<Pattern>) -> Seq<Color16> {
    match pattern {
        None => posterize_pixels(v),
        Some(p) => ordered_pixels(v, p),
    }
}

proof fn lemma_position(k: int, x: int, y: int, w: int)
    requires
        0 <= x < w,
        k == x + y * w,
    ensures
        k % w == x,
        k / w == y,
{
    vstd::arithmetic::div_mod::lemma_fundamental_div_mod_converse(k, w, y, x);
}

/// Moving one pixel on in scan order keeps `k == x + y * w`.
proof fn lemma_scan_step(k: int, x: int, y: int, w: int, h: int)
    requires
        0 <= x < w,
        0 <= y,
        k == x + y * w,
        k < w * h,
    ensures
        x + 1 < w ==> k + 1 == (x + 1) + y * w,
        x + 1 == w ==> k + 1 == 0 + (y + 1) * w,
        x + 1 == w && k + 1 < w * h ==> y + 1 < h,
        x + 1 < w ==> y < h,
{
    assert((y + 1) * w == y * w + w) by (nonlinear_arith);
    if y >= h {
        assert(y * w >= h * w) by (nonlinear_arith)
            requires
                y >= h,
                w > 0,
        ;
        assert(h * w == w * h) by (nonlinear_arith);
    }
    if x + 1 == w && k + 1 < w * h && y + 1 >= h {
        assert((y + 1) * w >= h * w) by (nonlinear_arith)
            requires
                y + 1 >= h,
                w > 0,
        ;
        assert(h * w == w * h) by (nonlinear_arith);
    }
}

proof fn lemma_nonempty_sides(w: int, h: int)
    requires
        0 <= w,
        0 <= h,
    ensures
        0 < w * h ==> 0 < w && 0 < h,
{
    if w == 0 || h == 0 {
        assert(w * h == 0) by (nonlinear_arith)
            requires
                w == 0 || h == 0,
        ;
    }
}

proof fn lemma_used_step(v: ImageView, px: Seq<Color16>, k: int)
    requires
        0 <= k,
    ensures
        opaque_colors_upto(v, px, k + 1) == if v.opaque[k] {
            opaque_colors_upto(v, px, k).insert(px[k].0)
        } else {
            opaque_colors_upto(v, px, k)
        },
{
    let a = opaque_colors_upto(v, px, k + 1);
    let b = opaque_colors_upto(v, px, k);
    if v.opaque[k] {
        assert forall|c: u16| a.contains(c) <==> b.insert(px[k].0).contains(c) by {
            if a.contains(c) && c != px[k].0 {
                let i = choose|i: int| 0 <= i < k + 1 && v.opaque[i] && #[trigger] px[i].0 == c;
                assert(i < k);
            }
            if b.contains(c) {
                let i = choose|i: int| 0 <= i < k && v.opaque[i] && #[trigger] px[i].0 == c;
                assert(0 <= i < k + 1);
            }
        }
        assert(a =~= b.insert(px[k].0));
    } else {
        assert forall|c: u16| a.contains(c) <==> b.contains(c) by {
            if a.contains(c) {
                let i = choose|i: int| 0 <= i < k + 1 && v.opaque[i] && #[trigger] px[i].0 == c;
                assert(i < k);
            }
            if b.contains(c) {
                let i = choose|i: int| 0 <= i < k && v.opaque[i] && #[trigger] px[i].0 == c;
                assert(0 <= i < k + 1);
            }
        }
        assert(a =~= b);
    }
}

fn threshold_at(p: Pattern, x: u32, y: u32) -> (l: i32)
    ensures
        l == threshold(p, x as int, y as int),
{
    match p {
        Pattern::Bayer4 => BAYER_4X4[((x % 8) % 4 + ((y % 8) % 4) * 4) as usize],
        Pattern::Bayer8 => BAYER_8X8[(x % 8 + (y % 8) * 8) as usize],
    }
}

fn dither_value(v: i32, level: i32, count: i32, steps: i32) -> (d: i32)
    requires
        0 <= v <= 255,
        count == 16 || count == 64,
        steps == 31 || steps == 63,
    ensures
        d == dither_channel(v as int, level as int, count as int, steps as int),
        0 <= d <= 255,
{
    assert(0 < 2 * count * steps <= 8064) by (nonlinear_arith)
        requires
            count == 16 || count == 64,
            steps == 31 || steps == 63,
    ;
    let den: i64 = 2 * count as i64 * steps as i64;
    assert(0 <= den * v <= 8064 * 255) by (nonlinear_arith)
        requires
            0 < den <= 8064,
            0 <= v <= 255,
    ;
    let num: i64 = den * v as i64 + (2 * level as i64 - count as i64) * 255;
    if num < 0 {
        assert(num / den < 0) by (nonlinear_arith)
            requires
                num < 0,
                den > 0,
        ;
        0
    } else if num / den > 255 {
        255
    } else {
        (num / den) as i32
    }
}

/// The color that ordered dithering gives a pixel of color `c` at (x, y).
fn ordered_value(c: RGBColor, p: Pattern, x: u32, y: u32) -> (q: Color16)
    requires
        0 <= c.r <= 255,
        0 <= c.g <= 255,
        0 <= c.b <= 255,
    ensures
        q == ordered_pixel(c, p, x as int, y as int),
{
    let level = threshold_at(p, x, y);
    let count: i32 = match p {
        Pattern::Bayer4 => 16,
        Pattern::Bayer8 => 64,
    };
    let m = RGBColor {
        r: dither_value(c.r, level, count, 31),
        g: dither_value(c.g, level, count, 63),
        b: dither_value(c.b, level, count, 31),
    };
    m.quantize()
}

/// Converts the opaque pixels one by one, each on its own; the used colors
/// are gathered on the way.
fn direct_pass(g: &PixelGrid, pattern: Option<Pattern>) -> (r: (Texture, BackgroundColor))
    requires
        g.view().wf(),
    ensures
        r.0@.wf(),
        r.0@.width == g.view().width,
        r.0@.height == g.view().height,
        r.0@.key is None,
        forall|i: int|
            0 <= i < r.0@.pixels.len() && g.view().opaque[i] ==> #[trigger] r.0@.pixels[i]
                == direct_pixels(g.view(), pattern)[i],
        r.1.wf(),
        r.1@ == opaque_colors(g.view(), direct_pixels(g.view(), pattern)),
{
    let ghost v = g.view();
    let ghost px = direct_pixels(v, pattern);
    let w = g.width;
    let h = g.height;
    let n = g.colors.len();
    let mut tex = Texture::new(w, h);
    let mut used = BackgroundColor::new();
    let mut k: usize = 0;
    let mut x: u32 = 0;
    let mut y: u32 = 0;
    proof {
        lemma_nonempty_sides(w as int, h as int);
    }
    assert(opaque_colors_upto(v, px, 0) =~= Set::<u16>::empty());
    while k < n
        invariant
            v == g.view(),
            px == direct_pixels(v, pattern),
            v.wf(),
            n == w * h,
            w == v.width,
            h == v.height,
            k <= n,
            k == x + y * w,
            k < n ==> x < w && y < h,
            tex@.wf(),
            tex@.width == w,
            tex@.height == h,
            tex@.key is None,
            forall|i: int|
                0 <= i < k && v.opaque[i] ==> #[trigger] tex@.pixels[i] == px[i],
            used.wf(),
            used@ == opaque_colors_upto(v, px, k as int),
        decreases n - k,
    {
        proof {
            lemma_position(k as int, x as int, y as int, w as int);
            lemma_used_step(v, px, k as int);
        }
        if g.opaque[k] {
            let c = g.colors[k];
            let q = match pattern {
                None => c.quantize(),
                Some(p) => ordered_value(c, p, x, y),
            };
            tex.set(x, y, q);
            used.add(q);
        }
        proof {
            lemma_scan_step(k as int, x as int, y as int, w as int, h as int);
        }
        k += 1;
        if x + 1 < w {
            x += 1;
        } else {
            x = 0;
            y += 1;
        }
    }
    (tex, used)
}

/// Chooses the key among the unused colors and fills the transparent
/// pixels with it.
fn fill_transparent(
    g: &PixelGrid,
    tex: Texture,
    used: &BackgroundColor,
    policy: KeyPolicy,
    Ghost(px): Ghost<Seq<Color16>>,
) -> (r: Result<Texture, AllocError>)
    requires
        g.view().wf(),
        tex@.wf(),
        tex@.width == g.view().width,
        tex@.height == g.view().height,
        forall|i: int|
            0 <= i < tex@.pixels.len() && g.view().opaque[i] ==> #[trigger] tex@.pixels[i] == px[i],
        used.wf(),
        used@ == opaque_colors(g.view(), px),
    ensures
        keyed_outcome(r, g.view(), px, policy),
{
    let ghost v = g.view();
    let key = match used.find_with(policy) {
        Ok(c) => c,
        Err(e) => {
            return Err(e);
        },
    };
    let mut tex = tex;
    let w = g.width;
    let h = g.height;
    let n = g.colors.len();
    let mut k: usize = 0;
    let mut x: u32 = 0;
    let mut y: u32 = 0;
    proof {
        lemma_nonempty_sides(w as int, h as int);
    }
    while k < n
        invariant
            v == g.view(),
            v.wf(),
            n == w * h,
            w == v.width,
            h == v.height,
            k <= n,
            k == x + y * w,
            k < n ==> x < w && y < h,
            tex@.wf(),
            tex@.width == w,
            tex@.height == h,
            forall|i: int|
                0 <= i < n && v.opaque[i] ==> #[trigger] tex@.pixels[i] == px[i],
            forall|i: int| 0 <= i < k && !v.opaque[i] ==> #[trigger] tex@.pixels[i] == key,
        decreases n - k,
    {
        proof {
            lemma_position(k as int, x as int, y as int, w as int);
        }
        if !g.opaque[k] {
            tex.set(x, y, key);
        }
        proof {
            lemma_scan_step(k as int, x as int, y as int, w as int, h as int);
        }
        k += 1;
        if x + 1 < w {
            x += 1;
        } else {
            x = 0;
            y += 1;
        }
    }
    tex.set_transparent_color(Some(key));
    Ok(tex)
}


/// Converts an opaque image by quantizing each pixel on its own.
pub fn convert_posterize(image: &RgbImage) -> (t: Texture)
    requires
        image.wf(),
    ensures
        plain_result(t@, image@, posterize_pixels(image@)),
{
    let (tex, _) = direct_pass(image.grid(), None);
    assert(tex@.pixels =~= posterize_pixels(image@));
    tex
}

/// Converts an image with alpha by quantizing each opaque pixel on its own;
/// the transparent ones get the key.
pub fn convert_posterize_transparent(image: &RgbaImage) -> (r: Result<Texture, AllocError>)
    requires
        image.wf(),
    ensures
        keyed_outcome(r, image@, posterize_pixels(image@), KeyPolicy::Priority),
{
    let (tex, used) = direct_pass(image.grid(), None);
    fill_transparent(image.grid(), tex, &used, KeyPolicy::Priority, Ghost(posterize_pixels(image@)))
}

fn ordered_dithering(image: &RgbImage, p: Pattern) -> (t: Texture)
    requires
        image.wf(),
    ensures
        plain_result(t@, image@, ordered_pixels(image@, p)),
{
    let (tex, _) = direct_pass(image.grid(), Some(p));
    assert(tex@.pixels =~= ordered_pixels(image@, p));
    tex
}

fn ordered_dithering_transparent(image: &RgbaImage, p: Pattern) -> (r: Result<Texture, AllocError>)
    requires
        image.wf(),
    ensures
        keyed_outcome(r, image@, ordered_pixels(image@, p), KeyPolicy::Priority),
{
    let (tex, used) = direct_pass(image.grid(), Some(p));
    fill_transparent(image.grid(), tex, &used, KeyPolicy::Priority, Ghost(ordered_pixels(image@, p)))
}

/// Converts an opaque image with ordered dithering by the 4x4 matrix.
pub fn convert_ordered4(image: &RgbImage) -> (t: Texture)
    requires
        image.wf(),
    ensures
        plain_result(t@, image@, ordered_pixels(image@, Pattern::Bayer4)),
{
    ordered_dithering(image, Pattern::Bayer4)
}

/// Converts an opaque image with ordered dithering by the 8x8 matrix.
pub fn convert_ordered8(image: &RgbImage) -> (t: Texture)
    requires
        image.wf(),
    ensures
        plain_result(t@, image@, ordered_pixels(image@, Pattern::Bayer8)),
{
    ordered_dithering(image, Pattern::Bayer8)
}

/// Converts an image with alpha with ordered dithering by the 4x4 matrix;
/// the transparent pixels get the key.
pub fn convert_ordered4_transparent(image: &RgbaImage) -> (r: Result<Texture, AllocError>)
    requires
        image.wf(),
    ensures
        keyed_outcome(r, image@, ordered_pixels(image@, Pattern::Bayer4), KeyPolicy::Priority),
{
    ordered_dithering_transparent(image, Pattern::Bayer4)
}

/// Converts an image with alpha with ordered dithering by the 8x8 matrix;
/// the transparent pixels get the key.
pub fn convert_ordered8_transparent(image: &RgbaImage) -> (r: Result<Texture, AllocError>)
    requires
        image.wf(),
    ensures
        keyed_outcome(r, image@, ordered_pixels(image@, Pattern::Bayer8), KeyPolicy::Priority),
{
    ordered_dithering_transparent(image, Pattern::Bayer8)
}


fn combine_value(v: i32, pending: i32) -> (r: i32)
    requires
        0 <= v <= 255,
        -4080 <= pending <= 4080,
    ensures
        r == combine_channel(v as int, pending as int),
        -255 <= r <= 510,
{
    proof {
        crate::dither::lemma_combine_range(v as int, pending as int);
    }
    let s = 16 * v + pending;
    if s >= 0 {
        s / 16
    } else {
        -((-s) / 16)
    }
}

/// The source color with its pending error, as fed to quantization; not
/// clamped.
fn combine_color(c: RGBColor, pending: RGBColor) -> (m: RGBColor)
    requires
        0 <= c.r <= 255,
        0 <= c.g <= 255,
        0 <= c.b <= 255,
        -4080 <= pending.r <= 4080,
        -4080 <= pending.g <= 4080,
        -4080 <= pending.b <= 4080,
    ensures
        m == combine(c, pending),
        -255 <= m.r <= 510,
        -255 <= m.g <= 510,
        -255 <= m.b <= 510,
{
    RGBColor {
        r: combine_value(c.r, pending.r),
        g: combine_value(c.g, pending.g),
        b: combine_value(c.b, pending.b),
    }
}

/// Hands the error `e` of pixel `k` at (x, y) on to its neighbors.
fn diffuse(plane: &mut RGBPlane, g: &PixelGrid, k: usize, x: u32, y: u32, e: RGBColor)
    requires
        g.view().wf(),
        old(plane)@.wf(),
        old(plane)@.width == g.view().width,
        old(plane)@.height == g.view().height,
        k < g.view().width * g.view().height,
        k == x + y * g.view().width,
        x < g.view().width,
        bounded_cells(old(plane)@.cells, k as int, g.view().width as int),
        -255 <= e.r <= 255,
        -255 <= e.g <= 255,
        -255 <= e.b <= 255,
    ensures
        final(plane)@.wf(),
        final(plane)@.width == old(plane)@.width,
        final(plane)@.height == old(plane)@.height,
        final(plane)@.cells == spread(
            old(plane)@.cells,
            g.view().opaque,
            k as int,
            g.view().width as int,
            g.view().height as int,
            e,
        ),
{
    let ghost v = g.view();
    let ghost cells = old(plane)@.cells;
    let ghost wi = v.width as int;
    let ghost hi = v.height as int;
    let w = g.width;
    let h = g.height;
    let n = g.colors.len();
    proof {
        crate::dither::lemma_split_index(k as int, wi, hi);
        lemma_position(k as int, x as int, y as int, wi);
        assert((y + 1) * wi == y * wi + wi) by (nonlinear_arith);
        assert(forall|j: int, t: int|
            0 <= j < cells.len() && 0 <= t < 3 ==> -4080 <= #[trigger] chan(cells[j], t) <= 4080);
    }
    let ghost c1 = if right_in(v.opaque, k as int, wi, hi) {
        scaled_add(cells, k + 1, e, 7)
    } else {
        cells
    };
    let ghost c2 = if below_left_in(v.opaque, k as int, wi, hi) {
        scaled_add(c1, k + wi - 1, e, 3)
    } else {
        c1
    };
    let ghost c3 = if below_in(v.opaque, k as int, wi, hi) {
        scaled_add(c2, k + wi, e, 5)
    } else {
        c2
    };
    if x + 1 < w && g.opaque[k + 1] {
        assert(chan(cells[k + 1], 0) == cells[k + 1].r);
        assert(chan(cells[k + 1], 1) == cells[k + 1].g);
        assert(chan(cells[k + 1], 2) == cells[k + 1].b);
        plane.add(x + 1, y, e.times(7));
    }
    assert(plane@.cells == c1);
    if y + 1 < h {
        if x > 0 && g.opaque[k + w as usize - 1] {
            assert(chan(c1[k + wi - 1], 0) == c1[k + wi - 1].r);
            assert(chan(c1[k + wi - 1], 1) == c1[k + wi - 1].g);
            assert(chan(c1[k + wi - 1], 2) == c1[k + wi - 1].b);
            plane.add(x - 1, y + 1, e.times(3));
        }
        assert(plane@.cells == c2);
        if g.opaque[k + w as usize] {
            assert(chan(c2[k + wi], 0) == c2[k + wi].r);
            assert(chan(c2[k + wi], 1) == c2[k + wi].g);
            assert(chan(c2[k + wi], 2) == c2[k + wi].b);
            plane.add(x, y + 1, e.times(5));
        }
        assert(plane@.cells == c3);
        if x + 1 < w && g.opaque[k + w as usize + 1] {
            assert(chan(c3[k + wi + 1], 0) == c3[k + wi + 1].r);
            assert(chan(c3[k + wi + 1], 1) == c3[k + wi + 1].g);
            assert(chan(c3[k + wi + 1], 2) == c3[k + wi + 1].b);
            plane.add(x + 1, y + 1, e.times(1));
        }
    }
}

/// The packed color of the opaque pixel `k` at (x, y), from its source
/// color and its pending error, and the error it hands on.
fn fs_quantize(plane: &RGBPlane, g: &PixelGrid, k: usize, x: u32, y: u32) -> (r: (Color16, RGBColor))
    requires
        g.view().wf(),
        k < g.view().width * g.view().height,
        k == x + y * g.view().width,
        x < g.view().width,
        y < g.view().height,
        plane@.wf(),
        plane@.width == g.view().width,
        plane@.height == g.view().height,
        plane@.cells == fs_cells(g.view(), k as nat),
        bounded_cells(plane@.cells, k as int, g.view().width as int),
    ensures
        r.0 == fs_pixels(g.view())[k as int],
        r.1 == diffusion_error(combine(g.view().colors[k as int], plane@.cells[k as int])),
        -255 <= r.1.r <= 255,
        -255 <= r.1.g <= 255,
        -255 <= r.1.b <= 255,
{
    let ghost v = g.view();
    let pending = plane.get(x, y);
    proof {
        let cells = plane@.cells;
        let w = v.width as int;
        assert(-pending_bound(k as int, k as int, w) <= chan(cells[k as int], 0)
            <= pending_bound(k as int, k as int, w));
        assert(-pending_bound(k as int, k as int, w) <= chan(cells[k as int], 1)
            <= pending_bound(k as int, k as int, w));
        assert(-pending_bound(k as int, k as int, w) <= chan(cells[k as int], 2)
            <= pending_bound(k as int, k as int, w));
    }
    let m = combine_color(g.colors[k], pending);
    let q = m.quantize();
    let d = q.to_rgb();
    proof {
        crate::dither::lemma_error_small(m);
        assert(-255 <= chan(diffusion_error(m), 0) <= 255);
        assert(-255 <= chan(diffusion_error(m), 1) <= 255);
        assert(-255 <= chan(diffusion_error(m), 2) <= 255);
    }
    let e = m.minus(d);
    (q, e)
}

/// Converts the opaque pixels in scan order, each with the error that its
/// visited neighbors handed on; the used colors are gathered on the way.
fn fs_pass(g: &PixelGrid) -> (r: (Texture, BackgroundColor))
    requires
        g.view().wf(),
    ensures
        r.0@.wf(),
        r.0@.width == g.view().width,
        r.0@.height == g.view().height,
        r.0@.key is None,
        forall|i: int|
            0 <= i < r.0@.pixels.len() && g.view().opaque[i] ==> #[trigger] r.0@.pixels[i]
                == fs_pixels(g.view())[i],
        r.1.wf(),
        r.1@ == opaque_colors(g.view(), fs_pixels(g.view())),
{
    let ghost v = g.view();
    let ghost px = fs_pixels(v);
    let w = g.width;
    let h = g.height;
    let n = g.colors.len();
    let mut tex = Texture::new(w, h);
    let mut plane = RGBPlane::new(w, h);
    let mut used = BackgroundColor::new();
    let mut k: usize = 0;
    let mut x: u32 = 0;
    let mut y: u32 = 0;
    proof {
        lemma_nonempty_sides(w as int, h as int);
    }
    assert(opaque_colors_upto(v, px, 0) =~= Set::<u16>::empty());
    assert(plane@.cells =~= fs_cells(v, 0));
    while k < n
        invariant
            v == g.view(),
            px == fs_pixels(v),
            v.wf(),
            n == w * h,
            w == v.width,
            h == v.height,
            k <= n,
            k == x + y * w,
            k < n ==> x < w && y < h,
            tex@.wf(),
            tex@.width == w,
            tex@.height == h,
            tex@.key is None,
            forall|i: int|
                0 <= i < k && v.opaque[i] ==> #[trigger] tex@.pixels[i] == px[i],
            plane@.wf(),
            plane@.width == w,
            plane@.height == h,
            plane@.cells == fs_cells(v, k as nat),
            used.wf(),
            used@ == opaque_colors_upto(v, px, k as int),
        decreases n - k,
    {
        proof {
            lemma_position(k as int, x as int, y as int, w as int);
            lemma_used_step(v, px, k as int);
            lemma_fs_cells_bounded(v, k as nat);
        }
        if g.opaque[k] {
            let (q, e) = fs_quantize(&plane, g, k, x, y);
            tex.set(x, y, q);
            used.add(q);
            diffuse(&mut plane, g, k, x, y, e);
        }
        proof {
            lemma_scan_step(k as int, x as int, y as int, w as int, h as int);
        }
        k += 1;
        if x + 1 < w {
            x += 1;
        } else {
            x = 0;
            y += 1;
        }
    }
    (tex, used)
}

/// Converts an opaque image with Floyd-Steinberg error diffusion.
pub fn convert_fs(image: &RgbImage) -> (t: Texture)
    requires
        image.wf(),
    ensures
        plain_result(t@, image@, fs_pixels(image@)),
{
    let (tex, _) = fs_pass(image.grid());
    assert(tex@.pixels =~= fs_pixels(image@));
    tex
}

/// Converts an image with alpha with Floyd-Steinberg error diffusion; the
/// transparent pixels neither take nor hand on error, and get the key.
pub fn convert_fs_transparent(image: &RgbaImage) -> (r: Result<Texture, AllocError>)
    requires
        image.wf(),
    ensures
        keyed_outcome(r, image@, fs_pixels(image@), KeyPolicy::Priority),
{
    let (tex, used) = fs_pass(image.grid());
    fill_transparent(image.grid(), tex, &used, KeyPolicy::Priority, Ghost(fs_pixels(image@)))
}


/// A conversion method: how the pixels are reduced to the packed format.
#[derive(Clone, Copy, Debug, PartialEq, Eq, Structural)]
pub enum Method {
    Posterize,
    FloydSteinberg,
    Ordered4,
    Ordered8,
}

/// What `method` gives every pixel of an image.
pub open spec fn method_pixels(v: ImageView, method: Method) -> Seq<Color16> {
    match method {
        Method::Posterize => posterize_pixels(v),
        Method::FloydSteinberg => fs_pixels(v),
        Method::Ordered4 => ordered_pixels(v, Pattern::Bayer4),
        Method::Ordered8 => ordered_pixels(v, Pattern::Bayer8),
    }
}

/// Converts an opaque image by `method`.
pub fn convert(image: &RgbImage, method: Method) -> (t: Texture)
    requires
        image.wf(),
    ensures
        plain_result(t@, image@, method_pixels(image@, method)),
{
    match method {
        Method::Posterize => convert_posterize(image),
        Method::FloydSteinberg => convert_fs(image),
        Method::Ordered4 => convert_ordered4(image),
        Method::Ordered8 => convert_ordered8(image),
    }
}

/// Converts an image with alpha by `method`; the transparent pixels get the
/// key that `policy` picks among the colors the opaque pixels leave unused.
pub fn convert_transparent(image: &RgbaImage, method: Method, policy: KeyPolicy) -> (r: Result<
    Texture,
    AllocError,
>)
    requires
        image.wf(),
    ensures
        keyed_outcome(r, image@, method_pixels(image@, method), policy),
{
    let (tex, used) = match method {
        Method::Posterize => direct_pass(image.grid(), None),
        Method::FloydSteinberg => fs_pass(image.grid()),
        Method::Ordered4 => direct_pass(image.grid(), Some(Pattern::Bayer4)),
        Method::Ordered8 => direct_pass(image.grid(), Some(Pattern::Bayer8)),
    };
    fill_transparent(image.grid(), tex, &used, policy, Ghost(method_pixels(image@, method)))
}


/// A conversion is a function of its input: two textures that both meet the
/// contract of an opaque conversion of the same image are the same texture.
pub proof fn lemma_plain_deterministic(t1: TextureView, t2: TextureView, v: ImageView, method: Method)
    requires
        plain_result(t1, v, method_pixels(v, method)),
        plain_result(t2, v, method_pixels(v, method)),
    ensures
        t1 == t2,
{
}

/// The same holds of the conversions with a transparency key: the key and
/// with it every pixel are fixed by the image, the method and the policy.
pub proof fn lemma_keyed_deterministic(
    t1: TextureView,
    t2: TextureView,
    v: ImageView,
    method: Method,
    policy: KeyPolicy,
)
    requires
        keyed_result(t1, v, method_pixels(v, method), policy),
        keyed_result(t2, v, method_pixels(v, method), policy),
    ensures
        t1 == t2,
{
    let px = method_pixels(v, method);
    crate::background::lemma_key_unique(
        opaque_colors(v, px),
        policy,
        (t1.key->0).0,
        (t2.key->0).0,
    );
    assert(t1.key == t2.key);
    assert(t1.pixels =~= t2.pixels);
}

} // verus!
