use vstd::prelude::*;

verus! {

/// A packed 16-bit color: 5 bits of red, 6 bits of green, 5 bits of blue,
/// from the most significant bit down.
#[derive(Clone, Copy, Debug, PartialEq, Eq, Structural, Hash)]
pub struct Color16(pub u16);

/// The packed value of three channel levels, each within its range.
pub open spec fn pack(r: int, g: int, b: int) -> int {
    r * 2048 + g * 32 + b
}

/// The red level (five bits) of a packed value.
pub open spec fn red_of(v: u16) -> int {
    v as int / 2048
}

/// The green level (six bits) of a packed value.
pub open spec fn green_of(v: u16) -> int {
    (v as int / 32) % 64
}

/// The blue level (five bits) of a packed value.
pub open spec fn blue_of(v: u16) -> int {
    v as int % 32
}

pub open spec fn clamp(v: int, lo: int, hi: int) -> int {
    if v < lo {
        lo
    } else if v > hi {
        hi
    } else {
        v
    }
}

/// The 8-bit value that a 5-bit level stands for: `level * 255 / 31`, rounded.
pub open spec fn expand5(level: int) -> int {
    (level * 255 + 15) / 31
}

/// The 8-bit value that a 6-bit level stands for: `level * 255 / 63`, rounded.
pub open spec fn expand6(level: int) -> int {
    (level * 255 + 31) / 63
}

/// Reduction of a working color to the packed format: each channel is
/// clamped to [0, 255] and divided by its step (8, 4, 8), truncating.
pub open spec fn quantize(c: RGBColor) -> Color16 {
    Color16(
        pack(
            clamp(c.r as int, 0, 255) / 8,
            clamp(c.g as int, 0, 255) / 4,
            clamp(c.b as int, 0, 255) / 8,
        ) as u16,
    )
}

/// The working color that a packed color stands for.
pub open spec fn dequantize(c: Color16) -> RGBColor {
    RGBColor {
        r: expand5(red_of(c.0)) as i32,
        g: expand6(green_of(c.0)) as i32,
        b: expand5(blue_of(c.0)) as i32,
    }
}

/// Integer division that truncates toward zero.
pub open spec fn div_trunc(a: int, d: int) -> int {
    if a >= 0 {
        a / d
    } else {
        -((-a) / d)
    }
}

pub open spec fn fits_i32(v: int) -> bool {
    i32::MIN <= v <= i32::MAX
}

proof fn lemma_pack_bits(r: u16, g: u16, b: u16)
    ensures
        ((r & 31) << 11u16 | (g & 63) << 5u16 | (b & 31)) as int == pack(
            r as int % 32,
            g as int % 64,
            b as int % 32,
        ),
{
    assert(((r & 31) << 11u16 | (g & 63) << 5u16 | (b & 31)) == (r % 32) * 2048 + (g % 64) * 32 + (
    b % 32)) by (bit_vector);
}

proof fn lemma_unpack_bits(v: u16)
    ensures
        (v >> 11u16) as int == red_of(v),
        ((v >> 5u16) & 63) as int == green_of(v),
        (v & 31) as int == blue_of(v),
{
    assert(v >> 11u16 == v / 2048) by (bit_vector);
    assert((v >> 5u16) & 63 == (v / 32) % 64) by (bit_vector);
    assert(v & 31 == v % 32) by (bit_vector);
}

/// Packing three in-range levels and reading them back gives the same levels.
pub proof fn lemma_pack_unpack(r: int, g: int, b: int)
    requires
        0 <= r < 32,
        0 <= g < 64,
        0 <= b < 32,
    ensures
        0 <= pack(r, g, b) < 65536,
        red_of(pack(r, g, b) as u16) == r,
        green_of(pack(r, g, b) as u16) == g,
        blue_of(pack(r, g, b) as u16) == b,
{
    let v = pack(r, g, b);
    assert(v / 2048 == r);
    assert(v / 32 == r * 64 + g);
    assert((r * 64 + g) % 64 == g) by {
        vstd::arithmetic::div_mod::lemma_mod_multiples_vanish(r, g, 64);
    }
    assert(v % 32 == b);
}

/// Every packed value is the packing of its own three levels.
pub proof fn lemma_unpack_pack(v: u16)
    ensures
        0 <= red_of(v) < 32,
        0 <= green_of(v) < 64,
        0 <= blue_of(v) < 32,
        pack(red_of(v), green_of(v), blue_of(v)) == v as int,
{
    assert(v as int == (v as int / 32) * 32 + v as int % 32);
    let q = v as int / 32;
    assert(q == (q / 64) * 64 + q % 64);
    assert(q / 64 == v as int / 2048) by {
        vstd::arithmetic::div_mod::lemma_div_denominator(v as int, 32, 64);
    }
}

impl Color16 {
    /// Packs three channel levels; each is first reduced to its own width.
    pub fn new(r: u16, g: u16, b: u16) -> (c: Color16)
        ensures
            c.0 as int == pack(r as int % 32, g as int % 64, b as int % 32),
    {
        proof {
            lemma_pack_bits(r, g, b);
        }
        Color16((r & 31) << 11 | (g & 63) << 5 | (b & 31))
    }

    /// The three channel levels (red, green, blue) of this color.
    pub fn unpack(self) -> (levels: (u16, u16, u16))
        ensures
            levels.0 as int == red_of(self.0),
            levels.1 as int == green_of(self.0),
            levels.2 as int == blue_of(self.0),
    {
        proof {
            lemma_unpack_bits(self.0);
        }
        (self.0 >> 11, (self.0 >> 5) & 63, self.0 & 31)
    }

    /// The working color (8-bit channels) that this packed color stands for.
    pub fn to_rgb(self) -> (c: RGBColor)
        ensures
            c == dequantize(self),
    {
        let (r, g, b) = self.unpack();
        proof {
            lemma_unpack_pack(self.0);
        }
        RGBColor { r: expand_rb(r as i32), g: expand_g(g as i32), b: expand_rb(b as i32) }
    }
}

fn expand_rb(level: i32) -> (v: i32)
    requires
        0 <= level < 32,
    ensures
        v as int == expand5(level as int),
        0 <= v <= 255,
{
    (level * 255 + 15) / 31
}

fn expand_g(level: i32) -> (v: i32)
    requires
        0 <= level < 64,
    ensures
        v as int == expand6(level as int),
        0 <= v <= 255,
{
    (level * 255 + 31) / 63
}

fn clamp_i32(v: i32, lo: i32, hi: i32) -> (r: i32)
    requires
        lo <= hi,
    ensures
        r as int == clamp(v as int, lo as int, hi as int),
{
    if v < lo {
        lo
    } else if v > hi {
        hi
    } else {
        v
    }
}

/// A working color: signed channels with room for arithmetic beyond the
/// 8-bit range. Nothing is clamped until a value is quantized.
#[derive(Clone, Copy, Debug, PartialEq, Eq, Structural)]
pub struct RGBColor {
    pub r: i32,
    pub g: i32,
    pub b: i32,
}

impl RGBColor {
    pub fn new(r: i32, g: i32, b: i32) -> (c: RGBColor)
        ensures
            c == (RGBColor { r, g, b }),
    {
        RGBColor { r, g, b }
    }

    /// The channel levels of this color: each channel clamped to [0, 255]
    /// and divided by its step (8 for red and blue, 4 for green).
    pub fn to16bit(&self) -> (c: RGBColor)
        ensures
            c.r as int == clamp(self.r as int, 0, 255) / 8,
            c.g as int == clamp(self.g as int, 0, 255) / 4,
            c.b as int == clamp(self.b as int, 0, 255) / 8,
    {
        RGBColor {
            r: clamp_i32(self.r, 0, 255) / 8,
            g: clamp_i32(self.g, 0, 255) / 4,
            b: clamp_i32(self.b, 0, 255) / 8,
        }
    }

    /// The 8-bit color that these channel levels stand for; each level is
    /// first clamped to its range.
    pub fn to24bit(&self) -> (c: RGBColor)
        ensures
            c.r as int == expand5(clamp(self.r as int, 0, 31)),
            c.g as int == expand6(clamp(self.g as int, 0, 63)),
            c.b as int == expand5(clamp(self.b as int, 0, 31)),
    {
        RGBColor {
            r: expand_rb(clamp_i32(self.r, 0, 31)),
            g: expand_g(clamp_i32(self.g, 0, 63)),
            b: expand_rb(clamp_i32(self.b, 0, 31)),
        }
    }

    /// The gray of the same brightness: the mean of the three channels,
    /// truncated toward zero.
    pub fn gray(&self) -> (c: RGBColor)
        ensures
            c.r as int == div_trunc(self.r + self.g + self.b, 3),
            c.g == c.r,
            c.b == c.r,
    {
        let sum: i64 = self.r as i64 + self.g as i64 + self.b as i64;
        let mean: i64 = if sum >= 0 {
            sum / 3
        } else {
            -((-sum) / 3)
        };
        RGBColor { r: mean as i32, g: mean as i32, b: mean as i32 }
    }

    /// Channel-wise sum.
    pub fn plus(self, o: RGBColor) -> (c: RGBColor)
        requires
            fits_i32(self.r + o.r),
            fits_i32(self.g + o.g),
            fits_i32(self.b + o.b),
        ensures
            c.r == self.r + o.r,
            c.g == self.g + o.g,
            c.b == self.b + o.b,
    {
        RGBColor { r: self.r + o.r, g: self.g + o.g, b: self.b + o.b }
    }

    /// Channel-wise difference.
    pub fn minus(self, o: RGBColor) -> (c: RGBColor)
        requires
            fits_i32(self.r - o.r),
            fits_i32(self.g - o.g),
            fits_i32(self.b - o.b),
        ensures
            c.r == self.r - o.r,
            c.g == self.g - o.g,
            c.b == self.b - o.b,
    {
        RGBColor { r: self.r - o.r, g: self.g - o.g, b: self.b - o.b }
    }

    /// Every channel multiplied by `k`.
    pub fn times(self, k: i32) -> (c: RGBColor)
        requires
            fits_i32(self.r * k),
            fits_i32(self.g * k),
            fits_i32(self.b * k),
        ensures
            c.r == self.r * k,
            c.g == self.g * k,
            c.b == self.b * k,
    {
        RGBColor { r: self.r * k, g: self.g * k, b: self.b * k }
    }

    /// Packs channel levels: each is clamped to its range (31, 63, 31).
    pub fn to_color16(self) -> (c: Color16)
        ensures
            c.0 as int == pack(
                clamp(self.r as int, 0, 31),
                clamp(self.g as int, 0, 63),
                clamp(self.b as int, 0, 31),
            ),
            c == pack_levels(self),
    {
        let r = clamp_i32(self.r, 0, 31) as u16;
        let g = clamp_i32(self.g, 0, 63) as u16;
        let b = clamp_i32(self.b, 0, 31) as u16;
        Color16::new(r, g, b)
    }

    /// The packed color nearest below this 8-bit color.
    pub fn quantize(self) -> (c: Color16)
        ensures
            c == quantize(self),
    {
        self.to16bit().to_color16()
    }
}

/// Quantizing the color that a quantized color stands for gives it back:
/// quantize is stable under a dequantize round trip.
pub proof fn lemma_quantize_idempotent(c: RGBColor)
    ensures
        quantize(dequantize(quantize(c))) == quantize(c),
{
    let r = clamp(c.r as int, 0, 255) / 8;
    let g = clamp(c.g as int, 0, 255) / 4;
    let b = clamp(c.b as int, 0, 255) / 8;
    lemma_pack_unpack(r, g, b);
    lemma_expand5_quantizes_back(r);
    lemma_expand6_quantizes_back(g);
    lemma_expand5_quantizes_back(b);
}

pub(crate) proof fn lemma_expand5_quantizes_back(l: int)
    requires
        0 <= l < 32,
    ensures
        0 <= expand5(l) <= 255,
        expand5(l) / 8 == l,
{
    assert(0 <= expand5(l) <= 255 && expand5(l) / 8 == l) by (nonlinear_arith)
        requires
            0 <= l < 32,
    ;
}

pub(crate) proof fn lemma_expand6_quantizes_back(l: int)
    requires
        0 <= l < 64,
    ensures
        0 <= expand6(l) <= 255,
        expand6(l) / 4 == l,
{
    assert(0 <= expand6(l) <= 255 && expand6(l) / 4 == l) by (nonlinear_arith)
        requires
            0 <= l < 64,
    ;
}


/// Packing of channel levels, each clamped to its range (31, 63, 31).
pub open spec fn pack_levels(c: RGBColor) -> Color16 {
    Color16(pack(clamp(c.r as int, 0, 31), clamp(c.g as int, 0, 63), clamp(c.b as int, 0, 31)) as u16)
}

impl From<RGBColor> for Color16 {
    fn from(c: RGBColor) -> (r: Color16) {
        c.to_color16()
    }
}

impl vstd::std_specs::convert::FromSpecImpl<RGBColor> for Color16 {
    open spec fn obeys_from_spec() -> bool {
        true
    }

    open spec fn from_spec(c: RGBColor) -> Color16 {
        pack_levels(c)
    }
}

impl From<Color16> for RGBColor {
    fn from(c: Color16) -> (r: RGBColor) {
        c.to_rgb()
    }
}

impl vstd::std_specs::convert::FromSpecImpl<Color16> for RGBColor {
    open spec fn obeys_from_spec() -> bool {
        true
    }

    open spec fn from_spec(c: Color16) -> RGBColor {
        dequantize(c)
    }
}

} // verus!
