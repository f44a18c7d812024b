use vstd::prelude::*;

use crate::color::Color16;
use crate::wire::{decode, encode, header_len, key_bytes, le16, le32, pixel_bytes, read_u16, read_u32};

verus! {

/// What a texture holds: its size, its pixels in row-major order and its
/// transparency key.
pub struct TextureView {
    pub width: u32,
    pub height: u32,
    pub pixels: Seq<Color16>,
    pub key: Option<Color16>,
}

/// A texture in the packed 16-bit format.
pub struct Texture {
    data: Vec<Color16>,
    width: u32,
    height: u32,
    transparent_color: Option<Color16>,
}

impl View for Texture {
    type V = TextureView;

    closed spec fn view(&self) -> TextureView {
        TextureView {
            width: self.width,
            height: self.height,
            pixels: self.data@,
            key: self.transparent_color,
        }
    }
}

/// The position in the pixel buffer of the pixel at column `x`, row `y`.
pub open spec fn pixel_index(x: int, y: int, width: int) -> int {
    x + y * width
}

impl TextureView {
    /// The pixel buffer holds exactly one pixel per position.
    pub open spec fn wf(self) -> bool {
        self.pixels.len() == self.width * self.height
    }
}

/// Why a byte sequence is not a texture.
#[derive(Clone, Copy, Debug, PartialEq, Eq, Structural)]
pub enum DecodeError {
    /// Fewer bytes than the header announces.
    Truncated,
    /// The key flag is neither 0 nor 1.
    BadKeyFlag,
    /// More bytes than the header announces.
    TrailingBytes,
}

pub(crate) proof fn lemma_index_in_bounds(x: int, y: int, w: int, h: int)
    requires
        0 <= x < w,
        0 <= y < h,
    ensures
        0 <= pixel_index(x, y, w) < w * h,
{
    assert(y * w <= (h - 1) * w) by (nonlinear_arith)
        requires
            0 <= y < h,
            0 <= w,
    ;
    assert((h - 1) * w + w == w * h) by (nonlinear_arith);
    assert(0 <= y * w) by (nonlinear_arith)
        requires
            0 <= y,
            0 <= w,
    ;
}

impl Texture {
    /// A black texture of the given size, without a transparency key.
    pub fn new(width: u32, height: u32) -> (t: Texture)
        requires
            width * height <= usize::MAX,
        ensures
            t@.wf(),
            t@.width == width,
            t@.height == height,
            t@.key is None,
            forall|i: int| 0 <= i < t@.pixels.len() ==> #[trigger] t@.pixels[i] == Color16(0),
    {
        let n = width as usize * height as usize;
        let mut data: Vec<Color16> = Vec::with_capacity(n);
        let mut i: usize = 0;
        while i < n
            invariant
                i <= n,
                data@.len() == i,
                forall|j: int| 0 <= j < i ==> #[trigger] data@[j] == Color16(0),
            decreases n - i,
        {
            data.push(Color16(0));
            i += 1;
        }
        Texture { data, width, height, transparent_color: None }
    }

    /// The texture of the given size holding `pixels` in row-major order;
    /// `None` unless there is exactly one pixel per position.
    pub fn from_pixels(width: u32, height: u32, pixels: Vec<Color16>, key: Option<Color16>) -> (r:
        Option<Texture>)
        ensures
            r is Some <==> pixels@.len() == width * height,
            r matches Some(t) ==> t@ == (TextureView { width, height, pixels: pixels@, key }),
    {
        let n = crate::image::area(width, height);
        if pixels.len() as u64 != n {
            return None;
        }
        Some(Texture { data: pixels, width, height, transparent_color: key })
    }

    pub fn width(&self) -> (w: u32)
        ensures
            w == self@.width,
    {
        self.width
    }

    pub fn height(&self) -> (h: u32)
        ensures
            h == self@.height,
    {
        self.height
    }

    pub fn transparent_color(&self) -> (k: Option<Color16>)
        ensures
            k == self@.key,
    {
        self.transparent_color
    }

    pub fn set_transparent_color(&mut self, key: Option<Color16>)
        ensures
            final(self)@ == (TextureView { key, ..old(self)@ }),
    {
        self.transparent_color = key;
    }

    fn index_of(&self, x: u32, y: u32) -> (i: usize)
        requires
            self@.wf(),
            x < self@.width,
            y < self@.height,
        ensures
            i == pixel_index(x as int, y as int, self@.width as int),
            i < self@.pixels.len(),
    {
        let n = self.data.len();
        proof {
            lemma_index_in_bounds(x as int, y as int, self.width as int, self.height as int);
        }
        x as usize + y as usize * self.width as usize
    }

    /// Writes the pixel at column `x`, row `y`.
    pub fn set(&mut self, x: u32, y: u32, value: Color16)
        requires
            old(self)@.wf(),
            x < old(self)@.width,
            y < old(self)@.height,
        ensures
            final(self)@ == (TextureView {
                pixels: old(self)@.pixels.update(
                    pixel_index(x as int, y as int, old(self)@.width as int),
                    value,
                ),
                ..old(self)@
            }),
    {
        let i = self.index_of(x, y);
        self.data.set(i, value);
    }

    /// The pixel at column `x`, row `y`.
    pub fn get(&self, x: u32, y: u32) -> (c: Color16)
        requires
            self@.wf(),
            x < self@.width,
            y < self@.height,
        ensures
            c == self@.pixels[pixel_index(x as int, y as int, self@.width as int)],
    {
        self.data[self.index_of(x, y)]
    }

    /// The pixels in row-major order.
    pub fn pixels(&self) -> (p: &Vec<Color16>)
        ensures
            p@ == self@.pixels,
    {
        &self.data
    }
}


fn push_u16(out: &mut Vec<u8>, v: u16)
    ensures
        final(out)@ == old(out)@ + le16(v),
{
    out.push((v % 256) as u8);
    out.push((v / 256) as u8);
    assert(final(out)@ =~= old(out)@ + le16(v));
}

fn push_u32(out: &mut Vec<u8>, v: u32)
    ensures
        final(out)@ == old(out)@ + le32(v),
{
    out.push((v % 256) as u8);
    out.push(((v / 256) % 256) as u8);
    out.push(((v / 65536) % 256) as u8);
    out.push((v / 16777216) as u8);
    assert(final(out)@ =~= old(out)@ + le32(v));
}

fn get_u16(b: &[u8], at: usize) -> (v: u16)
    requires
        at + 2 <= b@.len(),
    ensures
        v == read_u16(b@, at as int),
{
    b[at] as u16 + 256 * (b[at + 1] as u16)
}

fn get_u32(b: &[u8], at: usize) -> (v: u32)
    requires
        at + 4 <= b@.len(),
    ensures
        v == read_u32(b@, at as int),
{
    b[at] as u32 + 256 * (b[at + 1] as u32) + 65536 * (b[at + 2] as u32) + 16777216 * (
    b[at + 3] as u32)
}

impl Texture {
    /// The texture in its file format.
    pub fn to_bytes(&self) -> (b: Vec<u8>)
        requires
            self@.wf(),
            11 + 2 * self@.pixels.len() <= usize::MAX,
        ensures
            b@ == encode(self@),
    {
        let mut out: Vec<u8> = Vec::new();
        push_u32(&mut out, self.width);
        push_u32(&mut out, self.height);
        match self.transparent_color {
            Some(k) => {
                out.push(1u8);
                push_u16(&mut out, k.0);
            },
            None => {
                out.push(0u8);
            },
        }
        let ghost head = out@;
        assert(head =~= le32(self.width) + le32(self.height) + key_bytes(self.transparent_color));
        let mut i: usize = 0;
        while i < self.data.len()
            invariant
                i <= self.data@.len(),
                out@ =~= head + pixel_bytes(self.data@.subrange(0, i as int)),
            decreases self.data@.len() - i,
        {
            let v = self.data[i].0;
            push_u16(&mut out, v);
            proof {
                let p = self.data@.subrange(0, i as int + 1);
                assert(p.subrange(0, i as int) =~= self.data@.subrange(0, i as int));
                assert forall|j: int| 0 <= j < 2 * i + 2 implies #[trigger] pixel_bytes(p)[j]
                    == (pixel_bytes(self.data@.subrange(0, i as int)) + le16(v))[j] by {
                    if j < 2 * i {
                        assert(j / 2 < i) by (nonlinear_arith)
                            requires
                                0 <= j < 2 * i,
                        ;
                    } else {
                        assert(j / 2 == i);
                    }
                }
                assert(pixel_bytes(p) =~= pixel_bytes(self.data@.subrange(0, i as int)) + le16(v));
            }
            i += 1;
        }
        assert(self.data@.subrange(0, i as int) =~= self.data@);
        out
    }

    /// The texture that `b` holds in the file format, or why it holds none.
    pub fn from_bytes(b: &[u8]) -> (r: Result<Texture, DecodeError>)
        ensures
            match r {
                Ok(t) => t@.wf() && decode(b@) == Ok::<TextureView, DecodeError>(t@),
                Err(e) => decode(b@) == Err::<TextureView, DecodeError>(e),
            },
    {
        if b.len() < 9 {
            return Err(DecodeError::Truncated);
        }
        let flag = b[8];
        if flag > 1 {
            return Err(DecodeError::BadKeyFlag);
        }
        let width = get_u32(b, 0);
        let height = get_u32(b, 4);
        let head: usize = if flag == 1 {
            11
        } else {
            9
        };
        assert(width as int * height as int <= u64::MAX) by (nonlinear_arith)
            requires
                width <= u32::MAX,
                height <= u32::MAX,
        ;
        let n: u64 = width as u64 * height as u64;
        let wanted: u128 = head as u128 + 2 * (n as u128);
        if (b.len() as u128) < wanted {
            return Err(DecodeError::Truncated);
        }
        if (b.len() as u128) > wanted {
            return Err(DecodeError::TrailingBytes);
        }
        let key = if flag == 1 {
            Some(Color16(get_u16(b, 9)))
        } else {
            None
        };
        let count = n as usize;
        let mut data: Vec<Color16> = Vec::with_capacity(count);
        let len = b.len();
        let mut i: usize = 0;
        while i < count
            invariant
                i <= count,
                len == b@.len(),
                count == width * height,
                b@.len() == head + 2 * count,
                head == header_len(flag),
                data@.len() == i,
                forall|j: int| 0 <= j < i ==> #[trigger] data@[j] == Color16(read_u16(b@, head + 2 * j)),
            decreases count - i,
        {
            data.push(Color16(get_u16(b, head + 2 * i)));
            i += 1;
        }
        let t = Texture { data, width, height, transparent_color: key };
        assert(t@.pixels =~= decode(b@)->Ok_0.pixels);
        Ok(t)
    }
}

} // verus!
