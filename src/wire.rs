use vstd::prelude::*;

use crate::color::Color16;
use crate::texture::{DecodeError, TextureView};

verus! {

/// A 16-bit value as two bytes, least significant first.
pub open spec fn le16(v: u16) -> Seq<u8> {
    seq![(v % 256) as u8, (v / 256) as u8]
}

/// A 32-bit value as four bytes, least significant first.
pub open spec fn le32(v: u32) -> Seq<u8> {
    seq![(v % 256) as u8, ((v / 256) % 256) as u8, ((v / 65536) % 256) as u8, (v / 16777216) as u8]
}

/// The little-endian 16-bit value at `at`.
pub open spec fn read_u16(b: Seq<u8>, at: int) -> u16 {
    (b[at] + 256 * b[at + 1]) as u16
}

/// The little-endian 32-bit value at `at`.
pub open spec fn read_u32(b: Seq<u8>, at: int) -> u32 {
    (b[at] + 256 * b[at + 1] + 65536 * b[at + 2] + 16777216 * b[at + 3]) as u32
}

/// The pixels, two little-endian bytes each, with no padding.
pub open spec fn pixel_bytes(p: Seq<Color16>) -> Seq<u8> {
    Seq::new(
        2 * p.len(),
        |i: int|
            if i % 2 == 0 {
                (p[i / 2].0 % 256) as u8
            } else {
                (p[i / 2].0 / 256) as u8
            },
    )
}

/// The key flag (0 or 1), then the key itself where there is one.
pub open spec fn key_bytes(key: Option<Color16>) -> Seq<u8> {
    match key {
        Some(k) => seq![1u8] + le16(k.0),
        None => seq![0u8],
    }
}

/// The file format of a texture: width and height as 32-bit values, the
/// key, then the pixels; all little-endian.
pub open spec fn encode(t: TextureView) -> Seq<u8> {
    le32(t.width) + le32(t.height) + key_bytes(t.key) + pixel_bytes(t.pixels)
}

/// Where the pixels start, given the key flag.
pub open spec fn header_len(flag: u8) -> int {
    if flag == 1 {
        11
    } else {
        9
    }
}

/// The texture that a byte sequence holds, or why it holds none.
pub open spec fn decode(b: Seq<u8>) -> Result<TextureView, DecodeError> {
    if b.len() < 9 {
        Err(DecodeError::Truncated)
    } else if b[8] > 1 {
        Err(DecodeError::BadKeyFlag)
    } else {
        let width = read_u32(b, 0);
        let height = read_u32(b, 4);
        let head = header_len(b[8]);
        let n = width * height;
        if b.len() < head + 2 * n {
            Err(DecodeError::Truncated)
        } else if b.len() > head + 2 * n {
            Err(DecodeError::TrailingBytes)
        } else {
            Ok(
                TextureView {
                    width,
                    height,
                    pixels: Seq::new(n as nat, |i: int| Color16(read_u16(b, head + 2 * i))),
                    key: if b[8] == 1 {
                        Some(Color16(read_u16(b, 9)))
                    } else {
                        None
                    },
                },
            )
        }
    }
}

proof fn lemma_le16(v: u16)
    ensures
        (v % 256) as u8 + 256 * ((v / 256) as u8) == v,
{
    assert((v % 256) as u8 + 256 * ((v / 256) as u8) == v) by (bit_vector);
}

proof fn lemma_le32(v: u32)
    ensures
        (v % 256) as u8 + 256 * (((v / 256) % 256) as u8) + 65536 * (((v / 65536) % 256) as u8)
            + 16777216 * ((v / 16777216) as u8) == v,
{
    assert((v % 256) as u8 + 256 * (((v / 256) % 256) as u8) + 65536 * (((v / 65536) % 256) as u8)
        + 16777216 * ((v / 16777216) as u8) == v) by (bit_vector);
}

/// Decoding the encoding of a well-formed texture gives back its width,
/// height, transparency key and every pixel.
pub proof fn lemma_decode_encode(t: TextureView)
    requires
        t.wf(),
    ensures
        decode(encode(t)) == Ok::<TextureView, DecodeError>(t),
{
    let b = encode(t);
    let head = header_len(key_bytes(t.key)[0]);
    lemma_le32(t.width);
    lemma_le32(t.height);
    assert(b[8] == key_bytes(t.key)[0]);
    assert(read_u32(b, 0) == t.width);
    assert(read_u32(b, 4) == t.height);
    assert(b.len() == head + 2 * t.pixels.len());
    match t.key {
        Some(k) => {
            lemma_le16(k.0);
            assert(read_u16(b, 9) == k.0);
        },
        None => {},
    }
    let d = decode(b)->Ok_0;
    assert forall|i: int| 0 <= i < t.pixels.len() implies #[trigger] d.pixels[i] == t.pixels[i] by {
        lemma_le16(t.pixels[i].0);
        assert((2 * i) % 2 == 0 && (2 * i) / 2 == i);
        assert((2 * i + 1) % 2 == 1 && (2 * i + 1) / 2 == i);
        assert(b[head + 2 * i] == pixel_bytes(t.pixels)[2 * i]);
        assert(b[head + 2 * i + 1] == pixel_bytes(t.pixels)[2 * i + 1]);
    }
    assert(d.pixels =~= t.pixels);
}

} // verus!
