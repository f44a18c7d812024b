use textures::color::{Color16, RGBColor};
use textures::plane::RGBPlane;
use textures::texture::{DecodeError, Texture};

fn sample(width: u32, height: u32, key: Option<Color16>) -> Texture {
    let mut t = Texture::new(width, height);
    for y in 0..height {
        for x in 0..width {
            t.set(x, y, Color16((x * 1000 + y * 7 + 0x0102) as u16));
        }
    }
    t.set_transparent_color(key);
    t
}

#[test]
fn new_texture_is_black_without_key() {
    let t = Texture::new(3, 2);
    assert_eq!(t.pixels().len(), 6);
    assert!(t.pixels().iter().all(|c| *c == Color16(0)));
    assert_eq!(t.transparent_color(), None);
}

#[test]
fn set_and_get_are_row_major() {
    let mut t = Texture::new(3, 2);
    t.set(2, 1, Color16(77));
    t.set(0, 1, Color16(5));
    assert_eq!(t.get(2, 1), Color16(77));
    assert_eq!(t.pixels()[5], Color16(77));
    assert_eq!(t.pixels()[3], Color16(5));
}

#[test]
fn encoding_layout_with_key() {
    let mut t = Texture::new(2, 1);
    t.set(0, 0, Color16(0x1234));
    t.set(1, 0, Color16(0xabcd));
    t.set_transparent_color(Some(Color16(0xf81f)));
    assert_eq!(
        t.to_bytes(),
        vec![2, 0, 0, 0, 1, 0, 0, 0, 1, 0x1f, 0xf8, 0x34, 0x12, 0xcd, 0xab]
    );
}

#[test]
fn encoding_layout_without_key() {
    let mut t = Texture::new(1, 1);
    t.set(0, 0, Color16(0x00ff));
    assert_eq!(t.to_bytes(), vec![1, 0, 0, 0, 1, 0, 0, 0, 0, 0xff, 0x00]);
    let big = Texture::new(300, 2);
    let b = big.to_bytes();
    assert_eq!(&b[0..9], &[44, 1, 0, 0, 2, 0, 0, 0, 0]);
    assert_eq!(b.len(), 9 + 2 * 600);
}

#[test]
fn round_trip_keeps_everything() {
    for (w, h, key) in [
        (1, 1, None),
        (1, 1, Some(Color16(0xf81f))),
        (1, 5, None),
        (4, 1, Some(Color16(0))),
        (3, 2, Some(Color16(0x07ff))),
    ] {
        let t = sample(w, h, key);
        let d = Texture::from_bytes(&t.to_bytes()).unwrap();
        assert_eq!(d.width(), w);
        assert_eq!(d.height(), h);
        assert_eq!(d.transparent_color(), key);
        assert_eq!(d.pixels(), t.pixels());
    }
}

#[test]
fn decoding_rejects_short_input() {
    let b = sample(3, 2, Some(Color16(9))).to_bytes();
    for len in 0..b.len() {
        assert_eq!(Texture::from_bytes(&b[..len]).err(), Some(DecodeError::Truncated));
    }
}

#[test]
fn decoding_rejects_bad_flag_and_extra_bytes() {
    let mut b = sample(1, 1, None).to_bytes();
    b[8] = 2;
    assert_eq!(Texture::from_bytes(&b).err(), Some(DecodeError::BadKeyFlag));
    let mut c = sample(1, 1, None).to_bytes();
    c.push(0);
    assert_eq!(Texture::from_bytes(&c).err(), Some(DecodeError::TrailingBytes));
}

#[test]
fn decoding_huge_header_is_truncated() {
    let b = vec![255, 255, 255, 255, 255, 255, 255, 255, 0, 1, 2];
    assert_eq!(Texture::from_bytes(&b).err(), Some(DecodeError::Truncated));
}

#[test]
fn from_pixels_checks_length() {
    assert!(Texture::from_pixels(2, 2, vec![Color16(1); 3], None).is_none());
    let t = Texture::from_pixels(2, 2, vec![Color16(1); 4], Some(Color16(2))).unwrap();
    assert_eq!(t.get(1, 1), Color16(1));
    assert_eq!(t.transparent_color(), Some(Color16(2)));
}

#[test]
fn plane_starts_at_zero_and_accumulates() {
    let mut p = RGBPlane::new(3, 2);
    assert_eq!(p.get(2, 1), RGBColor::new(0, 0, 0));
    p.set(1, 1, RGBColor::new(1, 2, 3));
    p.add(1, 1, RGBColor::new(10, -20, 30));
    p.add(0, 0, RGBColor::new(-7, 7, 0));
    assert_eq!(p.get(1, 1), RGBColor::new(11, -18, 33));
    assert_eq!(p.get(0, 0), RGBColor::new(-7, 7, 0));
    assert_eq!((p.width(), p.height()), (3, 2));
}
