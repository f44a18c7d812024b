use textures::background::{AllocError, KeyPolicy};
use textures::color::Color16;
use textures::converters::{
    convert, convert_fs, convert_fs_transparent, convert_ordered4, convert_ordered4_transparent,
    convert_ordered8, convert_ordered8_transparent, convert_posterize,
    convert_posterize_transparent, convert_transparent, Method,
};
use textures::image::{RgbImage, RgbaImage};
use textures::texture::Texture;

fn rgb(width: u32, height: u32, pixels: &[(u8, u8, u8)]) -> RgbImage {
    let mut data = Vec::new();
    for p in pixels {
        data.push(p.0);
        data.push(p.1);
        data.push(p.2);
    }
    RgbImage::from_raw(width, height, data).unwrap()
}

fn rgba(width: u32, height: u32, pixels: &[(u8, u8, u8, u8)]) -> RgbaImage {
    let mut data = Vec::new();
    for p in pixels {
        data.push(p.0);
        data.push(p.1);
        data.push(p.2);
        data.push(p.3);
    }
    RgbaImage::from_raw(width, height, data).unwrap()
}

fn values(t: &Texture) -> Vec<u16> {
    t.pixels().iter().map(|c| c.0).collect()
}

const SIX: [(u8, u8, u8); 6] = [
    (10, 200, 30),
    (120, 121, 122),
    (250, 5, 77),
    (33, 66, 99),
    (7, 8, 9),
    (200, 100, 50),
];

#[test]
fn posterize_two_by_two() {
    let img = rgb(2, 2, &[(255, 0, 0), (0, 255, 0), (0, 0, 255), (255, 255, 255)]);
    let t = convert_posterize(&img);
    assert_eq!(t.width(), 2);
    assert_eq!(t.height(), 2);
    assert_eq!(t.transparent_color(), None);
    assert_eq!(t.get(0, 0), Color16::new(255 / 8, 0, 0));
    assert_eq!(t.get(1, 0), Color16::new(0, 255 / 4, 0));
    assert_eq!(t.get(0, 1), Color16::new(0, 0, 255 / 8));
    assert_eq!(t.get(1, 1), Color16::new(31, 63, 31));
    assert_eq!(values(&t), vec![0xf800, 0x07e0, 0x001f, 0xffff]);
}

#[test]
fn posterize_three_by_two() {
    let t = convert_posterize(&rgb(3, 2, &SIX));
    assert_eq!(values(&t), vec![3651, 31695, 63529, 8716, 65, 52006]);
}

#[test]
fn fs_single_pixel_matches_posterize() {
    for p in [(0u8, 0u8, 0u8), (100, 100, 100), (255, 255, 255), (13, 200, 77)] {
        let img = rgb(1, 1, &[p]);
        assert_eq!(values(&convert_fs(&img)), values(&convert_posterize(&img)));
    }
}

#[test]
fn fs_carries_error_right() {
    let t = convert_fs(&rgb(2, 1, &[(100, 100, 100), (100, 100, 100)]));
    assert_eq!(values(&t), vec![25388, 25356]);
    assert_eq!(t.get(0, 0), Color16::new(12, 25, 12));
    assert_eq!(t.get(1, 0), Color16::new(12, 24, 12));
}

#[test]
fn fs_three_by_two() {
    let t = convert_fs(&rgb(3, 2, &SIX));
    assert_eq!(values(&t), vec![3651, 31695, 63529, 8716, 33, 49958]);
}

#[test]
fn fs_is_deterministic() {
    let img = rgb(3, 2, &SIX);
    assert_eq!(values(&convert_fs(&img)), values(&convert_fs(&img)));
}

#[test]
fn ordered_exact_values() {
    let img = rgb(3, 2, &SIX);
    assert_eq!(values(&convert_ordered4(&img)), vec![1571, 31695, 61449, 8716, 32, 52006]);
    assert_eq!(values(&convert_ordered8(&img)), vec![1571, 31695, 61449, 8716, 32, 52006]);
    let one = rgb(1, 1, &[(100, 100, 100)]);
    assert_eq!(values(&convert_ordered8(&one)), vec![23307]);
}

#[test]
fn ordered_repeats_every_eight_pixels() {
    let row: Vec<(u8, u8, u8)> = (0..17).map(|_| (90u8, 140u8, 200u8)).collect();
    let img = rgb(17, 1, &row);
    for t in [convert_ordered8(&img), convert_ordered4(&img)] {
        for x in 0..9 {
            assert_eq!(t.get(x, 0), t.get(x + 8, 0));
        }
    }
    let t4 = convert_ordered4(&img);
    for x in 0..13 {
        assert_eq!(t4.get(x, 0), t4.get(x + 4, 0));
    }
    assert_eq!(values(&convert_ordered8(&img)), values(&convert_ordered8(&img)));
}

#[test]
fn ordered_depends_on_position() {
    let row: Vec<(u8, u8, u8)> = (0..8).map(|_| (100u8, 100u8, 100u8)).collect();
    let t = convert_ordered8(&rgb(8, 1, &row));
    let v = values(&t);
    assert!(v.iter().any(|c| *c != v[0]));
}

#[test]
fn posterize_transparent_keys_holes() {
    let img = rgba(
        2,
        2,
        &[(255, 0, 0, 255), (0, 0, 0, 0), (0, 255, 0, 128), (9, 9, 9, 127)],
    );
    let t = convert_posterize_transparent(&img).unwrap();
    let key = Color16(0xf81f);
    assert_eq!(t.transparent_color(), Some(key));
    assert_eq!(values(&t), vec![0xf800, 0xf81f, 0x07e0, 0xf81f]);
}

#[test]
fn transparent_key_avoids_used_magenta() {
    let img = rgba(2, 1, &[(255, 0, 255, 255), (1, 2, 3, 0)]);
    let t = convert_posterize_transparent(&img).unwrap();
    assert_eq!(t.transparent_color(), Some(Color16(0x07ff)));
    assert_eq!(values(&t), vec![0xf81f, 0x07ff]);
}

#[test]
fn fs_transparent_holes_take_no_error() {
    let alpha = [255u8, 0, 255, 255, 255, 10];
    let pixels: Vec<(u8, u8, u8, u8)> =
        SIX.iter().zip(alpha.iter()).map(|(p, a)| (p.0, p.1, p.2, *a)).collect();
    let t = convert_fs_transparent(&rgba(3, 2, &pixels)).unwrap();
    assert_eq!(t.transparent_color(), Some(Color16(0xf81f)));
    assert_eq!(values(&t), vec![3651, 0xf81f, 63529, 8716, 65, 0xf81f]);
}

#[test]
fn ordered_transparent_variants() {
    let alpha = [255u8, 255, 0, 255, 255, 255];
    let pixels: Vec<(u8, u8, u8, u8)> =
        SIX.iter().zip(alpha.iter()).map(|(p, a)| (p.0, p.1, p.2, *a)).collect();
    let img = rgba(3, 2, &pixels);
    let t4 = convert_ordered4_transparent(&img).unwrap();
    let t8 = convert_ordered8_transparent(&img).unwrap();
    assert_eq!(values(&t4), vec![1571, 31695, 0xf81f, 8716, 32, 52006]);
    assert_eq!(values(&t8), vec![1571, 31695, 0xf81f, 8716, 32, 52006]);
    assert_eq!(t8.transparent_color(), Some(Color16(0xf81f)));
}

#[test]
fn fully_transparent_image_gets_magenta() {
    let img = rgba(2, 1, &[(1, 1, 1, 0), (200, 200, 200, 3)]);
    let t = convert_fs_transparent(&img).unwrap();
    assert_eq!(values(&t), vec![0xf81f, 0xf81f]);
}

#[test]
fn maximin_policy_through_converter() {
    let img = rgba(2, 1, &[(0, 0, 0, 255), (5, 5, 5, 0)]);
    let t = convert_transparent(&img, Method::Posterize, KeyPolicy::Maximin).unwrap();
    assert_eq!(t.transparent_color(), Some(Color16(0xffff)));
    assert_eq!(values(&t), vec![0, 0xffff]);
}

#[test]
fn method_selector_matches_named_converters() {
    let img = rgb(3, 2, &SIX);
    assert_eq!(values(&convert(&img, Method::Posterize)), values(&convert_posterize(&img)));
    assert_eq!(values(&convert(&img, Method::FloydSteinberg)), values(&convert_fs(&img)));
    assert_eq!(values(&convert(&img, Method::Ordered4)), values(&convert_ordered4(&img)));
    assert_eq!(values(&convert(&img, Method::Ordered8)), values(&convert_ordered8(&img)));
    let a = rgba(1, 1, &[(3, 4, 5, 200)]);
    let r = convert_transparent(&a, Method::FloydSteinberg, KeyPolicy::Priority).unwrap();
    assert_eq!(values(&r), values(&convert_fs_transparent(&a).unwrap()));
}

#[test]
fn exhausted_key_is_an_error() {
    // 256 x 256 opaque pixels that use every packed color once
    let mut pixels = Vec::new();
    for v in 0u32..65536 {
        let c = Color16(v as u16).to_rgb();
        pixels.push((c.r as u8, c.g as u8, c.b as u8, 255u8));
    }
    let img = rgba(256, 256, &pixels);
    assert!(matches!(convert_posterize_transparent(&img), Err(AllocError::Exhausted)));
}

#[test]
fn raw_data_must_match_size() {
    assert!(RgbImage::from_raw(2, 2, vec![0; 11]).is_none());
    assert!(RgbImage::from_raw(2, 2, vec![0; 12]).is_some());
    assert!(RgbaImage::from_raw(2, 2, vec![0; 12]).is_none());
    assert!(RgbaImage::from_raw(2, 2, vec![0; 16]).is_some());
    let img = RgbImage::from_raw(3, 1, vec![0; 9]).unwrap();
    assert_eq!((img.width(), img.height()), (3, 1));
}

#[test]
fn fs_error_beyond_range_is_carried() {
    // pixel 1 sums to 255 + 49/16 = 258: it quantizes to full red and hands
    // on an error of 3, which lifts pixel 2 from 7 to 8, i.e. level 1
    let img = rgb(3, 1, &[(7, 0, 0), (255, 0, 0), (7, 0, 0)]);
    assert_eq!(values(&convert_fs(&img)), vec![0x0000, 0xf800, 0x0800]);
    assert_eq!(convert_posterize(&img).get(2, 0), Color16(0));
}

#[test]
fn fs_transparent_error_beyond_range_is_carried() {
    let img = rgba(3, 1, &[(7, 0, 0, 255), (255, 0, 0, 255), (7, 0, 0, 255)]);
    let t = convert_fs_transparent(&img).unwrap();
    assert_eq!(values(&t), vec![0x0000, 0xf800, 0x0800]);
    assert_eq!(t.transparent_color(), Some(Color16(0xf81f)));
    let r = convert_transparent(&img, Method::FloydSteinberg, KeyPolicy::Priority).unwrap();
    assert_eq!(values(&r), vec![0x0000, 0xf800, 0x0800]);
}
