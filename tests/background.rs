use textures::background::{AllocError, BackgroundColor, KeyPolicy};
use textures::color::Color16;

const PRIORITY: [u16; 8] = [0xf81f, 0x07ff, 0xffe0, 0xf800, 0x001f, 0x07e0, 0xffff, 0x0000];

#[test]
fn empty_set_gives_magenta() {
    let used = BackgroundColor::new();
    assert_eq!(used.find(), Ok(Color16(0xf81f)));
    assert_eq!(used.find_with(KeyPolicy::Priority), Ok(Color16::new(31, 0, 31)));
}

#[test]
fn priority_order_is_followed() {
    let mut used = BackgroundColor::new();
    for (i, c) in PRIORITY.iter().enumerate() {
        assert_eq!(used.find(), Ok(Color16(*c)));
        used.add(Color16(PRIORITY[i]));
    }
    // all eight in use: the first free value of the cube scan
    assert_eq!(used.find(), Ok(Color16(1)));
    used.add(Color16(1));
    used.add(Color16(2));
    assert_eq!(used.find(), Ok(Color16(3)));
}

#[test]
fn adding_twice_is_harmless() {
    let mut used = BackgroundColor::new();
    used.add(Color16(0xf81f));
    used.add(Color16(0xf81f));
    assert!(used.contains(Color16(0xf81f)));
    assert!(!used.contains(Color16(0x07ff)));
    assert_eq!(used.find(), Ok(Color16(0x07ff)));
}

#[test]
fn full_cube_is_exhausted() {
    let mut used = BackgroundColor::new();
    for v in 0u32..65536 {
        used.add(Color16(v as u16));
    }
    assert_eq!(used.find(), Err(AllocError::Exhausted));
    assert_eq!(used.find_maximin(), Err(AllocError::Exhausted));
}

#[test]
fn one_free_color_is_found_by_both_policies() {
    let mut used = BackgroundColor::new();
    for v in 0u32..65536 {
        if v != 40000 {
            used.add(Color16(v as u16));
        }
    }
    assert_eq!(used.find(), Ok(Color16(40000)));
    assert_eq!(used.find_with(KeyPolicy::Maximin), Ok(Color16(40000)));
}

#[test]
fn maximin_moves_away_from_black() {
    let mut used = BackgroundColor::new();
    used.add(Color16(0));
    assert_eq!(used.find_maximin(), Ok(Color16(0xffff)));
}

#[test]
fn maximin_of_empty_set_is_first_color() {
    let used = BackgroundColor::new();
    assert_eq!(used.find_maximin(), Ok(Color16(0)));
}

#[test]
fn maximin_between_two_corners() {
    let mut used = BackgroundColor::new();
    used.add(Color16(0));
    used.add(Color16(0xffff));
    let key = used.find_maximin().unwrap();
    assert!(!used.contains(key));
    // brute force: the first color whose nearer corner is farthest away
    let mut best = 0u32;
    let mut best_d = -1i64;
    for v in 1u32..65535 {
        let (r, g, b) = Color16(v as u16).unpack();
        let (r, g, b) = (r as i64, g as i64, b as i64);
        let to_black = r * r + g * g + b * b;
        let to_white = (31 - r) * (31 - r) + (63 - g) * (63 - g) + (31 - b) * (31 - b);
        let d = to_black.min(to_white);
        if d > best_d {
            best_d = d;
            best = v;
        }
    }
    assert_eq!(key, Color16(best as u16));
    assert_eq!(best_d, 2178);
}

#[test]
fn key_is_never_used() {
    let mut used = BackgroundColor::new();
    let mut v: u32 = 7;
    for _ in 0..300 {
        used.add(Color16((v % 65536) as u16));
        v = v.wrapping_mul(48271) % 2147483647;
    }
    for c in PRIORITY.iter() {
        used.add(Color16(*c));
    }
    let a = used.find().unwrap();
    let b = used.find_maximin().unwrap();
    assert!(!used.contains(a));
    assert!(!used.contains(b));
}
