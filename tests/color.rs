use textures::color::{Color16, RGBColor};

#[test]
fn pack_then_unpack_every_triple() {
    for r in 0u16..32 {
        for g in 0u16..64 {
            for b in 0u16..32 {
                assert_eq!(Color16::new(r, g, b).unpack(), (r, g, b));
            }
        }
    }
}

#[test]
fn pack_layout() {
    assert_eq!(Color16::new(31, 0, 0).0, 0xf800);
    assert_eq!(Color16::new(0, 63, 0).0, 0x07e0);
    assert_eq!(Color16::new(0, 0, 31).0, 0x001f);
    assert_eq!(Color16::new(31, 0, 31).0, 0xf81f);
    assert_eq!(Color16::new(12, 25, 12).0, 25388);
}

#[test]
fn pack_masks_out_of_range_levels() {
    assert_eq!(Color16::new(32, 64, 32).0, 0);
    assert_eq!(Color16::new(33, 65, 35).unpack(), (1, 1, 3));
}

#[test]
fn quantize_round_trip_is_stable() {
    let mut v: i32 = -40;
    while v <= 300 {
        let c = RGBColor::new(v, 255 - v, v / 2);
        let q = c.quantize();
        assert_eq!(q.to_rgb().quantize(), q);
        v += 3;
    }
}

#[test]
fn quantize_clamps_and_truncates() {
    assert_eq!(RGBColor::new(255, 255, 255).quantize().0, 0xffff);
    assert_eq!(RGBColor::new(-5, 300, 7).quantize(), Color16::new(0, 63, 0));
    assert_eq!(RGBColor::new(100, 100, 100).quantize(), Color16::new(12, 25, 12));
}

#[test]
fn to16bit_divides_by_step() {
    let c = RGBColor::new(100, 100, 300).to16bit();
    assert_eq!(c, RGBColor::new(12, 25, 31));
    assert_eq!(RGBColor::new(-1, 3, 7).to16bit(), RGBColor::new(0, 0, 0));
}

#[test]
fn to24bit_rounds_levels() {
    assert_eq!(RGBColor::new(0, 0, 0).to24bit(), RGBColor::new(0, 0, 0));
    assert_eq!(RGBColor::new(31, 63, 31).to24bit(), RGBColor::new(255, 255, 255));
    // 4 * 255 / 31 = 32.9, rounded to 33; 25 * 255 / 63 = 101.2
    assert_eq!(RGBColor::new(4, 25, 12).to24bit(), RGBColor::new(33, 101, 99));
    assert_eq!(RGBColor::new(40, -3, 1).to24bit(), RGBColor::new(255, 0, 8));
}

#[test]
fn dequantize_unpacks_and_expands() {
    assert_eq!(Color16(0xffff).to_rgb(), RGBColor::new(255, 255, 255));
    assert_eq!(Color16::new(12, 25, 12).to_rgb(), RGBColor::new(99, 101, 99));
}

#[test]
fn to_color16_clamps_levels() {
    assert_eq!(RGBColor::new(40, 70, -2).to_color16(), Color16::new(31, 63, 0));
    assert_eq!(RGBColor::new(1, 2, 3).to_color16(), Color16::new(1, 2, 3));
}

#[test]
fn gray_is_truncated_mean() {
    assert_eq!(RGBColor::new(1, 2, 4).gray(), RGBColor::new(2, 2, 2));
    assert_eq!(RGBColor::new(-1, -2, -4).gray(), RGBColor::new(-2, -2, -2));
    assert_eq!(RGBColor::new(255, 255, 255).gray(), RGBColor::new(255, 255, 255));
}

#[test]
fn working_color_arithmetic() {
    let a = RGBColor::new(10, -20, 30);
    let b = RGBColor::new(1, 2, 3);
    assert_eq!(a.plus(b), RGBColor::new(11, -18, 33));
    assert_eq!(a.minus(b), RGBColor::new(9, -22, 27));
    assert_eq!(a.times(7), RGBColor::new(70, -140, 210));
}

#[test]
fn from_conversions() {
    assert_eq!(Color16::from(RGBColor::new(40, 0, -3)), Color16(0xf800));
    assert_eq!(Color16::from(RGBColor::new(12, 25, 12)), Color16(25388));
    assert_eq!(RGBColor::from(Color16(0xffff)), RGBColor::new(255, 255, 255));
    assert_eq!(RGBColor::from(Color16(25388)), RGBColor::new(99, 101, 99));
}
