use turing_patterns::color::{blend_channel, shade_channel, ColorField, Rgb};
use turing_patterns::fixed::UNIT;

const RATIO: i64 = 3_000_000;

fn rgb(red: u8, green: u8, blue: u8) -> Rgb {
    Rgb { red, green, blue }
}

#[test]
fn blend_of_black_toward_red_at_three_tenths() {
    // 0.7 * 0 + 0.3 * 255 = 76.5, rounded down
    assert_eq!(blend_channel(0, 255, RATIO), 76);
    assert_eq!(rgb(0, 0, 0).blend(rgb(255, 0, 0), RATIO), rgb(76, 0, 0));
}

#[test]
fn blend_follows_the_formula() {
    // 0.7 * 100 + 0.3 * 200 = 130
    assert_eq!(blend_channel(100, 200, RATIO), 130);
    // 0.7 * 200 + 0.3 * 100 = 170
    assert_eq!(blend_channel(200, 100, RATIO), 170);
    // 0.7 * 255 + 0.3 * 0 = 178.5
    assert_eq!(blend_channel(255, 0, RATIO), 178);
    // 0.7 * 10 + 0.3 * 11 = 10.3
    assert_eq!(blend_channel(10, 11, RATIO), 10);
    assert_eq!(blend_channel(77, 77, RATIO), 77);
}

#[test]
fn blend_at_the_ends_of_the_ratio() {
    assert_eq!(blend_channel(12, 200, 0), 12);
    assert_eq!(blend_channel(12, 200, UNIT), 200);
    assert_eq!(blend_channel(200, 12, 5_000_000), 106);
}

#[test]
fn blend_lies_between_its_ends() {
    let ratios = [1, RATIO, 5_000_000, 9_999_999];
    for from in (0..=255u16).step_by(5) {
        for to in (0..=255u16).step_by(3) {
            for ratio in ratios {
                let mixed = blend_channel(from as u8, to as u8, ratio) as u16;
                assert!(from.min(to) <= mixed && mixed <= from.max(to));
            }
        }
    }
}

#[test]
fn shade_halves_at_field_value_zero() {
    assert_eq!(shade_channel(76, 0), 38);
    assert_eq!(shade_channel(255, 0), 127);
    assert_eq!(rgb(76, 0, 0).shade(0), rgb(38, 0, 0));
}

#[test]
fn shade_follows_the_formula() {
    // 200 * (0.5 + 1) / 2 = 150
    assert_eq!(shade_channel(200, 5_000_000), 150);
    // 200 * (-0.5 + 1) / 2 = 50
    assert_eq!(shade_channel(200, -5_000_000), 50);
    assert_eq!(shade_channel(200, UNIT), 200);
    assert_eq!(shade_channel(200, -UNIT), 0);
    // 3 * 0.5 = 1.5, rounded down
    assert_eq!(shade_channel(3, 0), 1);
}

#[test]
fn shade_is_cut_off_outside_the_usual_range() {
    // 200 * (3 + 1) / 2 = 400
    assert_eq!(shade_channel(200, 3 * UNIT), 255);
    assert_eq!(shade_channel(200, -2 * UNIT), 0);
    assert_eq!(shade_channel(1, i64::MAX), 255);
    assert_eq!(shade_channel(255, i64::MIN), 0);
    assert_eq!(shade_channel(0, i64::MAX), 0);
    // 100 * (1.1 + 1) / 2 = 105
    assert_eq!(shade_channel(100, 11_000_000), 105);
}

#[test]
fn a_new_color_grid_is_black() {
    let f = ColorField::zeros(2, 3);
    assert_eq!(f.height(), 2);
    assert_eq!(f.width(), 3);
    for r in 0..2 {
        for c in 0..3 {
            assert_eq!(f.pixel(r, c), rgb(0, 0, 0));
        }
    }
    assert_eq!(f.to_bytes(), vec![0u8; 18]);
}

#[test]
fn set_pixel_changes_one_pixel_only() {
    let mut f = ColorField::zeros(2, 2);
    f.set_pixel(0, 1, rgb(1, 2, 3));
    assert_eq!(f.pixel(0, 1), rgb(1, 2, 3));
    assert_eq!(f.pixel(0, 0), rgb(0, 0, 0));
    assert_eq!(f.pixel(1, 0), rgb(0, 0, 0));
    assert_eq!(f.pixel(1, 1), rgb(0, 0, 0));
    assert_eq!(f.to_bytes(), vec![0, 0, 0, 1, 2, 3, 0, 0, 0, 0, 0, 0]);
}

#[test]
fn bytes_are_listed_pixel_by_pixel() {
    let bytes: Vec<u8> = (1..=18).collect();
    let f = ColorField::from_bytes(2, 3, &bytes).unwrap();
    assert_eq!(f.height(), 2);
    assert_eq!(f.width(), 3);
    assert_eq!(f.pixel(0, 0), rgb(1, 2, 3));
    assert_eq!(f.pixel(0, 2), rgb(7, 8, 9));
    assert_eq!(f.pixel(1, 0), rgb(10, 11, 12));
    assert_eq!(f.pixel(1, 2), rgb(16, 17, 18));
    assert_eq!(f.to_bytes(), bytes);
}

#[test]
fn bytes_of_the_wrong_length_are_refused() {
    let bytes: Vec<u8> = (1..=18).collect();
    assert!(ColorField::from_bytes(3, 3, &bytes).is_none());
    assert!(ColorField::from_bytes(2, 2, &bytes).is_none());
    assert!(ColorField::from_bytes(6, 1, &bytes).is_some());
    assert!(ColorField::from_bytes(usize::MAX, 3, &bytes).is_none());
    let none: Vec<u8> = Vec::new();
    assert!(ColorField::from_bytes(0, 4, &none).is_some());
}
