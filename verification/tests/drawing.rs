use turing_patterns::color::{ColorField, Rgb};
use turing_patterns::fixed::UNIT;
use turing_patterns::random::{
    draw_scales, index_from_draw, pick_random_color, sampled_color, Generator,
};

fn patchwork() -> ColorField {
    let mut colors = ColorField::zeros(2, 3);
    let mut n: u8 = 1;
    for r in 0..2 {
        for c in 0..3 {
            colors.set_pixel(r, c, Rgb { red: n, green: 10 * n, blue: 255 });
            n += 1;
        }
    }
    colors
}

#[test]
fn draws_stay_below_their_bound() {
    let mut generator = Generator::from_seed(7);
    for bound in [1u64, 2, 3, 255, 1000, u64::MAX] {
        for _ in 0..200 {
            assert!(generator.below(bound) < bound);
        }
    }
}

#[test]
fn a_bound_of_one_leaves_zero() {
    let mut generator = Generator::from_seed(1);
    for _ in 0..50 {
        assert_eq!(generator.below(1), 0);
    }
}

#[test]
fn fractions_lie_between_zero_and_one() {
    let mut generator = Generator::from_seed(11);
    let mut seen_low = false;
    let mut seen_high = false;
    for _ in 0..2000 {
        let x = generator.fraction();
        assert!(0 <= x && x < UNIT);
        seen_low |= x < UNIT / 2;
        seen_high |= x >= UNIT / 2;
    }
    assert!(seen_low && seen_high);
}

#[test]
fn the_same_seed_gives_the_same_draws() {
    let mut one = Generator::from_seed(42);
    let mut two = Generator::from_seed(42);
    for _ in 0..100 {
        assert_eq!(one.fraction(), two.fraction());
        assert_eq!(one.below(255), two.below(255));
    }
}

#[test]
fn other_seeds_give_other_draws() {
    let mut one = Generator::from_seed(1);
    let mut two = Generator::from_seed(2);
    let first: Vec<i64> = (0..16).map(|_| one.fraction()).collect();
    let second: Vec<i64> = (0..16).map(|_| two.fraction()).collect();
    assert_ne!(first, second);
}

#[test]
fn a_random_field_has_its_shape_and_range() {
    let mut generator = Generator::from_seed(3);
    let f = generator.field(5, 9);
    assert_eq!(f.height(), 5);
    assert_eq!(f.width(), 9);
    let mut distinct = std::collections::BTreeSet::new();
    for r in 0..5 {
        for c in 0..9 {
            let x = f.get(r, c);
            assert!(-UNIT <= x && x < UNIT);
            distinct.insert(x);
        }
    }
    assert!(distinct.len() > 1);
    assert!(f.is_bounded(UNIT));
}

#[test]
fn the_same_seed_gives_the_same_field() {
    let f = Generator::from_seed(99).field(4, 4);
    let g = Generator::from_seed(99).field(4, 4);
    for r in 0..4 {
        for c in 0..4 {
            assert_eq!(f.get(r, c), g.get(r, c));
        }
    }
}

#[test]
fn a_draw_points_at_a_place() {
    assert_eq!(index_from_draw(10, 0), 0);
    assert_eq!(index_from_draw(10, 999_999), 0);
    assert_eq!(index_from_draw(10, 1_000_000), 1);
    assert_eq!(index_from_draw(10, 5_000_000), 5);
    assert_eq!(index_from_draw(10, UNIT - 1), 9);
    assert_eq!(index_from_draw(1, UNIT - 1), 0);
    assert_eq!(index_from_draw(3, 3_333_333), 0);
    assert_eq!(index_from_draw(3, 3_333_334), 1);
    assert_eq!(index_from_draw(usize::MAX, UNIT - 1), usize::MAX - usize::MAX / 10_000_000 - 1);
}

#[test]
fn two_draws_point_at_a_pixel() {
    let colors = patchwork();
    assert_eq!(sampled_color(&colors, 0, 0), colors.pixel(0, 0));
    assert_eq!(sampled_color(&colors, 5_000_000, 0), colors.pixel(1, 0));
    assert_eq!(sampled_color(&colors, 4_999_999, 3_400_000), colors.pixel(0, 1));
    assert_eq!(sampled_color(&colors, UNIT - 1, UNIT - 1), colors.pixel(1, 2));
}

#[test]
fn freely_drawn_colors_stay_below_255() {
    let colors = ColorField::zeros(1, 1);
    let mut generator = Generator::from_seed(5);
    let mut distinct = std::collections::BTreeSet::new();
    for _ in 0..500 {
        let color = pick_random_color(false, &colors, &mut generator);
        assert!(color.red < 255 && color.green < 255 && color.blue < 255);
        distinct.insert((color.red, color.green, color.blue));
    }
    assert!(distinct.len() > 1);
}

#[test]
fn freely_drawn_colors_need_no_pixels() {
    let colors = ColorField::zeros(0, 0);
    let mut generator = Generator::from_seed(5);
    let color = pick_random_color(false, &colors, &mut generator);
    assert!(color.red < 255 && color.green < 255 && color.blue < 255);
}

#[test]
fn sampled_colors_are_colors_of_the_input() {
    let colors = patchwork();
    let mut generator = Generator::from_seed(8);
    let mut seen = std::collections::BTreeSet::new();
    for _ in 0..300 {
        let color = pick_random_color(true, &colors, &mut generator);
        assert_eq!(color.blue, 255);
        assert!(1 <= color.red && color.red <= 6);
        assert_eq!(color.green, 10 * color.red);
        seen.insert(color.red);
    }
    assert_eq!(seen.len(), 6);
}

#[test]
fn as_many_layers_are_drawn_as_asked_for() {
    let colors = ColorField::zeros(16, 24);
    let mut generator = Generator::from_seed(21);
    let scales = draw_scales(7, false, &colors, &mut generator);
    assert_eq!(scales.len(), 7);
    for scale in &scales {
        assert_eq!(scale.activator().height(), 16);
        assert_eq!(scale.activator().width(), 24);
        assert_eq!(scale.weight(), UNIT);
        // some draw r of 0 .. 1 gave r * 16 / 4, twice that, and r / 25 + 0.01
        assert!(0 <= scale.activator_radius() && scale.activator_radius() < 4 * UNIT);
        assert!(0 <= scale.inhibitor_radius() && scale.inhibitor_radius() < 8 * UNIT);
        assert_eq!(scale.inhibitor_radius(), 2 * scale.activator_radius());
        assert!(100_000 <= scale.small_amount() && scale.small_amount() < 500_000);
        let draw_low = (scale.small_amount() - 100_000) * 25;
        assert!(draw_low * 16 / 2 <= scale.inhibitor_radius());
        assert!(scale.inhibitor_radius() <= (draw_low + 24) * 16 / 2);
        let color = scale.color();
        assert!(color.red < 255 && color.green < 255 && color.blue < 255);
    }
    assert!(draw_scales(0, false, &colors, &mut generator).is_empty());
}

#[test]
fn drawn_radii_are_one_to_two_on_any_side() {
    // sides that are no multiple of four
    for (height, width) in [(2usize, 2usize), (3, 9), (7, 5), (10, 13), (1, 1)] {
        let colors = ColorField::zeros(height, width);
        let mut generator = Generator::from_seed(height as u64 * 100 + width as u64);
        let side = height.min(width) as i64;
        for scale in draw_scales(200, false, &colors, &mut generator) {
            assert_eq!(scale.inhibitor_radius(), 2 * scale.activator_radius());
            assert!(0 <= scale.activator_radius());
            assert!(4 * scale.activator_radius() < side * UNIT);
            assert!(100_000 <= scale.small_amount() && scale.small_amount() < 500_000);
            assert_eq!(scale.weight(), UNIT);
        }
    }
}

#[test]
fn layers_drawn_from_the_input_wear_its_colors() {
    let colors = patchwork();
    let mut generator = Generator::from_seed(4);
    let scales = draw_scales(20, true, &colors, &mut generator);
    assert_eq!(scales.len(), 20);
    for scale in &scales {
        let color = scale.color();
        assert_eq!(color.blue, 255);
        assert!(1 <= color.red && color.red <= 6);
        assert_eq!(color.green, 10 * color.red);
    }
}

#[test]
fn the_same_seed_draws_the_same_layers() {
    let colors = ColorField::zeros(32, 32);
    let one = draw_scales(5, false, &colors, &mut Generator::from_seed(77));
    let two = draw_scales(5, false, &colors, &mut Generator::from_seed(77));
    for (a, b) in one.iter().zip(two.iter()) {
        assert_eq!(a.activator_radius(), b.activator_radius());
        assert_eq!(a.inhibitor_radius(), b.inhibitor_radius());
        assert_eq!(a.small_amount(), b.small_amount());
        assert_eq!(a.color(), b.color());
    }
}
