use turing_patterns::color::{ColorField, Rgb};
use turing_patterns::compose::{best_scale_at, compose};
use turing_patterns::field::ScalarField;
use turing_patterns::fixed::UNIT;
use turing_patterns::scale::Scale;

const RED: Rgb = Rgb { red: 255, green: 0, blue: 0 };
const GREEN: Rgb = Rgb { red: 0, green: 255, blue: 0 };
const BLUE: Rgb = Rgb { red: 0, green: 0, blue: 255 };
const RATIO: i64 = 3_000_000;

fn grid_of(rows: &[&[i64]]) -> ScalarField {
    let height = rows.len();
    let width = rows[0].len();
    let mut f = ScalarField::filled(height, width, 0);
    for r in 0..height {
        for c in 0..width {
            f.set(r, c, rows[r][c]);
        }
    }
    f
}

fn cells_of(f: &ScalarField) -> Vec<i64> {
    let mut out = Vec::new();
    for r in 0..f.height() {
        for c in 0..f.width() {
            out.push(f.get(r, c));
        }
    }
    out
}

/// A layer of weight one over a 1 × 2 grid whose activator and inhibitor are the given rows.
fn layer(small_amount: i64, color: Rgb, activator: &[i64], inhibitor: &[i64]) -> Scale {
    let mut scale = Scale::new(0, 0, small_amount, UNIT, 1, 2, color);
    scale.update(&grid_of(&[activator]), &grid_of(&[inhibitor]));
    scale
}

#[test]
fn a_new_layer_keeps_its_parameters() {
    let scale = Scale::new(40_000_000, 80_000_000, 500_000, UNIT, 3, 4, RED);
    assert_eq!(scale.activator_radius(), 40_000_000);
    assert_eq!(scale.inhibitor_radius(), 80_000_000);
    assert_eq!(scale.small_amount(), 500_000);
    assert_eq!(scale.weight(), UNIT);
    assert_eq!(scale.color(), RED);
    assert_eq!(scale.activator().height(), 3);
    assert_eq!(scale.activator().width(), 4);
    assert_eq!(scale.inhibitor().height(), 3);
    assert_eq!(scale.inhibitor().width(), 4);
    assert_eq!(scale.variation().height(), 3);
    assert_eq!(scale.variation().width(), 4);
}

#[test]
fn a_new_layer_starts_with_zero_grids() {
    let scale = Scale::new(1, 2, 3, 4, 2, 2, GREEN);
    assert_eq!(cells_of(scale.activator()), vec![0; 4]);
    assert_eq!(cells_of(scale.inhibitor()), vec![0; 4]);
    assert_eq!(cells_of(scale.variation()), vec![0; 4]);
}

#[test]
fn radii_may_come_in_either_order() {
    let scale = Scale::new(80_000_000, 40_000_000, 1, 0, 1, 1, BLUE);
    assert_eq!(scale.activator_sigma(), 40_000_000);
    assert_eq!(scale.inhibitor_sigma(), 20_000_000);
}

#[test]
fn sigma_is_half_the_radius() {
    let scale = Scale::new(10_000_000, 14_000_001, 1_000_000, UNIT, 2, 2, RED);
    assert_eq!(scale.activator_sigma(), 5_000_000);
    assert_eq!(scale.inhibitor_sigma(), 7_000_000);
}

#[test]
fn update_weighs_the_smoothed_fields() {
    // weight 2
    let mut scale = Scale::new(0, 0, 1_000_000, 2 * UNIT, 2, 2, RED);
    let a = grid_of(&[&[1_000_000, -2_000_000], &[0, 5]]);
    let i = grid_of(&[&[3_000_000, -2_500_000], &[-7, 5]]);
    scale.update(&a, &i);
    assert_eq!(cells_of(scale.activator()), vec![2_000_000, -4_000_000, 0, 10]);
    assert_eq!(cells_of(scale.inhibitor()), vec![6_000_000, -5_000_000, -14, 10]);
    assert_eq!(cells_of(scale.variation()), vec![4_000_000, 1_000_000, 14, 0]);
    assert_eq!(scale.small_amount(), 1_000_000);
    assert_eq!(scale.weight(), 2 * UNIT);
    assert_eq!(scale.color(), RED);
}

#[test]
fn update_with_a_negative_weight() {
    // weight -0.5
    let mut scale = Scale::new(0, 0, 1, -5_000_000, 1, 2, RED);
    scale.update(&grid_of(&[&[UNIT, 3]]), &grid_of(&[&[-UNIT, 0]]));
    assert_eq!(cells_of(scale.activator()), vec![-5_000_000, -1]);
    assert_eq!(cells_of(scale.inhibitor()), vec![5_000_000, 0]);
    assert_eq!(cells_of(scale.variation()), vec![10_000_000, 1]);
}

#[test]
fn variation_is_never_negative() {
    let mut scale = Scale::new(0, 0, 1, UNIT, 2, 3, RED);
    let a = grid_of(&[&[-9, 8, -7], &[6, -5, 4]]);
    let i = grid_of(&[&[9, -8, -7], &[-6, -5, -4]]);
    scale.update(&a, &i);
    for x in cells_of(scale.variation()) {
        assert!(x >= 0);
    }
    assert_eq!(cells_of(scale.variation()), vec![18, 16, 0, 12, 0, 8]);
    scale.update(&i, &a);
    assert_eq!(cells_of(scale.variation()), vec![18, 16, 0, 12, 0, 8]);
}

#[test]
fn update_overwrites_what_was_derived_before() {
    let mut scale = Scale::new(0, 0, 1, UNIT, 1, 2, RED);
    scale.update(&grid_of(&[&[5, 6]]), &grid_of(&[&[1, 1]]));
    scale.update(&grid_of(&[&[0, 0]]), &grid_of(&[&[0, 0]]));
    assert_eq!(cells_of(scale.activator()), vec![0, 0]);
    assert_eq!(cells_of(scale.inhibitor()), vec![0, 0]);
    assert_eq!(cells_of(scale.variation()), vec![0, 0]);
}

#[test]
fn a_draw_of_one_half_over_512_by_512() {
    let scale = Scale::from_draw(5_000_000, 512, 512, BLUE);
    // 0.5 * 512 / 4, twice that, 0.5 / 25 + 0.01
    assert_eq!(scale.activator_radius(), 64 * UNIT);
    assert_eq!(scale.inhibitor_radius(), 128 * UNIT);
    assert_eq!(scale.small_amount(), 300_000);
    assert_eq!(scale.weight(), UNIT);
    assert_eq!(scale.color(), BLUE);
    assert_eq!(scale.activator().height(), 512);
    assert_eq!(scale.activator().width(), 512);
}

#[test]
fn a_draw_uses_the_shorter_side() {
    let wide = Scale::from_draw(2_500_000, 8, 100, RED);
    assert_eq!(wide.activator_radius(), 5_000_000);
    assert_eq!(wide.inhibitor_radius(), 10_000_000);
    let tall = Scale::from_draw(2_500_000, 100, 8, RED);
    assert_eq!(tall.activator_radius(), 5_000_000);
    assert_eq!(tall.inhibitor_radius(), 10_000_000);
    assert_eq!(tall.small_amount(), 200_000);
}

#[test]
fn the_inhibitor_radius_is_twice_the_activator_radius_to_the_last_unit() {
    // draw * side = 2, 3, 6, 7: a quarter leaves a remainder of 2 or 3
    for (draw, side, activator) in [(1, 2, 0), (1, 3, 0), (3, 2, 1), (7, 1, 1), (9_999_999, 3, 7_499_999)] {
        let scale = Scale::from_draw(draw, side, side + 5, RED);
        assert_eq!(scale.activator_radius(), activator);
        assert_eq!(scale.inhibitor_radius(), 2 * activator);
        let flipped = Scale::from_draw(draw, side + 5, side, RED);
        assert_eq!(flipped.activator_radius(), activator);
        assert_eq!(flipped.inhibitor_radius(), 2 * activator);
    }
}

#[test]
fn flat_smoothed_fields_give_no_variation() {
    for (weight, value) in [(UNIT, 0), (UNIT, 3_333_333), (2 * UNIT, -7), (-5_000_000, 9_000_001)] {
        let mut scale = Scale::new(0, 0, 1_000_000, weight, 3, 2, RED);
        let flat = ScalarField::filled(3, 2, value);
        scale.update(&flat, &flat);
        let weighted = (weight as i128 * value as i128 / UNIT as i128) as i64;
        assert_eq!(cells_of(scale.activator()), vec![weighted; 6]);
        assert_eq!(cells_of(scale.inhibitor()), vec![weighted; 6]);
        assert_eq!(cells_of(scale.variation()), vec![0; 6]);
    }
}

#[test]
fn the_ends_of_the_draw() {
    let least = Scale::from_draw(0, 16, 16, RED);
    assert_eq!(least.activator_radius(), 0);
    assert_eq!(least.inhibitor_radius(), 0);
    assert_eq!(least.small_amount(), 100_000);
    let most = Scale::from_draw(UNIT - 1, 16, 16, RED);
    assert_eq!(most.activator_radius(), 39_999_996);
    assert_eq!(most.inhibitor_radius(), 79_999_992);
    assert_eq!(most.small_amount(), 499_999);
}

#[test]
fn the_layer_of_least_variation_governs() {
    let scales = vec![
        layer(1, RED, &[5, 0], &[0, 9]),
        layer(1, GREEN, &[2, 0], &[0, 4]),
        layer(1, BLUE, &[3, 7], &[0, 0]),
    ];
    // variations: [5, 2, 3] at the first pixel, [9, 4, 7] at the second
    assert_eq!(best_scale_at(&scales, 0, 0), 1);
    assert_eq!(best_scale_at(&scales, 0, 1), 1);
}

#[test]
fn of_equal_variations_the_first_layer_governs() {
    let scales = vec![
        layer(1, RED, &[3, 1], &[0, 0]),
        layer(1, GREEN, &[0, 1], &[1, 0]),
        layer(1, BLUE, &[1, 0], &[0, 2]),
    ];
    // variations: [3, 1, 1] at the first pixel, [1, 1, 2] at the second
    assert_eq!(best_scale_at(&scales, 0, 0), 1);
    assert_eq!(best_scale_at(&scales, 0, 1), 0);
    let same = vec![layer(1, RED, &[0, 0], &[0, 0]), layer(1, GREEN, &[0, 0], &[0, 0])];
    assert_eq!(best_scale_at(&same, 0, 0), 0);
    assert_eq!(best_scale_at(&same, 0, 1), 0);
}

#[test]
fn a_later_layer_governs_only_if_strictly_steadier() {
    let scales = vec![
        layer(1, RED, &[4, 4], &[0, 0]),
        layer(1, GREEN, &[4, 3], &[0, 0]),
    ];
    assert_eq!(best_scale_at(&scales, 0, 0), 0);
    assert_eq!(best_scale_at(&scales, 0, 1), 1);
}

#[test]
fn the_field_moves_up_where_the_activator_is_greater() {
    let scales = vec![layer(1_000_000, RED, &[5, -5], &[0, 0])];
    let mut grid = grid_of(&[&[0, 0]]);
    let mut colors = ColorField::zeros(1, 2);
    let extent = compose(&mut grid, &mut colors, &scales, RATIO);
    assert_eq!(cells_of(&grid), vec![1_000_000, -1_000_000]);
    assert_eq!(extent, Some((-1_000_000, 1_000_000)));
}

#[test]
fn the_field_moves_down_where_activator_and_inhibitor_are_equal() {
    let scales = vec![layer(1_000_000, RED, &[7, 0], &[7, 0])];
    let mut grid = grid_of(&[&[2_000_000, -3_000_000]]);
    let mut colors = ColorField::zeros(1, 2);
    let extent = compose(&mut grid, &mut colors, &scales, RATIO);
    assert_eq!(cells_of(&grid), vec![1_000_000, -4_000_000]);
    assert_eq!(extent, Some((-4_000_000, 1_000_000)));
}

#[test]
fn each_pixel_moves_by_the_increment_of_its_own_layer() {
    let scales = vec![
        layer(1_000_000, RED, &[1, 9], &[0, 0]),
        layer(200_000, GREEN, &[0, 0], &[5, 3]),
    ];
    // variations: [1, 5] at the first pixel, [9, 3] at the second
    let mut grid = grid_of(&[&[0, 0]]);
    let mut colors = ColorField::zeros(1, 2);
    let extent = compose(&mut grid, &mut colors, &scales, RATIO);
    assert_eq!(cells_of(&grid), vec![1_000_000, -200_000]);
    assert_eq!(extent, Some((-200_000, 1_000_000)));
    // blended toward the governing layer's color, then halved by the old value 0
    assert_eq!(colors.pixel(0, 0), Rgb { red: 38, green: 0, blue: 0 });
    assert_eq!(colors.pixel(0, 1), Rgb { red: 0, green: 38, blue: 0 });
}

#[test]
fn colors_are_dimmed_by_the_value_before_the_move() {
    let scales = vec![layer(5_000_000, BLUE, &[1, 1], &[0, 0])];
    // old values 1 and -1: full brightness and none
    let mut grid = grid_of(&[&[UNIT, -UNIT]]);
    let mut colors = ColorField::zeros(1, 2);
    colors.set_pixel(0, 0, Rgb { red: 100, green: 50, blue: 0 });
    colors.set_pixel(0, 1, Rgb { red: 100, green: 50, blue: 0 });
    compose(&mut grid, &mut colors, &scales, RATIO);
    // 0.7 * (100, 50, 0) + 0.3 * (0, 0, 255) = (70, 35, 76.5)
    assert_eq!(colors.pixel(0, 0), Rgb { red: 70, green: 35, blue: 76 });
    assert_eq!(colors.pixel(0, 1), Rgb { red: 0, green: 0, blue: 0 });
    assert_eq!(cells_of(&grid), vec![15_000_000, -5_000_000]);
}

#[test]
fn the_extent_is_that_of_the_moved_values_alone() {
    let scales = vec![layer(1_000_000, RED, &[1, 1], &[0, 0])];
    let mut grid = grid_of(&[&[3_000_000, 5_000_000]]);
    let mut colors = ColorField::zeros(1, 2);
    let extent = compose(&mut grid, &mut colors, &scales, RATIO);
    assert_eq!(extent, Some((4_000_000, 6_000_000)));
}
