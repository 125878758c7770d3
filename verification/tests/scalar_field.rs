use turing_patterns::field::{check_shape, ScalarField};
use turing_patterns::fixed::UNIT;

fn grid_of(rows: &[&[i64]]) -> ScalarField {
    let height = rows.len();
    let width = rows[0].len();
    let mut f = ScalarField::filled(height, width, 0);
    for r in 0..height {
        for c in 0..width {
            f.set(r, c, rows[r][c]);
        }
    }
    f
}

fn cells_of(f: &ScalarField) -> Vec<i64> {
    let mut out = Vec::new();
    for r in 0..f.height() {
        for c in 0..f.width() {
            out.push(f.get(r, c));
        }
    }
    out
}

#[test]
fn filled_grid_holds_the_value_everywhere() {
    let f = ScalarField::filled(2, 3, 7);
    assert_eq!(f.height(), 2);
    assert_eq!(f.width(), 3);
    assert_eq!(cells_of(&f), vec![7; 6]);
}

#[test]
fn grids_without_cells_keep_their_shape() {
    let f = ScalarField::filled(0, 5, 1);
    assert_eq!(f.height(), 0);
    assert_eq!(f.width(), 5);
    let g = ScalarField::filled(4, 0, 1);
    assert_eq!(g.height(), 4);
    assert_eq!(g.width(), 0);
}

#[test]
fn set_changes_one_cell_only() {
    let mut f = ScalarField::filled(2, 2, 1);
    f.set(1, 0, -5);
    assert_eq!(cells_of(&f), vec![1, 1, -5, 1]);
}

#[test]
fn rows_and_columns_are_not_mixed_up() {
    let mut f = ScalarField::filled(2, 3, 0);
    f.set(0, 2, 9);
    f.set(1, 0, 4);
    assert_eq!(f.get(0, 2), 9);
    assert_eq!(f.get(1, 0), 4);
    assert_eq!(cells_of(&f), vec![0, 0, 9, 4, 0, 0]);
}

#[test]
fn shapes_that_fit() {
    assert!(check_shape(512, 512));
    assert!(check_shape(0, 0));
    assert!(check_shape(0, 1000));
    assert!(check_shape(1, (isize::MAX / 8) as usize));
    assert!(!check_shape(2, (isize::MAX / 8) as usize));
    assert!(!check_shape(0, (isize::MAX / 8) as usize + 1));
    assert!(!check_shape(usize::MAX, 0));
    assert!(!check_shape(usize::MAX, usize::MAX));
}

#[test]
fn is_bounded_looks_at_every_cell() {
    let f = grid_of(&[&[1, -2, 3], &[-4, 5, -6]]);
    assert!(f.is_bounded(6));
    assert!(!f.is_bounded(5));
    assert!(f.is_bounded(i64::MAX));
    let g = grid_of(&[&[0, 0], &[0, i64::MIN]]);
    assert!(!g.is_bounded(i64::MAX));
    assert!(ScalarField::filled(0, 3, 99).is_bounded(0));
}

#[test]
fn extent_is_the_least_and_the_greatest_value() {
    let f = grid_of(&[&[1, -2, 3], &[-4, 5, -6]]);
    assert_eq!(f.extent(), Some((-6, 5)));
    let g = ScalarField::filled(3, 3, 8);
    assert_eq!(g.extent(), Some((8, 8)));
    // the extent is of the cells alone: zero is not part of it
    let p = grid_of(&[&[3, 4], &[5, 6]]);
    assert_eq!(p.extent(), Some((3, 6)));
}

#[test]
fn extent_of_a_grid_without_cells_is_none() {
    assert_eq!(ScalarField::filled(0, 4, 1).extent(), None);
    assert_eq!(ScalarField::filled(4, 0, 1).extent(), None);
}

#[test]
fn rescale_maps_each_cell() {
    let mut f = grid_of(&[&[0, 1], &[2, 3]]);
    f.rescale(0, 3);
    assert_eq!(cells_of(&f), vec![-UNIT, 6_666_666 - UNIT, 13_333_333 - UNIT, UNIT]);
}

#[test]
fn rescale_with_a_wider_range_stays_inside() {
    let mut f = grid_of(&[&[0, 1], &[2, 3]]);
    f.rescale(-1, 7);
    assert_eq!(cells_of(&f), vec![-7_500_000, -5_000_000, -2_500_000, 0]);
}

#[test]
fn normalize_puts_every_value_between_minus_one_and_one() {
    let mut f = grid_of(&[&[-11_000_000, 250, 9_999_999], &[10_100_000, -3, 0]]);
    f.normalize();
    let cells = cells_of(&f);
    for x in &cells {
        assert!(-UNIT <= *x && *x <= UNIT);
    }
    assert_eq!(cells[0], -UNIT);
    assert_eq!(cells[3], UNIT);
    assert_eq!(f.height(), 2);
    assert_eq!(f.width(), 3);
}

#[test]
fn normalize_keeps_the_order_of_values() {
    let mut f = grid_of(&[&[5, 1, 3]]);
    f.normalize();
    assert_eq!(cells_of(&f), vec![UNIT, -UNIT, 0]);
}

#[test]
fn normalize_of_a_flat_grid_gives_zero() {
    let mut f = ScalarField::filled(2, 2, -1_000_000);
    f.normalize();
    assert_eq!(cells_of(&f), vec![0, 0, 0, 0]);
}

#[test]
fn normalize_of_a_grid_without_cells_does_nothing() {
    let mut f = ScalarField::filled(0, 2, 5);
    f.normalize();
    assert_eq!(f.height(), 0);
    assert_eq!(f.width(), 2);
}

#[test]
fn gray_levels_are_listed_row_by_row() {
    let f = grid_of(&[&[-UNIT, 0, 5_000_000], &[UNIT, -5_000_000, 2 * UNIT]]);
    assert_eq!(f.to_gray_levels(), vec![0, 128, 192, 255, 64, 255]);
}

#[test]
fn gray_levels_become_field_values() {
    let levels: Vec<u8> = vec![0, 128, 255, 64, 192, 1];
    let f = ScalarField::from_gray_levels(2, 3, &levels).unwrap();
    assert_eq!(f.height(), 2);
    assert_eq!(f.width(), 3);
    assert_eq!(cells_of(&f), vec![-UNIT, 0, 9_921_875, -5_000_000, 5_000_000, -9_921_875]);
    assert_eq!(f.to_gray_levels(), levels);
}

#[test]
fn gray_levels_of_the_wrong_length_are_refused() {
    let levels: Vec<u8> = vec![0, 128, 255, 64, 192];
    assert!(ScalarField::from_gray_levels(2, 3, &levels).is_none());
    assert!(ScalarField::from_gray_levels(5, 1, &levels).is_some());
    assert!(ScalarField::from_gray_levels(1, 5, &levels).is_some());
    assert!(ScalarField::from_gray_levels(0, 0, &levels).is_none());
    assert!(ScalarField::from_gray_levels(usize::MAX, 1, &levels).is_none());
}

#[test]
fn no_gray_levels_make_a_grid_without_cells() {
    let levels: Vec<u8> = Vec::new();
    let f = ScalarField::from_gray_levels(0, 7, &levels).unwrap();
    assert_eq!(f.height(), 0);
    assert_eq!(f.width(), 7);
    assert_eq!(f.to_gray_levels(), levels);
}
