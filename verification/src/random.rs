//! The seeded source of the random choices made when a run is set up.

use vstd::prelude::*;
use rand::rngs::StdRng;
use rand::distributions::Uniform;
use ndarray_rand::RandomExt;
use crate::fixed::UNIT;
use crate::field::{ScalarField, field_cells, field_shape, shape_fits};
use crate::color::{ColorField, Rgb};
use crate::scale::{Scale, shorter};
use crate::compose::layers_fit;

verus! {

#[verifier::external_type_specification]
#[verifier::external_body]
pub struct ExStdRng(StdRng);

/// A generator of pseudo-random numbers, started from a seed.
pub struct Generator {
    source: StdRng,
}

/// `rand::SeedableRng::seed_from_u64` for `rand::rngs::StdRng`: a generator
/// whose state is derived from `seed`. Nothing is claimed of the numbers it
/// will give.
#[verifier::external_body]
fn seeded_source(seed: u64) -> (source: StdRng) {
    rand::SeedableRng::seed_from_u64(seed)
}

/// `rand::Rng::gen_range` on the range `0..bound`: some number of that
/// range. It panics on an empty range, which the `requires` keeps away.
#[verifier::external_body]
fn draw_below(source: &mut StdRng, bound: u64) -> (x: u64)
    requires
        bound > 0,
    ensures
        x < bound,
{
    rand::Rng::gen_range(source, 0..bound)
}

/// `ndarray_rand::RandomExt::random_using` with the distribution
/// `rand::distributions::Uniform::new(low, high)`: an array of the given
/// shape whose every entry is some number of `low..high`. The `requires`
/// keeps away the empty range, on which `Uniform::new` panics, and the shapes
/// on which the array's construction panics.
#[verifier::external_body]
fn array_random(height: usize, width: usize, low: i64, high: i64, source: &mut StdRng) -> (f:
    ScalarField)
    requires
        shape_fits(height as int, width as int),
        low < high,
    ensures
        field_shape(f) == (height, width),
        forall|r: int, c: int|
            0 <= r < height && 0 <= c < width ==> low <= #[trigger] field_cells(f)[(r, c)] < high,
{
    ScalarField {
        cells: ndarray::Array2::random_using((height, width), Uniform::new(low, high), source),
    }
}

/// The index into `len` places that the draw `draw`, a raw value of
/// `0 .. 1`, points at: `len * draw`, rounded down.
pub open spec fn place_of(len: int, draw: int) -> int {
    len * draw / (UNIT as int)
}

/// A draw below one points at a place below `len`.
pub proof fn lemma_place_in_range(len: int, draw: int)
    requires
        0 < len,
        0 <= draw < UNIT,
    ensures
        0 <= place_of(len, draw) < len,
{
    let unit = UNIT as int;
    assert(0 <= len * draw / unit < len) by (nonlinear_arith)
        requires
            0 < len,
            0 <= draw < unit,
            unit > 0,
    ;
}

/// The index into `len` places that a draw points at (see [`place_of`]).
pub fn index_from_draw(len: usize, draw: i64) -> (place: usize)
    requires
        len > 0,
        0 <= draw < UNIT,
    ensures
        place == place_of(len as int, draw as int),
        place < len,
{
    proof {
        lemma_place_in_range(len as int, draw as int);
    }
    assert(0 <= len * draw <= usize::MAX * UNIT) by (nonlinear_arith)
        requires
            0 <= len <= usize::MAX,
            0 <= draw < UNIT,
    ;
    let wide: u128 = (len as u128) * (draw as u128) / (UNIT as u128);
    wide as usize
}

/// The color of the pixel of `colors` that two draws point at: the first
/// picks the row, the second the column.
pub fn sampled_color(colors: &ColorField, row_draw: i64, col_draw: i64) -> (color: Rgb)
    requires
        colors.spec_height() > 0,
        colors.spec_width() > 0,
        0 <= row_draw < UNIT,
        0 <= col_draw < UNIT,
    ensures
        color == colors.at(
            place_of(colors.spec_height() as int, row_draw as int),
            place_of(colors.spec_width() as int, col_draw as int),
        ),
        color_choice(true, colors, color),
{
    let row = index_from_draw(colors.height(), row_draw);
    let col = index_from_draw(colors.width(), col_draw);
    assert(colors.holds(row as int, col as int));
    colors.pixel(row, col)
}

/// What holds of a layer's color however the draws fall: sampled from the
/// input, it is the color of one of its pixels; drawn freely, each channel
/// is below 255.
pub open spec fn color_choice(from_input: bool, colors: &ColorField, color: Rgb) -> bool {
    if from_input {
        exists|r: int, c: int| colors.holds(r, c) && #[trigger] colors.at(r, c) == color
    } else {
        color.red < 255 && color.green < 255 && color.blue < 255
    }
}

impl Generator {
    /// A generator started from `seed`.
    pub fn from_seed(seed: u64) -> (generator: Generator) {
        Generator { source: seeded_source(seed) }
    }

    /// Some number below `bound`.
    pub fn below(&mut self, bound: u64) -> (x: u64)
        requires
            bound > 0,
        ensures
            x < bound,
    {
        draw_below(&mut self.source, bound)
    }

    /// Some raw value of `0 .. 1`.
    pub fn fraction(&mut self) -> (draw: i64)
        ensures
            0 <= draw < UNIT,
    {
        draw_below(&mut self.source, UNIT as u64) as i64
    }

    /// A grid of `height` × `width` cells, each some raw value of `-1 .. 1`.
    pub fn field(&mut self, height: usize, width: usize) -> (f: ScalarField)
        requires
            shape_fits(height as int, width as int),
        ensures
            f.spec_height() == height,
            f.spec_width() == width,
            forall|r: int, c: int| f.holds(r, c) ==> -UNIT <= #[trigger] f.at(r, c) < UNIT,
            f.bounded(UNIT as int),
    {
        array_random(height, width, -UNIT, UNIT, &mut self.source)
    }
}

/// Picks the display color of a layer: the color of a pixel of `colors`
/// chosen by two draws where `from_input` is set, three freely drawn
/// channels below 255 where it is not.
pub fn pick_random_color(from_input: bool, colors: &ColorField, generator: &mut Generator) -> (color:
    Rgb)
    requires
        from_input ==> colors.spec_height() > 0 && colors.spec_width() > 0,
    ensures
        color_choice(from_input, colors, color),
{
    if !from_input {
        let red = generator.below(255) as u8;
        let green = generator.below(255) as u8;
        let blue = generator.below(255) as u8;
        return Rgb { red, green, blue };
    }
    let row_draw = generator.fraction();
    let col_draw = generator.fraction();
    sampled_color(colors, row_draw, col_draw)
}

/// Draws `count` layers for a grid of the shape of `colors`: each from one
/// draw of `0 .. 1` (see [`Scale::drawn`]), with a color picked by
/// [`pick_random_color`].
pub fn draw_scales(count: usize, from_input: bool, colors: &ColorField, generator: &mut Generator) -> (scales:
    Vec<Scale>)
    requires
        shape_fits(colors.spec_height() as int, colors.spec_width() as int),
        from_input ==> colors.spec_height() > 0 && colors.spec_width() > 0,
    ensures
        scales@.len() == count,
        layers_fit(scales@, colors.spec_height() as int, colors.spec_width() as int),
        forall|s: int|
            0 <= s < count ==> color_choice(from_input, colors, (#[trigger] scales@[s]).spec_color()),
        forall|s: int| 0 <= s < count ==> (#[trigger] scales@[s]).is_blank(),
        forall|s: int|
            0 <= s < count ==> (#[trigger] scales@[s]).drawn(
                shorter(colors.spec_height() as int, colors.spec_width() as int),
            ),
{
    let height = colors.height();
    let width = colors.width();
    let mut scales: Vec<Scale> = Vec::new();
    let mut n: usize = 0;
    while n < count
        invariant
            n <= count,
            scales@.len() == n,
            height == colors.spec_height(),
            width == colors.spec_width(),
            shape_fits(height as int, width as int),
            from_input ==> height > 0 && width > 0,
            layers_fit(scales@, height as int, width as int),
            forall|s: int|
                0 <= s < n ==> color_choice(from_input, colors, (#[trigger] scales@[s]).spec_color()),
            forall|s: int| 0 <= s < n ==> (#[trigger] scales@[s]).is_blank(),
            forall|s: int|
                0 <= s < n ==> (#[trigger] scales@[s]).drawn(shorter(height as int, width as int)),
        decreases count - n,
    {
        let draw = generator.fraction();
        let color = pick_random_color(from_input, colors, generator);
        let scale = Scale::from_draw(draw, height, width, color);
        scales.push(scale);
        n += 1;
    }
    scales
}

} // verus!
