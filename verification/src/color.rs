//! Colors of three 8-bit channels, and grids of them.

use vstd::prelude::*;
use crate::fixed::UNIT;
use crate::field::{shape_fits, check_shape, listing_index, lemma_listing_index, lemma_listing_row};

verus! {

/// A color of three 8-bit channels.
#[derive(Clone, Copy, Debug, PartialEq, Eq, Structural)]
pub struct Rgb {
    pub red: u8,
    pub green: u8,
    pub blue: u8,
}

/// A channel value moved from `from` toward `to` by the raw ratio `ratio`:
/// `from * (1 - ratio) + to * ratio`, rounded down.
pub open spec fn blended(from: int, to: int, ratio: int) -> int {
    (from * (UNIT - ratio) + to * ratio) / (UNIT as int)
}

/// A channel value dimmed by the raw field value `level`:
/// `channel * (level + 1) / 2`, rounded down and cut off at 0 and 255.
pub open spec fn shaded(channel: int, level: int) -> int {
    if level <= -UNIT {
        0
    } else if channel * (level + UNIT) / (2 * UNIT) > 255 {
        255
    } else {
        channel * (level + UNIT) / (2 * UNIT)
    }
}

/// A blend with a ratio between zero and one is a convex combination: it
/// lies between the value it starts from and the value it moves toward.
pub proof fn lemma_blend_is_convex(from: int, to: int, ratio: int)
    requires
        0 <= ratio <= UNIT,
    ensures
        from <= to ==> from <= blended(from, to, ratio) <= to,
        to <= from ==> to <= blended(from, to, ratio) <= from,
        blended(from, to, 0) == from,
        blended(from, to, UNIT as int) == to,
{
    let unit = UNIT as int;
    let sum = from * (unit - ratio) + to * ratio;
    assert(from <= to ==> from * unit <= sum <= to * unit) by (nonlinear_arith)
        requires
            0 <= ratio <= unit,
            sum == from * (unit - ratio) + to * ratio,
    ;
    assert(to <= from ==> to * unit <= sum <= from * unit) by (nonlinear_arith)
        requires
            0 <= ratio <= unit,
            sum == from * (unit - ratio) + to * ratio,
    ;
    assert(from * unit / unit == from && to * unit / unit == to) by (nonlinear_arith)
        requires
            unit > 0,
    ;
    assert(from * unit <= sum ==> from * unit / unit <= sum / unit) by (nonlinear_arith)
        requires
            unit > 0,
    ;
    assert(sum <= to * unit ==> sum / unit <= to * unit / unit) by (nonlinear_arith)
        requires
            unit > 0,
    ;
    assert(to * unit <= sum ==> to * unit / unit <= sum / unit) by (nonlinear_arith)
        requires
            unit > 0,
    ;
    assert(sum <= from * unit ==> sum / unit <= from * unit / unit) by (nonlinear_arith)
        requires
            unit > 0,
    ;
    assert(from * (unit - 0) + to * 0 == from * unit) by (nonlinear_arith);
    assert(from * (unit - unit) + to * unit == to * unit) by (nonlinear_arith);
}

/// Moves one channel toward a target (see [`blended`]).
pub fn blend_channel(from: u8, to: u8, ratio: i64) -> (mixed: u8)
    requires
        0 <= ratio <= UNIT,
    ensures
        mixed == blended(from as int, to as int, ratio as int),
        from <= to ==> from <= mixed <= to,
        to <= from ==> to <= mixed <= from,
{
    proof {
        lemma_blend_is_convex(from as int, to as int, ratio as int);
    }
    assert(0 <= from * (UNIT - ratio) <= 255 * UNIT && 0 <= to * ratio <= 255 * UNIT)
        by (nonlinear_arith)
        requires
            0 <= ratio <= UNIT,
            0 <= from <= 255,
            0 <= to <= 255,
    ;
    let sum: i64 = (from as i64) * (UNIT - ratio) + (to as i64) * ratio;
    (sum / UNIT) as u8
}

/// Dims one channel by a field value (see [`shaded`]).
pub fn shade_channel(channel: u8, level: i64) -> (dimmed: u8)
    ensures
        dimmed == shaded(channel as int, level as int),
{
    if level <= -UNIT {
        0
    } else {
        let gain: i128 = (level as i128) + (UNIT as i128);
        assert(0 <= channel * gain <= 255 * gain) by (nonlinear_arith)
            requires
                0 <= channel <= 255,
                0 < gain,
        ;
        let scaled: i128 = (channel as i128) * gain / (2 * UNIT as i128);
        if scaled > 255 {
            255
        } else {
            scaled as u8
        }
    }
}

impl Rgb {
    /// The color with each channel moved toward `target` by `ratio`.
    pub open spec fn blended(self, target: Rgb, ratio: int) -> Rgb {
        Rgb {
            red: blended(self.red as int, target.red as int, ratio) as u8,
            green: blended(self.green as int, target.green as int, ratio) as u8,
            blue: blended(self.blue as int, target.blue as int, ratio) as u8,
        }
    }

    /// The color with each channel dimmed by the field value `level`.
    pub open spec fn shaded(self, level: int) -> Rgb {
        Rgb {
            red: shaded(self.red as int, level) as u8,
            green: shaded(self.green as int, level) as u8,
            blue: shaded(self.blue as int, level) as u8,
        }
    }

    /// Channel `k` of the color: 0 is red, 1 green, anything else blue.
    pub open spec fn channel(self, k: int) -> u8 {
        if k == 0 {
            self.red
        } else if k == 1 {
            self.green
        } else {
            self.blue
        }
    }

    /// Moves each channel toward `target` by `ratio`.
    pub fn blend(self, target: Rgb, ratio: i64) -> (mixed: Rgb)
        requires
            0 <= ratio <= UNIT,
        ensures
            mixed == self.blended(target, ratio as int),
    {
        Rgb {
            red: blend_channel(self.red, target.red, ratio),
            green: blend_channel(self.green, target.green, ratio),
            blue: blend_channel(self.blue, target.blue, ratio),
        }
    }

    /// Dims each channel by the field value `level`.
    pub fn shade(self, level: i64) -> (dimmed: Rgb)
        ensures
            dimmed == self.shaded(level as int),
    {
        Rgb {
            red: shade_channel(self.red, level),
            green: shade_channel(self.green, level),
            blue: shade_channel(self.blue, level),
        }
    }
}

/// A height × width grid of colors, kept in an `ndarray` array of three axes
/// whose last axis has length three. The array is hidden from the verifier:
/// what it holds is spoken of through [`palette_shape`] and [`palette_cells`].
#[verifier::external_body]
pub struct ColorField {
    pub(crate) cells: ndarray::Array3<u8>,
}

/// The lengths of the first two axes of the array behind a color grid: rows,
/// then columns.
pub uninterp spec fn palette_shape(f: ColorField) -> (usize, usize);

/// The entries of the array behind a color grid, keyed by row, column and
/// channel.
pub uninterp spec fn palette_cells(f: ColorField) -> Map<(int, int, int), u8>;

/// `ndarray::ArrayBase::zeros` with the shape `(height, width, 3)`: an array
/// of that shape whose every entry is zero. The `requires` keeps away the
/// shapes on which it panics.
#[verifier::external_body]
fn palette_zeros(height: usize, width: usize) -> (f: ColorField)
    requires
        shape_fits(height as int, width as int),
    ensures
        palette_shape(f) == (height, width),
        forall|r: int, c: int, k: int|
            0 <= r < height && 0 <= c < width && 0 <= k < 3 ==> #[trigger] palette_cells(f)[(
                r,
                c,
                k,
            )] == 0,
{
    ColorField { cells: ndarray::Array3::zeros((height, width, 3)) }
}

/// `ndarray::ArrayBase::dim` on an array of three axes: the lengths of the
/// first two.
#[verifier::external_body]
fn palette_dims(f: &ColorField) -> (shape: (usize, usize))
    ensures
        shape == palette_shape(*f),
{
    let (height, width, _) = f.cells.dim();
    (height, width)
}

/// Indexing an `ndarray` array by `[row, col, channel]` (`Index::index`): the
/// entry at that place. It panics out of bounds, which the `requires` keeps
/// away.
#[verifier::external_body]
fn palette_get(f: &ColorField, row: usize, col: usize, channel: usize) -> (value: u8)
    requires
        row < palette_shape(*f).0,
        col < palette_shape(*f).1,
        channel < 3,
    ensures
        value == palette_cells(*f)[(row as int, col as int, channel as int)],
{
    f.cells[[row, col, channel]]
}

/// Assigning through an `ndarray` index `[row, col, channel]`
/// (`IndexMut::index_mut`): that entry becomes `value`, the shape and every
/// other entry stay. It panics out of bounds, which the `requires` keeps away.
#[verifier::external_body]
fn palette_set(f: &mut ColorField, row: usize, col: usize, channel: usize, value: u8)
    requires
        row < palette_shape(*old(f)).0,
        col < palette_shape(*old(f)).1,
        channel < 3,
    ensures
        palette_shape(*final(f)) == palette_shape(*old(f)),
        palette_cells(*final(f)) == palette_cells(*old(f)).insert(
            (row as int, col as int, channel as int),
            value,
        ),
{
    f.cells[[row, col, channel]] = value;
}

/// Color grids that are alike have the same view.
pub proof fn lemma_alike_colors_have_one_view(a: &ColorField, b: &ColorField)
    requires
        a.alike(b),
    ensures
        a@ == b@,
{
    assert forall|r: int| 0 <= r < a@.len() implies a@[r] == b@[r] by {
        assert forall|c: int| 0 <= c < a@[r].len() implies a@[r][c] == b@[r][c] by {
            assert(a.holds(r, c));
        }
        assert(a@[r] =~= b@[r]);
    }
    assert(a@ =~= b@);
}

impl View for ColorField {
    type V = Seq<Seq<Rgb>>;

    /// The rows of the grid, top to bottom, each left to right.
    open spec fn view(&self) -> Seq<Seq<Rgb>> {
        Seq::new(
            self.spec_height() as nat,
            |r: int| Seq::new(self.spec_width() as nat, |c: int| self.at(r, c)),
        )
    }
}

impl ColorField {
    /// Number of rows.
    pub open spec fn spec_height(&self) -> usize {
        palette_shape(*self).0
    }

    /// Number of columns.
    pub open spec fn spec_width(&self) -> usize {
        palette_shape(*self).1
    }

    /// The color at row `r`, column `c`; equal to `self@[r][c]` inside the grid.
    pub open spec fn at(&self, r: int, c: int) -> Rgb {
        Rgb {
            red: palette_cells(*self)[(r, c, 0)],
            green: palette_cells(*self)[(r, c, 1)],
            blue: palette_cells(*self)[(r, c, 2)],
        }
    }

    /// Whether row `r`, column `c` lies inside the grid.
    pub open spec fn holds(&self, r: int, c: int) -> bool {
        0 <= r < self.spec_height() && 0 <= c < self.spec_width()
    }

    /// Whether two grids have the same shape and the same color in every
    /// pixel.
    pub open spec fn alike(&self, other: &ColorField) -> bool {
        &&& self.spec_height() == other.spec_height()
        &&& self.spec_width() == other.spec_width()
        &&& forall|r: int, c: int| self.holds(r, c) ==> #[trigger] self.at(r, c) == other.at(r, c)
    }

    /// A grid of `height` × `width` black pixels.
    pub fn zeros(height: usize, width: usize) -> (f: ColorField)
        requires
            shape_fits(height as int, width as int),
        ensures
            f.spec_height() == height,
            f.spec_width() == width,
            forall|r: int, c: int|
                f.holds(r, c) ==> #[trigger] f.at(r, c) == (Rgb { red: 0, green: 0, blue: 0 }),
    {
        palette_zeros(height, width)
    }

    /// Number of rows.
    #[verifier::when_used_as_spec(spec_height)]
    pub fn height(&self) -> (h: usize)
        ensures
            h == self.spec_height(),
    {
        palette_dims(self).0
    }

    /// Number of columns.
    #[verifier::when_used_as_spec(spec_width)]
    pub fn width(&self) -> (w: usize)
        ensures
            w == self.spec_width(),
    {
        palette_dims(self).1
    }

    /// The color at row `row`, column `col`.
    pub fn pixel(&self, row: usize, col: usize) -> (color: Rgb)
        requires
            self.holds(row as int, col as int),
        ensures
            color == self.at(row as int, col as int),
    {
        Rgb {
            red: palette_get(self, row, col, 0),
            green: palette_get(self, row, col, 1),
            blue: palette_get(self, row, col, 2),
        }
    }

    /// Stores `color` at row `row`, column `col`.
    pub fn set_pixel(&mut self, row: usize, col: usize, color: Rgb)
        requires
            old(self).holds(row as int, col as int),
        ensures
            final(self).spec_height() == old(self).spec_height(),
            final(self).spec_width() == old(self).spec_width(),
            final(self).at(row as int, col as int) == color,
            forall|r: int, c: int|
                r != row || c != col ==> #[trigger] final(self).at(r, c) == old(self).at(r, c),
    {
        palette_set(self, row, col, 0, color.red);
        palette_set(self, row, col, 1, color.green);
        palette_set(self, row, col, 2, color.blue);
    }

    /// The grid as bytes: row by row, pixel by pixel, red, green, then blue.
    pub fn to_bytes(&self) -> (bytes: Vec<u8>)
        ensures
            bytes@.len() == self.spec_height() * self.spec_width() * 3,
            forall|r: int, c: int, k: int|
                self.holds(r, c) && 0 <= k < 3 ==> bytes@[listing_index(
                    r,
                    c,
                    self.spec_width() as int,
                ) * 3 + k] == #[trigger] self.at(r, c).channel(k),
    {
        let h = self.height();
        let w = self.width();
        let mut bytes: Vec<u8> = Vec::new();
        let mut r: usize = 0;
        while r < h
            invariant
                h == self.spec_height(),
                w == self.spec_width(),
                r <= h,
                bytes@.len() == listing_index(r as int, 0, w as int) * 3,
                forall|i: int, j: int, k: int|
                    0 <= i < r && 0 <= j < w && 0 <= k < 3 ==> bytes@[listing_index(i, j, w as int)
                        * 3 + k] == #[trigger] self.at(i, j).channel(k),
            decreases h - r,
        {
            let mut c: usize = 0;
            while c < w
                invariant
                    h == self.spec_height(),
                    w == self.spec_width(),
                    r < h,
                    c <= w,
                    bytes@.len() == listing_index(r as int, c as int, w as int) * 3,
                    forall|i: int, j: int, k: int|
                        0 <= i < r && 0 <= j < w && 0 <= k < 3 ==> bytes@[listing_index(
                            i,
                            j,
                            w as int,
                        ) * 3 + k] == #[trigger] self.at(i, j).channel(k),
                    forall|j: int, k: int|
                        0 <= j < c && 0 <= k < 3 ==> bytes@[listing_index(r as int, j, w as int)
                            * 3 + k] == #[trigger] self.at(r as int, j).channel(k),
                decreases w - c,
            {
                let ghost before = bytes@;
                let color = self.pixel(r, c);
                bytes.push(color.red);
                bytes.push(color.green);
                bytes.push(color.blue);
                proof {
                    assert forall|i: int, j: int, k: int|
                        0 <= i < r && 0 <= j < w && 0 <= k < 3 implies bytes@[listing_index(
                        i,
                        j,
                        w as int,
                    ) * 3 + k] == #[trigger] self.at(i, j).channel(k) by {
                        lemma_listing_index(i, j, r as int, w as int);
                        assert(r * w * 3 <= before.len()) by (nonlinear_arith)
                            requires
                                before.len() == (r * w + c) * 3,
                                c >= 0,
                        ;
                        assert(bytes@[listing_index(i, j, w as int) * 3 + k] == before[listing_index(
                            i,
                            j,
                            w as int,
                        ) * 3 + k]);
                    }
                }
                c += 1;
            }
            proof {
                lemma_listing_row(r as int, h as int, w as int);
            }
            r += 1;
        }
        proof {
            lemma_listing_row(0, h as int + 1, w as int);
            assert(listing_index(h as int, 0, w as int) * 3 == h * w * 3) by (nonlinear_arith)
                requires
                    listing_index(h as int, 0, w as int) == h * w,
            ;
        }
        bytes
    }

    /// The grid of `height` × `width` pixels whose bytes are `bytes`, listed
    /// row by row, pixel by pixel, red, green, then blue. `None` when the shape
    /// cannot be allocated or does not have `bytes.len()` channel values.
    pub fn from_bytes(height: usize, width: usize, bytes: &Vec<u8>) -> (made: Option<ColorField>)
        ensures
            made is Some <==> shape_fits(height as int, width as int) && bytes@.len() == height
                * width * 3,
            made matches Some(f) ==> {
                &&& f.spec_height() == height
                &&& f.spec_width() == width
                &&& forall|r: int, c: int, k: int|
                    f.holds(r, c) && 0 <= k < 3 ==> #[trigger] f.at(r, c).channel(k)
                        == bytes@[listing_index(r, c, width as int) * 3 + k]
            },
    {
        if !check_shape(height, width) {
            return None;
        }
        assert(height * width * 3 <= usize::MAX) by (nonlinear_arith)
            requires
                height * width * 8 <= isize::MAX,
                isize::MAX <= usize::MAX,
                0 <= height * width,
        ;
        let count: usize = height * width * 3;
        if bytes.len() != count {
            return None;
        }
        let mut f = ColorField::zeros(height, width);
        let mut k: usize = 0;
        let mut r: usize = 0;
        while r < height
            invariant
                f.spec_height() == height,
                f.spec_width() == width,
                bytes@.len() == height * width * 3,
                height * width * 3 <= usize::MAX,
                r <= height,
                k == listing_index(r as int, 0, width as int) * 3,
                forall|i: int, j: int, n: int|
                    0 <= i < r && 0 <= j < width && 0 <= n < 3 ==> #[trigger] f.at(i, j).channel(
                        n,
                    ) == bytes@[listing_index(i, j, width as int) * 3 + n],
            decreases height - r,
        {
            let mut c: usize = 0;
            while c < width
                invariant
                    f.spec_height() == height,
                    f.spec_width() == width,
                    bytes@.len() == height * width * 3,
                    height * width * 3 <= usize::MAX,
                    r < height,
                    c <= width,
                    k == listing_index(r as int, c as int, width as int) * 3,
                    forall|i: int, j: int, n: int|
                        0 <= i < r && 0 <= j < width && 0 <= n < 3 ==> #[trigger] f.at(
                            i,
                            j,
                        ).channel(n) == bytes@[listing_index(i, j, width as int) * 3 + n],
                    forall|j: int, n: int|
                        0 <= j < c && 0 <= n < 3 ==> #[trigger] f.at(r as int, j).channel(n)
                            == bytes@[listing_index(r as int, j, width as int) * 3 + n],
                decreases width - c,
            {
                proof {
                    lemma_listing_index(r as int, c as int, height as int, width as int);
                    assert(k + 3 <= height * width * 3) by (nonlinear_arith)
                        requires
                            k == listing_index(r as int, c as int, width as int) * 3,
                            listing_index(r as int, c as int, width as int) < height * width,
                    ;
                }
                let color = Rgb { red: bytes[k], green: bytes[k + 1], blue: bytes[k + 2] };
                f.set_pixel(r, c, color);
                k += 3;
                c += 1;
            }
            proof {
                lemma_listing_row(r as int, height as int, width as int);
            }
            r += 1;
        }
        Some(f)
    }
}

} // verus!
