//! Dense two-dimensional grids of raw fixed-point values.

use vstd::prelude::*;
use crate::fixed::{
    UNIT, fixed_to_level, gray_level, level_to_fixed, level_value, stretch, stretched, within,
};

verus! {

/// A height × width grid of raw fixed-point values, kept in an `ndarray`
/// array of two axes. The array is hidden from the verifier: what it holds
/// is spoken of through [`field_shape`] and [`field_cells`].
#[verifier::external_body]
pub struct ScalarField {
    pub(crate) cells: ndarray::Array2<i64>,
}

/// The lengths of the two axes of the array behind a field: rows, then columns.
pub uninterp spec fn field_shape(f: ScalarField) -> (usize, usize);

/// The entries of the array behind a field, keyed by row and column.
pub uninterp spec fn field_cells(f: ScalarField) -> Map<(int, int), i64>;

/// Whether a grid of `height` × `width` cells of up to eight bytes each can
/// be allocated: neither an axis nor the whole grid may take more than
/// `isize::MAX` bytes.
pub open spec fn shape_fits(height: int, width: int) -> bool {
    &&& 0 <= height
    &&& 0 <= width
    &&& height * 8 <= isize::MAX
    &&& width * 8 <= isize::MAX
    &&& height * width * 8 <= isize::MAX
}

/// Decides [`shape_fits`].
pub fn check_shape(height: usize, width: usize) -> (fits: bool)
    ensures
        fits == shape_fits(height as int, width as int),
{
    let cap: u128 = (isize::MAX as u128) / 8;
    if height as u128 > cap || width as u128 > cap {
        return false;
    }
    assert((height as u128) * (width as u128) <= cap * cap) by (nonlinear_arith)
        requires
            height as u128 <= cap,
            width as u128 <= cap,
    ;
    assert(cap * cap <= 0x1000_0000_0000_0000u128 * 0x1000_0000_0000_0000u128) by (nonlinear_arith)
        requires
            cap <= 0x1000_0000_0000_0000u128,
    ;
    (height as u128) * (width as u128) <= cap
}

/// `ndarray::ArrayBase::from_elem` with a shape of two axes: an array of that
/// shape whose every entry is a copy of `value`. The `requires` keeps away the
/// shapes on which it panics (a product of non-zero axis lengths, or a byte
/// size, beyond `isize::MAX`).
#[verifier::external_body]
fn array_filled(height: usize, width: usize, value: i64) -> (f: ScalarField)
    requires
        shape_fits(height as int, width as int),
    ensures
        field_shape(f) == (height, width),
        forall|r: int, c: int|
            0 <= r < height && 0 <= c < width ==> #[trigger] field_cells(f)[(r, c)] == value,
{
    ScalarField { cells: ndarray::Array2::from_elem((height, width), value) }
}

/// `ndarray::ArrayBase::nrows`: the length of the first axis.
#[verifier::external_body]
fn array_rows(f: &ScalarField) -> (n: usize)
    ensures
        n == field_shape(*f).0,
{
    f.cells.nrows()
}

/// `ndarray::ArrayBase::ncols`: the length of the second axis.
#[verifier::external_body]
fn array_cols(f: &ScalarField) -> (n: usize)
    ensures
        n == field_shape(*f).1,
{
    f.cells.ncols()
}

/// Indexing an `ndarray` array by `[row, col]` (`Index::index`): the entry at
/// that place. It panics out of bounds, which the `requires` keeps away.
#[verifier::external_body]
fn array_get(f: &ScalarField, row: usize, col: usize) -> (value: i64)
    requires
        row < field_shape(*f).0,
        col < field_shape(*f).1,
    ensures
        value == field_cells(*f)[(row as int, col as int)],
{
    f.cells[[row, col]]
}

/// Assigning through an `ndarray` index `[row, col]` (`IndexMut::index_mut`):
/// that entry becomes `value`, the shape and every other entry stay. It panics
/// out of bounds, which the `requires` keeps away.
#[verifier::external_body]
fn array_set(f: &mut ScalarField, row: usize, col: usize, value: i64)
    requires
        row < field_shape(*old(f)).0,
        col < field_shape(*old(f)).1,
    ensures
        field_shape(*final(f)) == field_shape(*old(f)),
        field_cells(*final(f)) == field_cells(*old(f)).insert((row as int, col as int), value),
{
    f.cells[[row, col]] = value;
}

/// The place of row `r`, column `c` in a row-by-row listing of a grid that is
/// `width` wide.
pub open spec fn listing_index(r: int, c: int, width: int) -> int {
    r * width + c
}

/// Inside a `height` × `width` grid, listing indices stay below
/// `height * width` and grow with the row, then the column.
pub proof fn lemma_listing_index(r: int, c: int, height: int, width: int)
    requires
        0 <= r < height,
        0 <= c < width,
    ensures
        0 <= listing_index(r, c, width) < height * width,
        listing_index(r, c, width) + width - c == listing_index(r + 1, 0, width),
        listing_index(r + 1, 0, width) <= height * width,
{
    assert(0 <= r * width && r * width + width == (r + 1) * width && (r + 1) * width <= height
        * width) by (nonlinear_arith)
        requires
            0 <= r < height,
            0 < width,
    ;
}

/// A full row of `width` cells moves the listing index on to the next row.
pub proof fn lemma_listing_row(r: int, height: int, width: int)
    requires
        0 <= r < height,
        0 <= width,
    ensures
        listing_index(r, width, width) == listing_index(r + 1, 0, width),
        listing_index(r + 1, 0, width) <= height * width,
        listing_index(0, 0, width) == 0,
        listing_index(height, 0, width) == height * width,
{
    assert(r * width + width == (r + 1) * width && (r + 1) * width <= height * width) by (nonlinear_arith)
        requires
            0 <= r < height,
            0 <= width,
    ;
}

impl View for ScalarField {
    type V = Seq<Seq<i64>>;

    /// The rows of the grid, top to bottom, each left to right.
    open spec fn view(&self) -> Seq<Seq<i64>> {
        Seq::new(
            self.spec_height() as nat,
            |r: int| Seq::new(self.spec_width() as nat, |c: int| self.at(r, c)),
        )
    }
}

impl ScalarField {
    /// Number of rows.
    pub open spec fn spec_height(&self) -> usize {
        field_shape(*self).0
    }

    /// Number of columns.
    pub open spec fn spec_width(&self) -> usize {
        field_shape(*self).1
    }

    /// The value at row `r`, column `c`; equal to `self@[r][c]` inside the grid.
    pub open spec fn at(&self, r: int, c: int) -> i64 {
        field_cells(*self)[(r, c)]
    }

    /// Whether row `r`, column `c` lies inside the grid.
    pub open spec fn holds(&self, r: int, c: int) -> bool {
        0 <= r < self.spec_height() && 0 <= c < self.spec_width()
    }

    /// Whether two grids have the same number of rows and of columns.
    pub open spec fn same_shape(&self, other: &ScalarField) -> bool {
        self.spec_height() == other.spec_height() && self.spec_width() == other.spec_width()
    }

    /// Whether two grids have the same shape and the same value in every
    /// cell.
    pub open spec fn alike(&self, other: &ScalarField) -> bool {
        &&& self.same_shape(other)
        &&& forall|r: int, c: int| self.holds(r, c) ==> #[trigger] self.at(r, c) == other.at(r, c)
    }

    /// Whether every value of the grid lies within `limit` of zero.
    pub open spec fn bounded(&self, limit: int) -> bool {
        forall|r: int, c: int| self.holds(r, c) ==> within(#[trigger] self.at(r, c) as int, limit)
    }

    /// Whether every value of the grid lies in `lo ..= hi`.
    pub open spec fn spans(&self, lo: int, hi: int) -> bool {
        forall|r: int, c: int| self.holds(r, c) ==> lo <= #[trigger] self.at(r, c) <= hi
    }

    /// Whether `lo` is the least and `hi` the greatest value of the grid.
    pub open spec fn has_extent(&self, lo: int, hi: int) -> bool {
        &&& self.spans(lo, hi)
        &&& exists|r: int, c: int| self.holds(r, c) && #[trigger] self.at(r, c) == lo
        &&& exists|r: int, c: int| self.holds(r, c) && #[trigger] self.at(r, c) == hi
    }

    /// A grid of `height` × `width` cells, each holding `value`.
    pub fn filled(height: usize, width: usize, value: i64) -> (f: ScalarField)
        requires
            shape_fits(height as int, width as int),
        ensures
            f.spec_height() == height,
            f.spec_width() == width,
            forall|r: int, c: int| f.holds(r, c) ==> #[trigger] f.at(r, c) == value,
    {
        array_filled(height, width, value)
    }

    /// Number of rows.
    #[verifier::when_used_as_spec(spec_height)]
    pub fn height(&self) -> (h: usize)
        ensures
            h == self.spec_height(),
    {
        array_rows(self)
    }

    /// Number of columns.
    #[verifier::when_used_as_spec(spec_width)]
    pub fn width(&self) -> (w: usize)
        ensures
            w == self.spec_width(),
    {
        array_cols(self)
    }

    /// The value at row `row`, column `col`.
    pub fn get(&self, row: usize, col: usize) -> (value: i64)
        requires
            self.holds(row as int, col as int),
        ensures
            value == self.at(row as int, col as int),
    {
        array_get(self, row, col)
    }

    /// Stores `value` at row `row`, column `col`.
    pub fn set(&mut self, row: usize, col: usize, value: i64)
        requires
            old(self).holds(row as int, col as int),
        ensures
            final(self).same_shape(old(self)),
            final(self).at(row as int, col as int) == value,
            forall|r: int, c: int|
                r != row || c != col ==> #[trigger] final(self).at(r, c) == old(self).at(r, c),
    {
        array_set(self, row, col, value)
    }

    /// Whether every value lies within `limit` of zero.
    pub fn is_bounded(&self, limit: i64) -> (ok: bool)
        ensures
            ok == self.bounded(limit as int),
    {
        let h = self.height();
        let w = self.width();
        let mut r: usize = 0;
        while r < h
            invariant
                h == self.spec_height(),
                w == self.spec_width(),
                r <= h,
                forall|i: int, j: int|
                    0 <= i < r && 0 <= j < w ==> within(#[trigger] self.at(i, j) as int, limit as int),
            decreases h - r,
        {
            let mut c: usize = 0;
            while c < w
                invariant
                    h == self.spec_height(),
                    w == self.spec_width(),
                    r < h,
                    c <= w,
                    forall|i: int, j: int|
                        0 <= i < r && 0 <= j < w ==> within(
                            #[trigger] self.at(i, j) as int,
                            limit as int,
                        ),
                    forall|j: int|
                        0 <= j < c ==> within(#[trigger] self.at(r as int, j) as int, limit as int),
                decreases w - c,
            {
                let x = self.get(r, c);
                if (x as i128) > (limit as i128) || (x as i128) < -(limit as i128) {
                    assert(self.holds(r as int, c as int));
                    return false;
                }
                c += 1;
            }
            r += 1;
        }
        true
    }

    /// The least and the greatest value of the grid; `None` for a grid
    /// without cells.
    pub fn extent(&self) -> (e: Option<(i64, i64)>)
        ensures
            e is None <==> self.spec_height() == 0 || self.spec_width() == 0,
            e matches Some((lo, hi)) ==> self.has_extent(lo as int, hi as int),
    {
        let h = self.height();
        let w = self.width();
        if h == 0 || w == 0 {
            return None;
        }
        let first = self.get(0, 0);
        let mut lo: i64 = first;
        let mut hi: i64 = first;
        let ghost mut lo_at: (int, int) = (0, 0);
        let ghost mut hi_at: (int, int) = (0, 0);
        let mut r: usize = 0;
        while r < h
            invariant
                h == self.spec_height(),
                w == self.spec_width(),
                r <= h,
                self.holds(lo_at.0, lo_at.1) && self.at(lo_at.0, lo_at.1) == lo,
                self.holds(hi_at.0, hi_at.1) && self.at(hi_at.0, hi_at.1) == hi,
                forall|i: int, j: int| 0 <= i < r && 0 <= j < w ==> lo <= #[trigger] self.at(i, j) <= hi,
            decreases h - r,
        {
            let mut c: usize = 0;
            while c < w
                invariant
                    h == self.spec_height(),
                    w == self.spec_width(),
                    r < h,
                    c <= w,
                    self.holds(lo_at.0, lo_at.1) && self.at(lo_at.0, lo_at.1) == lo,
                    self.holds(hi_at.0, hi_at.1) && self.at(hi_at.0, hi_at.1) == hi,
                    forall|i: int, j: int|
                        0 <= i < r && 0 <= j < w ==> lo <= #[trigger] self.at(i, j) <= hi,
                    forall|j: int| 0 <= j < c ==> lo <= #[trigger] self.at(r as int, j) <= hi,
                decreases w - c,
            {
                let x = self.get(r, c);
                if x < lo {
                    lo = x;
                    proof {
                        lo_at = (r as int, c as int);
                    }
                }
                if x > hi {
                    hi = x;
                    proof {
                        hi_at = (r as int, c as int);
                    }
                }
                c += 1;
            }
            r += 1;
        }
        Some((lo, hi))
    }

    /// Maps every value from the range `lo ..= hi` onto `-UNIT ..= UNIT`
    /// (see [`stretched`]).
    pub fn rescale(&mut self, lo: i64, hi: i64)
        requires
            old(self).spans(lo as int, hi as int),
        ensures
            final(self).same_shape(old(self)),
            forall|r: int, c: int|
                old(self).holds(r, c) ==> #[trigger] final(self).at(r, c) == stretched(
                    old(self).at(r, c) as int,
                    lo as int,
                    hi as int,
                ),
            final(self).bounded(UNIT as int),
    {
        let h = self.height();
        let w = self.width();
        let mut r: usize = 0;
        while r < h
            invariant
                h == self.spec_height(),
                w == self.spec_width(),
                self.same_shape(old(self)),
                r <= h,
                old(self).spans(lo as int, hi as int),
                forall|i: int, j: int|
                    0 <= i < r && 0 <= j < w ==> #[trigger] self.at(i, j) == stretched(
                        old(self).at(i, j) as int,
                        lo as int,
                        hi as int,
                    ) && within(self.at(i, j) as int, UNIT as int),
                forall|i: int, j: int|
                    r <= i < h && 0 <= j < w ==> #[trigger] self.at(i, j) == old(self).at(i, j),
            decreases h - r,
        {
            let mut c: usize = 0;
            while c < w
                invariant
                    h == self.spec_height(),
                    w == self.spec_width(),
                    self.same_shape(old(self)),
                    r < h,
                    c <= w,
                    old(self).spans(lo as int, hi as int),
                    forall|i: int, j: int|
                        0 <= i < r && 0 <= j < w ==> #[trigger] self.at(i, j) == stretched(
                            old(self).at(i, j) as int,
                            lo as int,
                            hi as int,
                        ) && within(self.at(i, j) as int, UNIT as int),
                    forall|j: int|
                        0 <= j < c ==> #[trigger] self.at(r as int, j) == stretched(
                            old(self).at(r as int, j) as int,
                            lo as int,
                            hi as int,
                        ) && within(self.at(r as int, j) as int, UNIT as int),
                    forall|j: int|
                        c <= j < w ==> #[trigger] self.at(r as int, j) == old(self).at(r as int, j),
                    forall|i: int, j: int|
                        r < i < h && 0 <= j < w ==> #[trigger] self.at(i, j) == old(self).at(i, j),
                decreases w - c,
            {
                assert(old(self).holds(r as int, c as int));
                let x = self.get(r, c);
                self.set(r, c, stretch(x, lo, hi));
                c += 1;
            }
            r += 1;
        }
    }

    /// Rescales the grid so that its least value becomes `-UNIT` and its
    /// greatest `UNIT`. A grid whose values are all equal becomes zero
    /// everywhere; a grid without cells stays as it is.
    pub fn normalize(&mut self)
        ensures
            final(self).same_shape(old(self)),
            final(self).bounded(UNIT as int),
            forall|lo: int, hi: int, r: int, c: int|
                #![trigger old(self).has_extent(lo, hi), final(self).at(r, c)]
                old(self).has_extent(lo, hi) && old(self).holds(r, c) ==> final(self).at(r, c)
                    == stretched(old(self).at(r, c) as int, lo, hi),
    {
        match self.extent() {
            None => {},
            Some((lo, hi)) => {
                proof {
                    assert forall|a: int, b: int| old(self).has_extent(a, b) implies a == lo && b
                        == hi by {
                        lemma_extent_unique(self, a, b, lo as int, hi as int);
                    }
                }
                self.rescale(lo, hi);
            },
        }
    }

    /// The grid as 8-bit gray levels, row by row (see [`gray_level`]).
    pub fn to_gray_levels(&self) -> (levels: Vec<u8>)
        ensures
            levels@.len() == self.spec_height() * self.spec_width(),
            forall|r: int, c: int|
                self.holds(r, c) ==> levels@[listing_index(r, c, self.spec_width() as int)]
                    == gray_level(#[trigger] self.at(r, c) as int),
    {
        let h = self.height();
        let w = self.width();
        let mut levels: Vec<u8> = Vec::new();
        let mut r: usize = 0;
        while r < h
            invariant
                h == self.spec_height(),
                w == self.spec_width(),
                r <= h,
                levels@.len() == listing_index(r as int, 0, w as int),
                forall|i: int, j: int|
                    0 <= i < r && 0 <= j < w ==> levels@[listing_index(i, j, w as int)]
                        == gray_level(#[trigger] self.at(i, j) as int),
            decreases h - r,
        {
            let mut c: usize = 0;
            while c < w
                invariant
                    h == self.spec_height(),
                    w == self.spec_width(),
                    r < h,
                    c <= w,
                    levels@.len() == listing_index(r as int, c as int, w as int),
                    forall|i: int, j: int|
                        0 <= i < r && 0 <= j < w ==> levels@[listing_index(i, j, w as int)]
                            == gray_level(#[trigger] self.at(i, j) as int),
                    forall|j: int|
                        0 <= j < c ==> levels@[listing_index(r as int, j, w as int)] == gray_level(
                            #[trigger] self.at(r as int, j) as int,
                        ),
                decreases w - c,
            {
                let ghost before = levels@;
                levels.push(fixed_to_level(self.get(r, c)));
                proof {
                    assert forall|i: int, j: int| 0 <= i < r && 0 <= j < w implies levels@[listing_index(
                        i,
                        j,
                        w as int,
                    )] == gray_level(#[trigger] self.at(i, j) as int) by {
                        lemma_listing_index(i, j, r as int, w as int);
                        assert(r * w <= before.len()) by (nonlinear_arith)
                            requires
                                before.len() == r * w + c,
                                c >= 0,
                        ;
                    }
                }
                c += 1;
            }
            proof {
                lemma_listing_row(r as int, h as int, w as int);
            }
            r += 1;
        }
        levels
    }

    /// The grid of `height` × `width` cells that shows the 8-bit gray levels
    /// `levels`, listed row by row: level `v` becomes `v / 128 - 1` (see
    /// [`level_value`]). `None` when the shape cannot be allocated or does not
    /// have `levels.len()` cells.
    pub fn from_gray_levels(height: usize, width: usize, levels: &Vec<u8>) -> (made: Option<
        ScalarField,
    >)
        ensures
            made is Some <==> shape_fits(height as int, width as int) && levels@.len() == height
                * width,
            made matches Some(f) ==> {
                &&& f.spec_height() == height
                &&& f.spec_width() == width
                &&& forall|r: int, c: int|
                    f.holds(r, c) ==> #[trigger] f.at(r, c) == level_value(
                        levels@[listing_index(r, c, width as int)] as int,
                    )
            },
    {
        if !check_shape(height, width) {
            return None;
        }
        let count: usize = height * width;
        if levels.len() != count {
            return None;
        }
        let mut f = ScalarField::filled(height, width, 0);
        let mut k: usize = 0;
        let mut r: usize = 0;
        while r < height
            invariant
                f.spec_height() == height,
                f.spec_width() == width,
                levels@.len() == height * width,
                height * width <= usize::MAX,
                r <= height,
                k == listing_index(r as int, 0, width as int),
                forall|i: int, j: int|
                    0 <= i < r && 0 <= j < width ==> #[trigger] f.at(i, j) == level_value(
                        levels@[listing_index(i, j, width as int)] as int,
                    ),
            decreases height - r,
        {
            let mut c: usize = 0;
            while c < width
                invariant
                    f.spec_height() == height,
                    f.spec_width() == width,
                    levels@.len() == height * width,
                    height * width <= usize::MAX,
                    r < height,
                    c <= width,
                    k == listing_index(r as int, c as int, width as int),
                    forall|i: int, j: int|
                        0 <= i < r && 0 <= j < width ==> #[trigger] f.at(i, j) == level_value(
                            levels@[listing_index(i, j, width as int)] as int,
                        ),
                    forall|j: int|
                        0 <= j < c ==> #[trigger] f.at(r as int, j) == level_value(
                            levels@[listing_index(r as int, j, width as int)] as int,
                        ),
                decreases width - c,
            {
                proof {
                    lemma_listing_index(r as int, c as int, height as int, width as int);
                }
                f.set(r, c, level_to_fixed(levels[k]));
                k += 1;
                c += 1;
            }
            proof {
                lemma_listing_row(r as int, height as int, width as int);
            }
            r += 1;
        }
        Some(f)
    }
}

/// Grids that are alike have the same view.
pub proof fn lemma_alike_fields_have_one_view(a: &ScalarField, b: &ScalarField)
    requires
        a.alike(b),
    ensures
        a@ == b@,
{
    assert forall|r: int| 0 <= r < a@.len() implies a@[r] == b@[r] by {
        assert forall|c: int| 0 <= c < a@[r].len() implies a@[r][c] == b@[r][c] by {
            assert(a.holds(r, c));
        }
        assert(a@[r] =~= b@[r]);
    }
    assert(a@ =~= b@);
}

/// A grid has one extent only.
pub proof fn lemma_extent_unique(f: &ScalarField, lo1: int, hi1: int, lo2: int, hi2: int)
    requires
        f.has_extent(lo1, hi1),
        f.has_extent(lo2, hi2),
    ensures
        lo1 == lo2,
        hi1 == hi2,
{
}

} // verus!
