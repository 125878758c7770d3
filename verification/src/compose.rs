//! The per-pixel pass of a step: choose the steadiest layer, tint the pixel
//! with its color, and move the field by its increment.

use vstd::prelude::*;
use crate::fixed::{MAX_MAGNITUDE, UNIT, within};
use crate::field::ScalarField;
use crate::color::{ColorField, Rgb};
use crate::scale::Scale;

verus! {

/// The index of the least of `values`; of several least values, the first.
/// Zero for an empty sequence.
pub open spec fn first_minimum(values: Seq<int>) -> int
    decreases values.len(),
{
    if values.len() <= 1 {
        0
    } else {
        let earlier = first_minimum(values.drop_last());
        if values.last() < values[earlier] {
            values.len() - 1
        } else {
            earlier
        }
    }
}

/// `first_minimum` picks a least value, and nothing before it is as small.
pub proof fn lemma_first_minimum(values: Seq<int>)
    requires
        values.len() > 0,
    ensures
        0 <= first_minimum(values) < values.len(),
        forall|j: int|
            0 <= j < values.len() ==> values[first_minimum(values)] <= #[trigger] values[j],
        forall|j: int|
            0 <= j < first_minimum(values) ==> #[trigger] values[j] > values[first_minimum(values)],
    decreases values.len(),
{
    if values.len() > 1 {
        let front = values.drop_last();
        lemma_first_minimum(front);
        assert forall|j: int| 0 <= j < front.len() implies front[j] == values[j] by {}
    }
}

/// Whether every layer is well formed and holds grids of `height` × `width`.
pub open spec fn layers_fit(scales: Seq<Scale>, height: int, width: int) -> bool {
    forall|s: int|
        0 <= s < scales.len() ==> {
            &&& (#[trigger] scales[s]).wf()
            &&& scales[s].spec_height() == height
            &&& scales[s].spec_width() == width
        }
}

/// The variations of all layers at one pixel, in the layers' order.
pub open spec fn variations_at(scales: Seq<Scale>, r: int, c: int) -> Seq<int> {
    Seq::new(scales.len(), |s: int| scales[s].spec_variation().at(r, c) as int)
}

/// The layer that governs a pixel: the first of those with the least
/// variation there.
pub open spec fn best_at(scales: Seq<Scale>, r: int, c: int) -> int {
    first_minimum(variations_at(scales, r, c))
}

/// The value of a pixel after the governing layer has moved it.
pub open spec fn moved_value(scales: Seq<Scale>, value: int, r: int, c: int) -> int {
    value + scales[best_at(scales, r, c)].push_at(r, c)
}

/// The color of a pixel after the pass: blended toward the governing
/// layer's color, then dimmed by the value the pixel had before it moved.
pub open spec fn moved_color(
    scales: Seq<Scale>,
    color: Rgb,
    value: int,
    ratio: int,
    r: int,
    c: int,
) -> Rgb {
    color.blended(scales[best_at(scales, r, c)].spec_color(), ratio).shaded(value)
}

/// The index of the layer that governs the pixel at `row`, `col`.
pub fn best_scale_at(scales: &Vec<Scale>, row: usize, col: usize) -> (best: usize)
    requires
        scales@.len() > 0,
        forall|s: int|
            0 <= s < scales@.len() ==> (#[trigger] scales@[s]).spec_variation().holds(
                row as int,
                col as int,
            ),
    ensures
        best == best_at(scales@, row as int, col as int),
        best < scales@.len(),
{
    let ghost all = variations_at(scales@, row as int, col as int);
    let mut best: usize = 0;
    let mut least: i64 = scales[0].variation().get(row, col);
    let mut s: usize = 1;
    while s < scales.len()
        invariant
            1 <= s <= scales@.len(),
            all == variations_at(scales@, row as int, col as int),
            forall|k: int|
                0 <= k < scales@.len() ==> (#[trigger] scales@[k]).spec_variation().holds(
                    row as int,
                    col as int,
                ),
            best < s,
            best == first_minimum(all.take(s as int)),
            least == all[best as int],
        decreases scales@.len() - s,
    {
        let v = scales[s].variation().get(row, col);
        proof {
            let longer = all.take(s as int + 1);
            assert(longer.drop_last() =~= all.take(s as int));
            assert(longer.last() == v);
            assert(longer[best as int] == least);
        }
        if v < least {
            best = s;
            least = v;
        }
        s += 1;
    }
    proof {
        assert(all.take(s as int) =~= all);
    }
    best
}

/// Runs the pass over every pixel. The governing layer of a pixel is fixed
/// by the layers' variations there; the pixel's color is blended toward that
/// layer's color by `ratio` and dimmed by the pixel's value, and the value
/// then moves by the layer's increment, up where its activator exceeds its
/// inhibitor and down elsewhere. Returns the least and the greatest value of
/// the field after the pass, `None` for a field without cells.
pub fn compose(grid: &mut ScalarField, colors: &mut ColorField, scales: &Vec<Scale>, ratio: i64) -> (extent:
    Option<(i64, i64)>)
    requires
        scales@.len() > 0,
        layers_fit(scales@, old(grid).spec_height() as int, old(grid).spec_width() as int),
        old(colors).spec_height() == old(grid).spec_height(),
        old(colors).spec_width() == old(grid).spec_width(),
        old(grid).bounded(MAX_MAGNITUDE as int),
        0 <= ratio <= UNIT,
    ensures
        final(grid).same_shape(old(grid)),
        final(colors).spec_height() == old(colors).spec_height(),
        final(colors).spec_width() == old(colors).spec_width(),
        forall|r: int, c: int|
            old(grid).holds(r, c) ==> #[trigger] final(grid).at(r, c) == moved_value(
                scales@,
                old(grid).at(r, c) as int,
                r,
                c,
            ),
        forall|r: int, c: int|
            old(grid).holds(r, c) ==> #[trigger] final(colors).at(r, c) == moved_color(
                scales@,
                old(colors).at(r, c),
                old(grid).at(r, c) as int,
                ratio as int,
                r,
                c,
            ),
        extent is None <==> old(grid).spec_height() == 0 || old(grid).spec_width() == 0,
        extent matches Some((lo, hi)) ==> final(grid).has_extent(lo as int, hi as int),
        final(grid).bounded(2 * MAX_MAGNITUDE),
{
    let h = grid.height();
    let w = grid.width();
    let mut extent: Option<(i64, i64)> = None;
    let ghost mut lo_at: (int, int) = (0, 0);
    let ghost mut hi_at: (int, int) = (0, 0);
    let mut r: usize = 0;
    while r < h
        invariant
            r <= h,
            scales@.len() > 0,
            0 <= ratio <= UNIT,
            grid.spec_height() == h,
            grid.spec_width() == w,
            grid.same_shape(old(grid)),
            colors.spec_height() == h,
            colors.spec_width() == w,
            layers_fit(scales@, h as int, w as int),
            old(grid).bounded(MAX_MAGNITUDE as int),
            extent is None <==> r == 0 || w == 0,
            extent matches Some((lo, hi)) ==> {
                &&& grid.holds(lo_at.0, lo_at.1) && lo_at.0 < r && grid.at(lo_at.0, lo_at.1) == lo
                &&& grid.holds(hi_at.0, hi_at.1) && hi_at.0 < r && grid.at(hi_at.0, hi_at.1) == hi
                &&& forall|i: int, j: int|
                    0 <= i < r && 0 <= j < w ==> lo <= #[trigger] grid.at(i, j) <= hi
            },
            forall|i: int, j: int|
                0 <= i < r && 0 <= j < w ==> {
                    &&& #[trigger] grid.at(i, j) == moved_value(
                        scales@,
                        old(grid).at(i, j) as int,
                        i,
                        j,
                    )
                    &&& within(grid.at(i, j) as int, 2 * MAX_MAGNITUDE)
                },
            forall|i: int, j: int|
                0 <= i < r && 0 <= j < w ==> #[trigger] colors.at(i, j) == moved_color(
                    scales@,
                    old(colors).at(i, j),
                    old(grid).at(i, j) as int,
                    ratio as int,
                    i,
                    j,
                ),
            forall|i: int, j: int|
                r <= i < h && 0 <= j < w ==> #[trigger] grid.at(i, j) == old(grid).at(i, j),
            forall|i: int, j: int|
                r <= i < h && 0 <= j < w ==> #[trigger] colors.at(i, j) == old(colors).at(i, j),
        decreases h - r,
    {
        let mut c: usize = 0;
        while c < w
            invariant
                r < h,
                c <= w,
                scales@.len() > 0,
                0 <= ratio <= UNIT,
                grid.spec_height() == h,
                grid.spec_width() == w,
                grid.same_shape(old(grid)),
                colors.spec_height() == h,
                colors.spec_width() == w,
                layers_fit(scales@, h as int, w as int),
                old(grid).bounded(MAX_MAGNITUDE as int),
                extent is None <==> (r == 0 && c == 0) || w == 0,
                extent matches Some((lo, hi)) ==> {
                    &&& grid.holds(lo_at.0, lo_at.1) && (lo_at.0 < r || (lo_at.0 == r && lo_at.1
                        < c)) && grid.at(lo_at.0, lo_at.1) == lo
                    &&& grid.holds(hi_at.0, hi_at.1) && (hi_at.0 < r || (hi_at.0 == r && hi_at.1
                        < c)) && grid.at(hi_at.0, hi_at.1) == hi
                    &&& forall|i: int, j: int|
                        0 <= i < r && 0 <= j < w ==> lo <= #[trigger] grid.at(i, j) <= hi
                    &&& forall|j: int| 0 <= j < c ==> lo <= #[trigger] grid.at(r as int, j) <= hi
                },
                forall|i: int, j: int|
                    0 <= i < r && 0 <= j < w ==> {
                        &&& #[trigger] grid.at(i, j) == moved_value(
                            scales@,
                            old(grid).at(i, j) as int,
                            i,
                            j,
                        )
                        &&& within(grid.at(i, j) as int, 2 * MAX_MAGNITUDE)
                    },
                forall|j: int|
                    0 <= j < c ==> {
                        &&& #[trigger] grid.at(r as int, j) == moved_value(
                            scales@,
                            old(grid).at(r as int, j) as int,
                            r as int,
                            j,
                        )
                        &&& within(grid.at(r as int, j) as int, 2 * MAX_MAGNITUDE)
                    },
                forall|i: int, j: int|
                    0 <= i < r && 0 <= j < w ==> #[trigger] colors.at(i, j) == moved_color(
                        scales@,
                        old(colors).at(i, j),
                        old(grid).at(i, j) as int,
                        ratio as int,
                        i,
                        j,
                    ),
                forall|j: int|
                    0 <= j < c ==> #[trigger] colors.at(r as int, j) == moved_color(
                        scales@,
                        old(colors).at(r as int, j),
                        old(grid).at(r as int, j) as int,
                        ratio as int,
                        r as int,
                        j,
                    ),
                forall|j: int|
                    c <= j < w ==> #[trigger] grid.at(r as int, j) == old(grid).at(r as int, j),
                forall|j: int|
                    c <= j < w ==> #[trigger] colors.at(r as int, j) == old(colors).at(r as int, j),
                forall|i: int, j: int|
                    r < i < h && 0 <= j < w ==> #[trigger] grid.at(i, j) == old(grid).at(i, j),
                forall|i: int, j: int|
                    r < i < h && 0 <= j < w ==> #[trigger] colors.at(i, j) == old(colors).at(i, j),
            decreases w - c,
        {
            assert(old(grid).holds(r as int, c as int));
            let best = best_scale_at(scales, r, c);
            let scale = &scales[best];
            proof {
                assert(scales@[best as int].wf());
            }
            let amount = scale.small_amount();
            let push = if scale.activator().get(r, c) > scale.inhibitor().get(r, c) {
                amount
            } else {
                -amount
            };
            let value = grid.get(r, c);
            let color = colors.pixel(r, c).blend(scale.color(), ratio).shade(value);
            colors.set_pixel(r, c, color);
            let moved = value + push;
            grid.set(r, c, moved);
            match extent {
                None => {
                    extent = Some((moved, moved));
                    proof {
                        lo_at = (r as int, c as int);
                        hi_at = (r as int, c as int);
                    }
                },
                Some((lo, hi)) => {
                    if moved < lo {
                        extent = Some((moved, hi));
                        proof {
                            lo_at = (r as int, c as int);
                        }
                    } else if moved > hi {
                        extent = Some((lo, moved));
                        proof {
                            hi_at = (r as int, c as int);
                        }
                    }
                },
            }
            c += 1;
        }
        r += 1;
    }
    extent
}

} // verus!
