//! One activator/inhibitor layer of the pattern, working at one spatial scale.

use vstd::prelude::*;
use crate::fixed::{
    MAX_MAGNITUDE, UNIT, distance, half, product, within, halve, multiply, separation,
};
use crate::field::{ScalarField, shape_fits};
use crate::color::Rgb;

verus! {

/// One layer: two smoothing radii, the amount by which it moves the field,
/// the weight of its smoothed copies, its display color, and the three grids
/// derived from the field at every step.
pub struct Scale {
    activator: ScalarField,
    inhibitor: ScalarField,
    variation: ScalarField,
    activator_radius: i64,
    inhibitor_radius: i64,
    small_amount: i64,
    weight: i64,
    color: Rgb,
}

/// The parameters a layer accepts: a positive increment and a weight, both
/// within `MAX_MAGNITUDE`.
pub open spec fn valid_parameters(small_amount: int, weight: int) -> bool {
    0 < small_amount <= MAX_MAGNITUDE && within(weight, MAX_MAGNITUDE as int)
}

/// The shorter side of a `height` × `width` grid.
pub open spec fn shorter(height: int, width: int) -> int {
    if height <= width {
        height
    } else {
        width
    }
}

/// The shorter side of a grid that can be allocated is below 2^30.
pub proof fn lemma_shorter_side_is_small(height: int, width: int)
    requires
        shape_fits(height, width),
    ensures
        shorter(height, width) < 0x4000_0000,
{
    let side = shorter(height, width);
    if side >= 0x4000_0000 {
        assert(height * width >= 0x4000_0000 * 0x4000_0000) by (nonlinear_arith)
            requires
                height >= 0x4000_0000,
                width >= 0x4000_0000,
        ;
    }
}

impl Scale {
    /// The field smoothed at the activator radius, times the weight.
    pub closed spec fn spec_activator(&self) -> &ScalarField {
        &self.activator
    }

    /// The field smoothed at the inhibitor radius, times the weight.
    pub closed spec fn spec_inhibitor(&self) -> &ScalarField {
        &self.inhibitor
    }

    /// The distance between activator and inhibitor, cell by cell.
    pub closed spec fn spec_variation(&self) -> &ScalarField {
        &self.variation
    }

    /// Radius of the activator's smoothing, as a raw value.
    pub closed spec fn spec_activator_radius(&self) -> i64 {
        self.activator_radius
    }

    /// Radius of the inhibitor's smoothing, as a raw value.
    pub closed spec fn spec_inhibitor_radius(&self) -> i64 {
        self.inhibitor_radius
    }

    /// The amount by which this layer moves a field value in one step.
    pub closed spec fn spec_small_amount(&self) -> i64 {
        self.small_amount
    }

    /// The factor applied to the smoothed field.
    pub closed spec fn spec_weight(&self) -> i64 {
        self.weight
    }

    /// The display color of the layer.
    pub closed spec fn spec_color(&self) -> Rgb {
        self.color
    }

    /// Number of rows of the derived grids.
    pub open spec fn spec_height(&self) -> usize {
        self.spec_activator().spec_height()
    }

    /// Number of columns of the derived grids.
    pub open spec fn spec_width(&self) -> usize {
        self.spec_activator().spec_width()
    }

    /// Whether the layer has the same parameters as `other`.
    pub open spec fn same_parameters(&self, other: &Scale) -> bool {
        &&& self.spec_activator_radius() == other.spec_activator_radius()
        &&& self.spec_inhibitor_radius() == other.spec_inhibitor_radius()
        &&& self.spec_small_amount() == other.spec_small_amount()
        &&& self.spec_weight() == other.spec_weight()
        &&& self.spec_color() == other.spec_color()
    }

    /// Whether two layers have the same parameters and derived grids that
    /// are alike.
    pub open spec fn alike(&self, other: &Scale) -> bool {
        &&& self.same_parameters(other)
        &&& self.spec_activator().alike(other.spec_activator())
        &&& self.spec_inhibitor().alike(other.spec_inhibitor())
        &&& self.spec_variation().alike(other.spec_variation())
    }

    /// Well-formedness: valid parameters, three derived grids of one shape,
    /// and a variation that is the distance between activator and inhibitor
    /// in every cell.
    pub open spec fn wf(&self) -> bool {
        &&& valid_parameters(self.spec_small_amount() as int, self.spec_weight() as int)
        &&& self.spec_inhibitor().same_shape(self.spec_activator())
        &&& self.spec_variation().same_shape(self.spec_activator())
        &&& forall|r: int, c: int|
            self.spec_activator().holds(r, c) ==> #[trigger] self.spec_variation().at(r, c)
                == distance(
                self.spec_activator().at(r, c) as int,
                self.spec_inhibitor().at(r, c) as int,
            )
    }

    /// Whether the derived grids are zero everywhere, as they are before
    /// the first step.
    pub open spec fn is_blank(&self) -> bool {
        forall|r: int, c: int|
            self.spec_activator().holds(r, c) ==> {
                &&& #[trigger] self.spec_activator().at(r, c) == 0
                &&& self.spec_inhibitor().at(r, c) == 0
                &&& self.spec_variation().at(r, c) == 0
            }
    }

    /// The signed amount by which this layer moves the field at row `r`,
    /// column `c`: up where the activator exceeds the inhibitor, down
    /// elsewhere.
    pub open spec fn push_at(&self, r: int, c: int) -> int {
        if self.spec_activator().at(r, c) > self.spec_inhibitor().at(r, c) {
            self.spec_small_amount() as int
        } else {
            -(self.spec_small_amount() as int)
        }
    }

    /// Whether the derived grids are what a step computes from the two
    /// smoothed copies of the field: each smoothed value times the weight,
    /// and the distance between the two results.
    pub open spec fn derived_from(
        &self,
        smooth_activator: &ScalarField,
        smooth_inhibitor: &ScalarField,
    ) -> bool {
        forall|r: int, c: int|
            self.spec_activator().holds(r, c) ==> {
                &&& #[trigger] self.spec_activator().at(r, c) == product(
                    self.spec_weight() as int,
                    smooth_activator.at(r, c) as int,
                )
                &&& self.spec_inhibitor().at(r, c) == product(
                    self.spec_weight() as int,
                    smooth_inhibitor.at(r, c) as int,
                )
                &&& self.spec_variation().at(r, c) == distance(
                    self.spec_activator().at(r, c) as int,
                    self.spec_inhibitor().at(r, c) as int,
                )
            }
    }

    /// A layer with the given parameters over a grid of `height` × `width`
    /// cells. Its derived grids start at zero everywhere.
    pub fn new(
        activator_radius: i64,
        inhibitor_radius: i64,
        small_amount: i64,
        weight: i64,
        height: usize,
        width: usize,
        color: Rgb,
    ) -> (scale: Scale)
        requires
            valid_parameters(small_amount as int, weight as int),
            shape_fits(height as int, width as int),
        ensures
            scale.wf(),
            scale.spec_activator_radius() == activator_radius,
            scale.spec_inhibitor_radius() == inhibitor_radius,
            scale.spec_small_amount() == small_amount,
            scale.spec_weight() == weight,
            scale.spec_color() == color,
            scale.spec_height() == height,
            scale.spec_width() == width,
            scale.is_blank(),
    {
        Scale {
            activator: ScalarField::filled(height, width, 0),
            inhibitor: ScalarField::filled(height, width, 0),
            variation: ScalarField::filled(height, width, 0),
            activator_radius,
            inhibitor_radius,
            small_amount,
            weight,
            color,
        }
    }

    /// Whether the parameters are those that the draw `draw`, a raw value of
    /// `0 .. 1`, gives a layer over a grid whose shorter side is `side`: an
    /// activator radius of `draw * side / 4`, an inhibitor radius of twice
    /// the activator radius, an increment of `draw / 25 + 0.01`, and weight
    /// one. The inhibitor radius is derived from the activator radius, not
    /// rounded on its own, so that it is twice as large to the last unit.
    pub open spec fn drawn_from(&self, draw: int, side: int) -> bool {
        &&& self.spec_activator_radius() == draw * side / 4
        &&& self.spec_inhibitor_radius() == 2 * self.spec_activator_radius()
        &&& self.spec_small_amount() == draw / 25 + UNIT / 100
        &&& self.spec_weight() == UNIT
    }

    /// Whether some draw of `0 .. 1` gives the layer's parameters over a
    /// grid whose shorter side is `side`.
    pub open spec fn drawn(&self, side: int) -> bool {
        exists|draw: int| 0 <= draw < UNIT && #[trigger] self.drawn_from(draw, side)
    }

    /// The layer that the draw `draw` gives over a grid of `height` × `width`
    /// cells, with the display color `color` (see [`Scale::drawn_from`]).
    pub fn from_draw(draw: i64, height: usize, width: usize, color: Rgb) -> (scale: Scale)
        requires
            0 <= draw < UNIT,
            shape_fits(height as int, width as int),
        ensures
            scale.wf(),
            scale.drawn_from(draw as int, shorter(height as int, width as int)),
            scale.drawn(shorter(height as int, width as int)),
            scale.spec_color() == color,
            scale.spec_height() == height,
            scale.spec_width() == width,
            scale.is_blank(),
    {
        let side: usize = if height <= width {
            height
        } else {
            width
        };
        proof {
            lemma_shorter_side_is_small(height as int, width as int);
        }
        assert(0 <= draw * side <= UNIT * 0x4000_0000) by (nonlinear_arith)
            requires
                0 <= draw < UNIT,
                0 <= side < 0x4000_0000,
        ;
        let reach: i64 = draw * (side as i64);
        let activator_radius: i64 = reach / 4;
        let scale = Scale::new(
            activator_radius,
            2 * activator_radius,
            draw / 25 + UNIT / 100,
            UNIT,
            height,
            width,
            color,
        );
        assert(scale.drawn_from(draw as int, shorter(height as int, width as int)));
        scale
    }

    /// The field smoothed at the activator radius, times the weight.
    #[verifier::when_used_as_spec(spec_activator)]
    pub fn activator(&self) -> (f: &ScalarField)
        ensures
            f == self.spec_activator(),
    {
        &self.activator
    }

    /// The field smoothed at the inhibitor radius, times the weight.
    #[verifier::when_used_as_spec(spec_inhibitor)]
    pub fn inhibitor(&self) -> (f: &ScalarField)
        ensures
            f == self.spec_inhibitor(),
    {
        &self.inhibitor
    }

    /// The distance between activator and inhibitor, cell by cell.
    #[verifier::when_used_as_spec(spec_variation)]
    pub fn variation(&self) -> (f: &ScalarField)
        ensures
            f == self.spec_variation(),
    {
        &self.variation
    }

    /// Radius of the activator's smoothing, as a raw value.
    #[verifier::when_used_as_spec(spec_activator_radius)]
    pub fn activator_radius(&self) -> (x: i64)
        ensures
            x == self.spec_activator_radius(),
    {
        self.activator_radius
    }

    /// Radius of the inhibitor's smoothing, as a raw value.
    #[verifier::when_used_as_spec(spec_inhibitor_radius)]
    pub fn inhibitor_radius(&self) -> (x: i64)
        ensures
            x == self.spec_inhibitor_radius(),
    {
        self.inhibitor_radius
    }

    /// The amount by which this layer moves a field value in one step.
    #[verifier::when_used_as_spec(spec_small_amount)]
    pub fn small_amount(&self) -> (x: i64)
        ensures
            x == self.spec_small_amount(),
    {
        self.small_amount
    }

    /// The factor applied to the smoothed field.
    #[verifier::when_used_as_spec(spec_weight)]
    pub fn weight(&self) -> (x: i64)
        ensures
            x == self.spec_weight(),
    {
        self.weight
    }

    /// The display color of the layer.
    #[verifier::when_used_as_spec(spec_color)]
    pub fn color(&self) -> (c: Rgb)
        ensures
            c == self.spec_color(),
    {
        self.color
    }

    /// Standard deviation of the activator's smoothing: half its radius.
    pub fn activator_sigma(&self) -> (sigma: i64)
        ensures
            sigma == half(self.spec_activator_radius() as int),
    {
        halve(self.activator_radius)
    }

    /// Standard deviation of the inhibitor's smoothing: half its radius.
    pub fn inhibitor_sigma(&self) -> (sigma: i64)
        ensures
            sigma == half(self.spec_inhibitor_radius() as int),
    {
        halve(self.inhibitor_radius)
    }

    /// Recomputes the derived grids from the field smoothed at the two
    /// radii: activator and inhibitor are the smoothed values times the
    /// weight, the variation is the distance between them.
    pub fn update(&mut self, smooth_activator: &ScalarField, smooth_inhibitor: &ScalarField)
        requires
            old(self).wf(),
            smooth_activator.same_shape(old(self).spec_activator()),
            smooth_inhibitor.same_shape(old(self).spec_activator()),
            smooth_activator.bounded(MAX_MAGNITUDE as int),
            smooth_inhibitor.bounded(MAX_MAGNITUDE as int),
        ensures
            final(self).wf(),
            final(self).same_parameters(old(self)),
            final(self).spec_activator().same_shape(old(self).spec_activator()),
            final(self).derived_from(smooth_activator, smooth_inhibitor),
    {
        let h = self.activator.height();
        let w = self.activator.width();
        let weight = self.weight;
        let mut r: usize = 0;
        while r < h
            invariant
                r <= h,
                self.same_parameters(old(self)),
                weight == self.spec_weight(),
                valid_parameters(self.spec_small_amount() as int, weight as int),
                self.activator.spec_height() == h,
                self.activator.spec_width() == w,
                self.inhibitor.same_shape(&self.activator),
                self.variation.same_shape(&self.activator),
                self.activator.same_shape(old(self).spec_activator()),
                smooth_activator.same_shape(&self.activator),
                smooth_inhibitor.same_shape(&self.activator),
                smooth_activator.bounded(MAX_MAGNITUDE as int),
                smooth_inhibitor.bounded(MAX_MAGNITUDE as int),
                forall|i: int, j: int|
                    0 <= i < r && 0 <= j < w ==> #[trigger] self.activator.at(i, j) == product(
                        weight as int,
                        smooth_activator.at(i, j) as int,
                    ),
                forall|i: int, j: int|
                    0 <= i < r && 0 <= j < w ==> #[trigger] self.inhibitor.at(i, j) == product(
                        weight as int,
                        smooth_inhibitor.at(i, j) as int,
                    ),
                forall|i: int, j: int|
                    0 <= i < r && 0 <= j < w ==> #[trigger] self.variation.at(i, j) == distance(
                        product(weight as int, smooth_activator.at(i, j) as int),
                        product(weight as int, smooth_inhibitor.at(i, j) as int),
                    ),
            decreases h - r,
        {
            let mut c: usize = 0;
            while c < w
                invariant
                    r < h,
                    c <= w,
                    self.same_parameters(old(self)),
                    weight == self.spec_weight(),
                    valid_parameters(self.spec_small_amount() as int, weight as int),
                    self.activator.spec_height() == h,
                    self.activator.spec_width() == w,
                    self.inhibitor.same_shape(&self.activator),
                    self.variation.same_shape(&self.activator),
                    self.activator.same_shape(old(self).spec_activator()),
                    smooth_activator.same_shape(&self.activator),
                    smooth_inhibitor.same_shape(&self.activator),
                    smooth_activator.bounded(MAX_MAGNITUDE as int),
                    smooth_inhibitor.bounded(MAX_MAGNITUDE as int),
                    forall|i: int, j: int|
                        0 <= i < r && 0 <= j < w ==> #[trigger] self.activator.at(i, j) == product(
                            weight as int,
                            smooth_activator.at(i, j) as int,
                        ),
                    forall|i: int, j: int|
                        0 <= i < r && 0 <= j < w ==> #[trigger] self.inhibitor.at(i, j) == product(
                            weight as int,
                            smooth_inhibitor.at(i, j) as int,
                        ),
                    forall|i: int, j: int|
                        0 <= i < r && 0 <= j < w ==> #[trigger] self.variation.at(i, j) == distance(
                            product(weight as int, smooth_activator.at(i, j) as int),
                            product(weight as int, smooth_inhibitor.at(i, j) as int),
                        ),
                    forall|j: int|
                        0 <= j < c ==> #[trigger] self.activator.at(r as int, j) == product(
                            weight as int,
                            smooth_activator.at(r as int, j) as int,
                        ),
                    forall|j: int|
                        0 <= j < c ==> #[trigger] self.inhibitor.at(r as int, j) == product(
                            weight as int,
                            smooth_inhibitor.at(r as int, j) as int,
                        ),
                    forall|j: int|
                        0 <= j < c ==> #[trigger] self.variation.at(r as int, j) == distance(
                            product(weight as int, smooth_activator.at(r as int, j) as int),
                            product(weight as int, smooth_inhibitor.at(r as int, j) as int),
                        ),
                decreases w - c,
            {
                let a = multiply(weight, smooth_activator.get(r, c));
                let i = multiply(weight, smooth_inhibitor.get(r, c));
                let v = separation(a, i);
                self.activator.set(r, c, a);
                self.inhibitor.set(r, c, i);
                self.variation.set(r, c, v);
                c += 1;
            }
            r += 1;
        }
    }
}

/// What holds of a layer's parameters whatever draw gave them: the
/// inhibitor radius is twice the activator radius, the activator radius is
/// not negative and below a quarter of the shorter side, the increment lies
/// in `0.01 .. 0.05`, and the weight is one.
pub proof fn lemma_drawn_parameters(scale: &Scale, side: int)
    requires
        scale.drawn(side),
        side >= 0,
    ensures
        scale.spec_inhibitor_radius() == 2 * scale.spec_activator_radius(),
        0 <= scale.spec_activator_radius(),
        side > 0 ==> 4 * scale.spec_activator_radius() < side * UNIT,
        side == 0 ==> scale.spec_activator_radius() == 0,
        UNIT / 100 <= scale.spec_small_amount() < UNIT / 20,
        scale.spec_weight() == UNIT,
{
    let draw = choose|draw: int| 0 <= draw < UNIT && #[trigger] scale.drawn_from(draw, side);
    let unit = UNIT as int;
    assert(0 <= draw * side && (side > 0 ==> draw * side < side * unit) && (side == 0 ==> draw
        * side == 0)) by (nonlinear_arith)
        requires
            0 <= draw < unit,
            side >= 0,
    ;
}

/// A layer whose two smoothed fields hold one and the same value everywhere
/// has that value times its weight as activator and as inhibitor, no
/// variation, and pushes every pixel down.
pub proof fn lemma_flat_smoothing_gives_no_variation(
    scale: &Scale,
    smooth_activator: &ScalarField,
    smooth_inhibitor: &ScalarField,
    value: int,
)
    requires
        scale.derived_from(smooth_activator, smooth_inhibitor),
        forall|r: int, c: int|
            scale.spec_activator().holds(r, c) ==> #[trigger] smooth_activator.at(r, c) == value,
        forall|r: int, c: int|
            scale.spec_activator().holds(r, c) ==> #[trigger] smooth_inhibitor.at(r, c) == value,
    ensures
        forall|r: int, c: int|
            scale.spec_activator().holds(r, c) ==> #[trigger] scale.spec_activator().at(r, c)
                == product(scale.spec_weight() as int, value),
        forall|r: int, c: int|
            scale.spec_activator().holds(r, c) ==> #[trigger] scale.spec_inhibitor().at(r, c)
                == product(scale.spec_weight() as int, value),
        forall|r: int, c: int|
            scale.spec_activator().holds(r, c) ==> #[trigger] scale.spec_variation().at(r, c) == 0,
        forall|r: int, c: int|
            scale.spec_activator().holds(r, c) ==> #[trigger] scale.push_at(r, c)
                == -scale.spec_small_amount(),
{
    assert forall|r: int, c: int| scale.spec_activator().holds(r, c) implies {
        &&& #[trigger] scale.spec_activator().at(r, c) == product(scale.spec_weight() as int, value)
        &&& scale.spec_inhibitor().at(r, c) == product(scale.spec_weight() as int, value)
        &&& scale.spec_variation().at(r, c) == 0
    } by {
        assert(smooth_activator.at(r, c) == value);
        assert(smooth_inhibitor.at(r, c) == value);
        assert(scale.spec_activator().at(r, c) == product(scale.spec_weight() as int, value));
        assert(scale.spec_inhibitor().at(r, c) == product(scale.spec_weight() as int, value));
        assert(scale.spec_variation().at(r, c) == 0);
    }
    assert forall|r: int, c: int| scale.spec_activator().holds(r, c) implies #[trigger]
        scale.spec_inhibitor().at(r, c) == product(scale.spec_weight() as int, value) by {
        assert(scale.spec_activator().at(r, c) == product(scale.spec_weight() as int, value));
    }
    assert forall|r: int, c: int| scale.spec_activator().holds(r, c) implies #[trigger]
        scale.spec_variation().at(r, c) == 0 by {
        assert(scale.spec_activator().at(r, c) == product(scale.spec_weight() as int, value));
    }
    assert forall|r: int, c: int| scale.spec_activator().holds(r, c) implies #[trigger]
        scale.push_at(r, c) == -scale.spec_small_amount() by {
        assert(scale.spec_activator().at(r, c) == scale.spec_inhibitor().at(r, c));
    }
}

/// The variation of a well-formed layer is never negative.
pub proof fn lemma_variation_nonnegative(scale: &Scale, r: int, c: int)
    requires
        scale.wf(),
        scale.spec_variation().holds(r, c),
    ensures
        scale.spec_variation().at(r, c) >= 0,
{
    assert(scale.spec_activator().holds(r, c));
}

} // verus!
