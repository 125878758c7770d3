//! What holds of every run: its variations are never negative, a step
//! leaves the field between minus one and one, and both a layer's setup and
//! a step are functions of what they are given: the draw, or the state and
//! the smoothed fields.

use vstd::prelude::*;
use crate::fixed::{UNIT, lemma_stretched_in_range, product, stretched};
use crate::field::lemma_alike_fields_have_one_view;
use crate::color::{Rgb, lemma_alike_colors_have_one_view};
use crate::scale::{Scale, lemma_variation_nonnegative};
use crate::compose::{best_at, layers_fit, moved_color, moved_value, variations_at};
use crate::simulation::{Simulation, Smoothed, StepReport, moved_extent, smoothed_alike};

verus! {

/// In a well-formed run, no layer has a negative variation anywhere.
pub proof fn lemma_variations_nonnegative(run: &Simulation, s: int, r: int, c: int)
    requires
        run.wf(),
        0 <= s < run.spec_scales().len(),
        run.spec_grid().holds(r, c),
    ensures
        run.spec_scales()[s].spec_variation().at(r, c) >= 0,
{
    let scale = run.spec_scales()[s];
    assert(scale.wf());
    lemma_variation_nonnegative(&scale, r, c);
}

/// After a step, every value of the field lies between minus one and one;
/// unless all moved values were equal, the least has become minus one and
/// the greatest one.
pub proof fn lemma_step_normalizes(
    before: &Simulation,
    smoothed: Seq<Smoothed>,
    after: &Simulation,
    report: StepReport,
)
    requires
        before.steps_to(smoothed, after, report),
    ensures
        after.spec_grid().bounded(UNIT as int),
        report.lowest <= report.highest,
        report.lowest < report.highest ==> {
            &&& exists|r: int, c: int|
                after.spec_grid().holds(r, c) && #[trigger] after.spec_grid().at(r, c) == -UNIT
            &&& exists|r: int, c: int|
                after.spec_grid().holds(r, c) && #[trigger] after.spec_grid().at(r, c) == UNIT
        },
{
    let scales = after.spec_scales();
    let grid = before.spec_grid();
    let lo = report.lowest as int;
    let hi = report.highest as int;
    assert forall|r: int, c: int| after.spec_grid().holds(r, c) implies -UNIT
        <= #[trigger] after.spec_grid().at(r, c) <= UNIT by {
        assert(grid.holds(r, c));
        let moved = moved_value(scales, grid.at(r, c) as int, r, c);
        lemma_stretched_in_range(moved, lo, hi);
    }
    let (lr, lc) = choose|r: int, c: int|
        grid.holds(r, c) && moved_value(scales, #[trigger] grid.at(r, c) as int, r, c) == lo;
    let (hr, hc) = choose|r: int, c: int|
        grid.holds(r, c) && moved_value(scales, #[trigger] grid.at(r, c) as int, r, c) == hi;
    lemma_stretched_in_range(lo, lo, hi);
    lemma_stretched_in_range(hi, lo, hi);
    if lo < hi {
        assert(after.spec_grid().holds(lr, lc) && after.spec_grid().at(lr, lc) == -UNIT);
        assert(after.spec_grid().holds(hr, hc) && after.spec_grid().at(hr, hc) == UNIT);
    }
}

/// Layers that are alike govern the same pixels and move them alike.
pub proof fn lemma_alike_layers_move_alike(
    first: Seq<Scale>,
    second: Seq<Scale>,
    height: int,
    width: int,
    r: int,
    c: int,
)
    requires
        first.len() == second.len(),
        first.len() > 0,
        layers_fit(first, height, width),
        forall|s: int| 0 <= s < first.len() ==> (#[trigger] first[s]).alike(&second[s]),
        0 <= r < height,
        0 <= c < width,
    ensures
        best_at(first, r, c) == best_at(second, r, c),
        0 <= best_at(first, r, c) < first.len(),
        forall|value: int| #[trigger]
            moved_value(first, value, r, c) == moved_value(second, value, r, c),
        forall|color: Rgb, value: int, ratio: int| #[trigger]
            moved_color(first, color, value, ratio, r, c) == moved_color(
                second,
                color,
                value,
                ratio,
                r,
                c,
            ),
{
    let one = variations_at(first, r, c);
    let two = variations_at(second, r, c);
    assert forall|s: int| 0 <= s < one.len() implies one[s] == two[s] by {
        assert(first[s].wf());
        assert(first[s].alike(&second[s]));
        assert(first[s].spec_variation().holds(r, c));
    }
    assert(one =~= two);
    crate::compose::lemma_first_minimum(one);
    let best = best_at(first, r, c);
    assert(first[best].wf());
    assert(first[best].alike(&second[best]));
    assert(first[best].spec_activator().holds(r, c));
    assert(first[best].spec_inhibitor().holds(r, c));
    assert(first[best].push_at(r, c) == second[best].push_at(r, c));
}

/// A step is a function of the state and the smoothed fields: two runs in
/// the same state, stepped with smoothed fields that are alike, end in the
/// same state, cell for cell and layer for layer, and give the same report.
pub proof fn lemma_step_is_deterministic(
    first: &Simulation,
    second: &Simulation,
    smoothed_first: Seq<Smoothed>,
    smoothed_second: Seq<Smoothed>,
    after_first: &Simulation,
    after_second: &Simulation,
    report_first: StepReport,
    report_second: StepReport,
)
    requires
        first.wf(),
        first.alike(second),
        smoothed_alike(smoothed_first, smoothed_second),
        first.steps_to(smoothed_first, after_first, report_first),
        second.steps_to(smoothed_second, after_second, report_second),
    ensures
        after_first.alike(after_second),
        after_first.spec_grid()@ == after_second.spec_grid()@,
        after_first.spec_colors()@ == after_second.spec_colors()@,
        report_first == report_second,
{
    let height = first.spec_grid().spec_height() as int;
    let width = first.spec_grid().spec_width() as int;
    let one = after_first.spec_scales();
    let two = after_second.spec_scales();
    assert forall|s: int| 0 <= s < one.len() implies (#[trigger] one[s]).alike(&two[s]) by {
        lemma_derived_alike(
            &first.spec_scales()[s],
            &second.spec_scales()[s],
            &one[s],
            &two[s],
            &smoothed_first[s],
            &smoothed_second[s],
        );
    }
    assert forall|r: int, c: int| first.spec_grid().holds(r, c) implies {
        &&& moved_value(one, #[trigger] first.spec_grid().at(r, c) as int, r, c) == moved_value(
            two,
            second.spec_grid().at(r, c) as int,
            r,
            c,
        )
        &&& after_first.spec_colors().at(r, c) == after_second.spec_colors().at(r, c)
    } by {
        lemma_alike_layers_move_alike(one, two, height, width, r, c);
        assert(second.spec_grid().holds(r, c));
        assert(first.spec_colors().holds(r, c));
        assert(first.spec_colors().at(r, c) == second.spec_colors().at(r, c));
    }
    let lo1 = report_first.lowest as int;
    let hi1 = report_first.highest as int;
    let lo2 = report_second.lowest as int;
    let hi2 = report_second.highest as int;
    let grid1 = first.spec_grid();
    let grid2 = second.spec_grid();
    assert(moved_extent(one, grid1, lo1, hi1));
    assert(moved_extent(two, grid2, lo2, hi2));
    let (r1, c1) = choose|r: int, c: int|
        grid1.holds(r, c) && moved_value(one, #[trigger] grid1.at(r, c) as int, r, c) == lo1;
    let (r2, c2) = choose|r: int, c: int|
        grid2.holds(r, c) && moved_value(two, #[trigger] grid2.at(r, c) as int, r, c) == lo2;
    let (r3, c3) = choose|r: int, c: int|
        grid1.holds(r, c) && moved_value(one, #[trigger] grid1.at(r, c) as int, r, c) == hi1;
    let (r4, c4) = choose|r: int, c: int|
        grid2.holds(r, c) && moved_value(two, #[trigger] grid2.at(r, c) as int, r, c) == hi2;
    assert(grid2.holds(r1, c1) && grid1.holds(r2, c2) && grid2.holds(r3, c3) && grid1.holds(r4, c4));
    assert(moved_value(two, grid2.at(r1, c1) as int, r1, c1) == lo1);
    assert(moved_value(one, grid1.at(r2, c2) as int, r2, c2) == lo2);
    assert(moved_value(two, grid2.at(r3, c3) as int, r3, c3) == hi1);
    assert(moved_value(one, grid1.at(r4, c4) as int, r4, c4) == hi2);
    assert(lo1 == lo2);
    assert(hi1 == hi2);
    assert forall|r: int, c: int| after_first.spec_grid().holds(r, c) implies #[trigger]
        after_first.spec_grid().at(r, c) == after_second.spec_grid().at(r, c) by {
        assert(grid1.holds(r, c));
        assert(grid2.holds(r, c));
        assert(after_first.spec_grid().at(r, c) == stretched(
            moved_value(one, grid1.at(r, c) as int, r, c),
            lo1,
            hi1,
        ));
    }
    assert forall|r: int, c: int| after_first.spec_colors().holds(r, c) implies #[trigger]
        after_first.spec_colors().at(r, c) == after_second.spec_colors().at(r, c) by {
        assert(grid1.holds(r, c));
    }
    lemma_alike_fields_have_one_view(after_first.spec_grid(), after_second.spec_grid());
    lemma_alike_colors_have_one_view(after_first.spec_colors(), after_second.spec_colors());
}

/// Setting a layer up is a function of its draw: two layers that the same
/// draw gave, over grids of one shape and with one color, are alike.
pub proof fn lemma_same_draw_gives_alike_layers(
    first: &Scale,
    second: &Scale,
    draw: int,
    side: int,
)
    requires
        first.wf(),
        second.wf(),
        first.drawn_from(draw, side),
        second.drawn_from(draw, side),
        first.spec_color() == second.spec_color(),
        first.spec_activator().same_shape(second.spec_activator()),
        first.is_blank(),
        second.is_blank(),
    ensures
        first.alike(second),
{
    assert forall|r: int, c: int| first.spec_activator().holds(r, c) implies {
        &&& #[trigger] first.spec_activator().at(r, c) == second.spec_activator().at(r, c)
        &&& first.spec_inhibitor().at(r, c) == second.spec_inhibitor().at(r, c)
        &&& first.spec_variation().at(r, c) == second.spec_variation().at(r, c)
    } by {
        assert(second.spec_activator().holds(r, c));
        assert(first.spec_activator().at(r, c) == 0);
        assert(second.spec_activator().at(r, c) == 0);
        assert(first.spec_inhibitor().at(r, c) == 0 && second.spec_inhibitor().at(r, c) == 0);
        assert(first.spec_variation().at(r, c) == 0 && second.spec_variation().at(r, c) == 0);
    }
    assert forall|r: int, c: int| first.spec_inhibitor().holds(r, c) implies #[trigger]
        first.spec_inhibitor().at(r, c) == second.spec_inhibitor().at(r, c) by {
        assert(first.spec_activator().holds(r, c));
        assert(first.spec_activator().at(r, c) == second.spec_activator().at(r, c));
    }
    assert forall|r: int, c: int| first.spec_variation().holds(r, c) implies #[trigger]
        first.spec_variation().at(r, c) == second.spec_variation().at(r, c) by {
        assert(first.spec_activator().holds(r, c));
        assert(first.spec_activator().at(r, c) == second.spec_activator().at(r, c));
    }
}

/// Layers that were alike and derive their grids from smoothed fields that
/// are alike, are alike again.
pub proof fn lemma_derived_alike(
    first: &Scale,
    second: &Scale,
    after_first: &Scale,
    after_second: &Scale,
    smoothed_first: &Smoothed,
    smoothed_second: &Smoothed,
)
    requires
        first.same_parameters(second),
        after_first.same_parameters(first),
        after_second.same_parameters(second),
        after_first.wf(),
        after_second.wf(),
        after_first.spec_activator().same_shape(after_second.spec_activator()),
        after_first.spec_activator().same_shape(&smoothed_first.activator),
        smoothed_first.activator.alike(&smoothed_second.activator),
        smoothed_first.inhibitor.alike(&smoothed_second.inhibitor),
        smoothed_first.inhibitor.same_shape(&smoothed_first.activator),
        after_first.derived_from(&smoothed_first.activator, &smoothed_first.inhibitor),
        after_second.derived_from(&smoothed_second.activator, &smoothed_second.inhibitor),
    ensures
        after_first.alike(after_second),
{
    assert forall|r: int, c: int| after_first.spec_activator().holds(r, c) implies {
        &&& #[trigger] after_first.spec_activator().at(r, c) == after_second.spec_activator().at(
            r,
            c,
        )
        &&& after_first.spec_inhibitor().at(r, c) == after_second.spec_inhibitor().at(r, c)
        &&& after_first.spec_variation().at(r, c) == after_second.spec_variation().at(r, c)
    } by {
        assert(after_second.spec_activator().holds(r, c));
        assert(smoothed_first.activator.holds(r, c));
        assert(smoothed_first.inhibitor.holds(r, c));
        assert(smoothed_first.activator.at(r, c) == smoothed_second.activator.at(r, c));
        assert(smoothed_first.inhibitor.at(r, c) == smoothed_second.inhibitor.at(r, c));
        assert(after_first.spec_weight() == after_second.spec_weight());
        assert(after_first.spec_activator().at(r, c) == product(
            after_first.spec_weight() as int,
            smoothed_first.activator.at(r, c) as int,
        ));
        assert(after_second.spec_activator().at(r, c) == product(
            after_second.spec_weight() as int,
            smoothed_second.activator.at(r, c) as int,
        ));
    }
    assert forall|r: int, c: int| after_first.spec_inhibitor().holds(r, c) implies #[trigger]
        after_first.spec_inhibitor().at(r, c) == after_second.spec_inhibitor().at(r, c) by {
        assert(after_first.spec_activator().holds(r, c));
        assert(after_first.spec_activator().at(r, c) == after_second.spec_activator().at(r, c));
    }
    assert forall|r: int, c: int| after_first.spec_variation().holds(r, c) implies #[trigger]
        after_first.spec_variation().at(r, c) == after_second.spec_variation().at(r, c) by {
        assert(after_first.spec_activator().holds(r, c));
        assert(after_first.spec_activator().at(r, c) == after_second.spec_activator().at(r, c));
    }
}

} // verus!
