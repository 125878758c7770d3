//! A run of the pattern: its state, how it is set up, and how one step
//! takes it on.
//!
//! Smoothing the field is left to the caller. Before each step it smooths
//! the current field once per layer and radius, with a Gaussian of the
//! standard deviations that [`Simulation::sigmas`] gives and wrapping around
//! the edges, and hands the results to [`Simulation::step`], which does
//! everything else.

use vstd::prelude::*;
use crate::fixed::{MAX_MAGNITUDE, UNIT, half, level_value, stretched, within};
use crate::field::{ScalarField, check_shape, listing_index, shape_fits};
use crate::color::{ColorField, Rgb};
use crate::scale::{Scale, shorter};
use crate::compose::{compose, layers_fit, moved_color, moved_value};
use crate::random::{Generator, color_choice, draw_scales};

verus! {

/// The parameters of a run.
#[derive(Clone, Copy, Debug, PartialEq, Eq, Structural)]
pub struct Config {
    /// Number of layers.
    pub scale_count: usize,
    /// Number of frames of the run, the starting frame included.
    pub step_count: usize,
    /// Rows of a field that is made up rather than read from an image.
    pub height: usize,
    /// Columns of a field that is made up rather than read from an image.
    pub width: usize,
    /// How far a pixel's color moves toward its layer's color in one step,
    /// as a raw value of `0 ..= 1`.
    pub blend_ratio: i64,
    /// Whether the layers' colors are sampled from the starting colors
    /// rather than drawn freely.
    pub colors_from_input: bool,
    /// Seed of the random choices.
    pub seed: u64,
}

impl Default for Config {
    /// Ten layers, a hundred frames, a field of 512 × 512, a blend ratio of
    /// 0.3, freely drawn colors, seed zero.
    fn default() -> (config: Config)
        ensures
            config == (Config {
                scale_count: 10,
                step_count: 100,
                height: 512,
                width: 512,
                blend_ratio: 3_000_000,
                colors_from_input: false,
                seed: 0,
            }),
    {
        Config {
            scale_count: 10,
            step_count: 100,
            height: 512,
            width: 512,
            blend_ratio: 3_000_000,
            colors_from_input: false,
            seed: 0,
        }
    }
}

/// Why a run cannot be set up.
#[derive(Clone, Copy, Debug, PartialEq, Eq, Structural)]
pub enum SetupError {
    /// There is no layer.
    NoScales,
    /// The field has no cells.
    EmptyField,
    /// A field of this shape cannot be allocated.
    TooLarge,
    /// The image data does not have one gray level and three color bytes
    /// per pixel.
    WrongLength,
    /// The colors or a layer do not have the shape of the field.
    ShapeMismatch,
    /// A value of the field lies beyond `MAX_MAGNITUDE`.
    FieldOutOfRange,
    /// The blend ratio is not between zero and one.
    RatioOutOfRange,
}

/// Why a step was refused.
#[derive(Clone, Copy, Debug, PartialEq, Eq, Structural)]
pub enum StepError {
    /// The run has produced all its frames.
    Finished,
    /// There is not one pair of smoothed fields per layer.
    WrongCount,
    /// A smoothed field does not have the shape of the field.
    WrongShape,
    /// A smoothed value lies beyond `MAX_MAGNITUDE`.
    OutOfRange,
}

/// The field smoothed for one layer: once at its activator radius, once at
/// its inhibitor radius.
pub struct Smoothed {
    pub activator: ScalarField,
    pub inhibitor: ScalarField,
}

/// What a step reports back.
#[derive(Clone, Copy, Debug, PartialEq, Eq, Structural)]
pub struct StepReport {
    /// Index of the frame that the step produced.
    pub frame: usize,
    /// Least value of the field before it was normalized.
    pub lowest: i64,
    /// Greatest value of the field before it was normalized.
    pub highest: i64,
    /// Whether this was the last frame of the run.
    pub finished: bool,
}

/// The state of a run between two steps.
pub struct Simulation {
    grid: ScalarField,
    colors: ColorField,
    scales: Vec<Scale>,
    blend_ratio: i64,
    frame: usize,
    frame_count: usize,
}

/// Whether every layer has grids of `height` × `width`.
pub open spec fn layers_shaped(scales: Seq<Scale>, height: int, width: int) -> bool {
    forall|s: int|
        0 <= s < scales.len() ==> (#[trigger] scales[s]).spec_height() == height
            && scales[s].spec_width() == width
}

/// The first reason, if any, for which a field, colors and layers do not
/// make a run.
pub open spec fn setup_fault(
    grid: &ScalarField,
    colors: &ColorField,
    scales: Seq<Scale>,
    blend_ratio: int,
) -> Option<SetupError> {
    if scales.len() == 0 {
        Some(SetupError::NoScales)
    } else if grid.spec_height() == 0 || grid.spec_width() == 0 {
        Some(SetupError::EmptyField)
    } else if colors.spec_height() != grid.spec_height() || colors.spec_width()
        != grid.spec_width() || !layers_shaped(
        scales,
        grid.spec_height() as int,
        grid.spec_width() as int,
    ) {
        Some(SetupError::ShapeMismatch)
    } else if !grid.bounded(MAX_MAGNITUDE as int) {
        Some(SetupError::FieldOutOfRange)
    } else if !(0 <= blend_ratio <= UNIT) {
        Some(SetupError::RatioOutOfRange)
    } else {
        None
    }
}

/// The first reason, if any, for which a run cannot be drawn for a field
/// of `height` × `width`.
pub open spec fn config_fault(config: &Config, height: int, width: int) -> Option<SetupError> {
    if config.scale_count == 0 {
        Some(SetupError::NoScales)
    } else if height == 0 || width == 0 {
        Some(SetupError::EmptyField)
    } else if !shape_fits(height, width) {
        Some(SetupError::TooLarge)
    } else if !(0 <= config.blend_ratio <= UNIT) {
        Some(SetupError::RatioOutOfRange)
    } else {
        None
    }
}

/// Whether every pair of smoothed fields has the shape `height` × `width`.
pub open spec fn smoothed_shaped(smoothed: Seq<Smoothed>, height: int, width: int) -> bool {
    forall|s: int|
        0 <= s < smoothed.len() ==> {
            &&& (#[trigger] smoothed[s]).activator.spec_height() == height
            &&& smoothed[s].activator.spec_width() == width
            &&& smoothed[s].inhibitor.spec_height() == height
            &&& smoothed[s].inhibitor.spec_width() == width
        }
}

/// Whether every smoothed value lies within `MAX_MAGNITUDE`.
pub open spec fn smoothed_bounded(smoothed: Seq<Smoothed>) -> bool {
    forall|s: int|
        0 <= s < smoothed.len() ==> (#[trigger] smoothed[s]).activator.bounded(
            MAX_MAGNITUDE as int,
        ) && smoothed[s].inhibitor.bounded(MAX_MAGNITUDE as int)
}

/// Whether two lists of smoothed fields are alike pair by pair.
pub open spec fn smoothed_alike(first: Seq<Smoothed>, second: Seq<Smoothed>) -> bool {
    &&& first.len() == second.len()
    &&& forall|s: int|
        0 <= s < first.len() ==> (#[trigger] first[s]).activator.alike(&second[s].activator)
            && first[s].inhibitor.alike(&second[s].inhibitor)
}

/// Whether `lo` is the least and `hi` the greatest of the values that the
/// pixels of `grid` have once the layers `scales` have moved them.
pub open spec fn moved_extent(scales: Seq<Scale>, grid: &ScalarField, lo: int, hi: int) -> bool {
    &&& forall|r: int, c: int|
        grid.holds(r, c) ==> lo <= moved_value(scales, #[trigger] grid.at(r, c) as int, r, c) <= hi
    &&& exists|r: int, c: int|
        grid.holds(r, c) && moved_value(scales, #[trigger] grid.at(r, c) as int, r, c) == lo
    &&& exists|r: int, c: int|
        grid.holds(r, c) && moved_value(scales, #[trigger] grid.at(r, c) as int, r, c) == hi
}

/// The first reason, if any, for which a run cannot be drawn for an
/// image of `height` × `width` given as `gray_len` gray levels and
/// `rgb_len` color bytes.
pub open spec fn image_fault(
    config: &Config,
    height: int,
    width: int,
    gray_len: int,
    rgb_len: int,
) -> Option<SetupError> {
    if config_fault(config, height, width) is Some {
        config_fault(config, height, width)
    } else if gray_len != height * width || rgb_len != height * width * 3 {
        Some(SetupError::WrongLength)
    } else {
        None
    }
}

impl Simulation {
    /// The field.
    pub closed spec fn spec_grid(&self) -> &ScalarField {
        &self.grid
    }

    /// The colors.
    pub closed spec fn spec_colors(&self) -> &ColorField {
        &self.colors
    }

    /// The layers, in the order in which a pixel's governing layer is sought.
    pub closed spec fn spec_scales(&self) -> Seq<Scale> {
        self.scales@
    }

    /// How far a pixel's color moves toward its layer's color in one step.
    pub closed spec fn spec_blend_ratio(&self) -> i64 {
        self.blend_ratio
    }

    /// Index of the latest frame: the number of steps taken.
    pub closed spec fn spec_frame(&self) -> usize {
        self.frame
    }

    /// Number of frames of the run, the starting frame included.
    pub closed spec fn spec_frame_count(&self) -> usize {
        self.frame_count
    }

    /// Whether the run has produced all its frames.
    pub open spec fn spec_is_finished(&self) -> bool {
        self.spec_frame() + 1 >= self.spec_frame_count()
    }

    /// Well-formedness: at least one layer, a field with cells, colors and
    /// well-formed layers of the field's shape, field values within
    /// `MAX_MAGNITUDE`, and a blend ratio between zero and one.
    pub open spec fn wf(&self) -> bool {
        &&& self.spec_scales().len() > 0
        &&& self.spec_grid().spec_height() > 0
        &&& self.spec_grid().spec_width() > 0
        &&& self.spec_colors().spec_height() == self.spec_grid().spec_height()
        &&& self.spec_colors().spec_width() == self.spec_grid().spec_width()
        &&& layers_fit(
            self.spec_scales(),
            self.spec_grid().spec_height() as int,
            self.spec_grid().spec_width() as int,
        )
        &&& self.spec_grid().bounded(MAX_MAGNITUDE as int)
        &&& 0 <= self.spec_blend_ratio() <= UNIT
    }

    /// The first reason, if any, for which a step with these smoothed
    /// fields is refused.
    pub open spec fn step_fault(&self, smoothed: Seq<Smoothed>) -> Option<StepError> {
        if self.spec_is_finished() {
            Some(StepError::Finished)
        } else if smoothed.len() != self.spec_scales().len() {
            Some(StepError::WrongCount)
        } else if !smoothed_shaped(
            smoothed,
            self.spec_grid().spec_height() as int,
            self.spec_grid().spec_width() as int,
        ) {
            Some(StepError::WrongShape)
        } else if !smoothed_bounded(smoothed) {
            Some(StepError::OutOfRange)
        } else {
            None
        }
    }

    /// Whether `after` and `report` are what one step makes of `self` and
    /// the smoothed fields: the step is not refused;
    /// every layer keeps its parameters and derives its grids from its pair
    /// of smoothed fields; every pixel's color is blended toward the color
    /// of its governing layer and dimmed by the pixel's old value; every
    /// pixel's value is moved by its governing layer, and the moved values
    /// are stretched from their extent, which the report gives, onto
    /// `-1 ..= 1`; the frame index goes up by one.
    pub open spec fn steps_to(
        &self,
        smoothed: Seq<Smoothed>,
        after: &Simulation,
        report: StepReport,
    ) -> bool {
        &&& self.step_fault(smoothed) is None
        &&& after.spec_frame() == self.spec_frame() + 1
        &&& after.spec_frame_count() == self.spec_frame_count()
        &&& after.spec_blend_ratio() == self.spec_blend_ratio()
        &&& report.frame == after.spec_frame()
        &&& report.finished == after.spec_is_finished()
        &&& after.spec_scales().len() == self.spec_scales().len()
        &&& layers_fit(
            after.spec_scales(),
            self.spec_grid().spec_height() as int,
            self.spec_grid().spec_width() as int,
        )
        &&& forall|s: int|
            0 <= s < self.spec_scales().len() ==> {
                &&& (#[trigger] after.spec_scales()[s]).same_parameters(&self.spec_scales()[s])
                &&& after.spec_scales()[s].derived_from(
                    &smoothed[s].activator,
                    &smoothed[s].inhibitor,
                )
            }
        &&& after.spec_grid().same_shape(self.spec_grid())
        &&& after.spec_colors().spec_height() == self.spec_colors().spec_height()
        &&& after.spec_colors().spec_width() == self.spec_colors().spec_width()
        &&& forall|r: int, c: int|
            self.spec_grid().holds(r, c) ==> #[trigger] after.spec_colors().at(r, c)
                == moved_color(
                after.spec_scales(),
                self.spec_colors().at(r, c),
                self.spec_grid().at(r, c) as int,
                self.spec_blend_ratio() as int,
                r,
                c,
            )
        &&& moved_extent(
            after.spec_scales(),
            self.spec_grid(),
            report.lowest as int,
            report.highest as int,
        )
        &&& forall|r: int, c: int|
            self.spec_grid().holds(r, c) ==> #[trigger] after.spec_grid().at(r, c) == stretched(
                moved_value(after.spec_scales(), self.spec_grid().at(r, c) as int, r, c),
                report.lowest as int,
                report.highest as int,
            )
    }

    /// A run that starts from the given field, colors and layers.
    pub fn new(
        grid: ScalarField,
        colors: ColorField,
        scales: Vec<Scale>,
        blend_ratio: i64,
        step_count: usize,
    ) -> (made: Result<Simulation, SetupError>)
        requires
            forall|s: int| 0 <= s < scales@.len() ==> (#[trigger] scales@[s]).wf(),
        ensures
            match made {
                Ok(run) => {
                    &&& setup_fault(&grid, &colors, scales@, blend_ratio as int) is None
                    &&& run.wf()
                    &&& run.spec_grid() == grid
                    &&& run.spec_colors() == colors
                    &&& run.spec_scales() == scales@
                    &&& run.spec_blend_ratio() == blend_ratio
                    &&& run.spec_frame() == 0
                    &&& run.spec_frame_count() == step_count
                },
                Err(fault) => setup_fault(&grid, &colors, scales@, blend_ratio as int) == Some(
                    fault,
                ),
            },
    {
        if scales.len() == 0 {
            return Err(SetupError::NoScales);
        }
        let height = grid.height();
        let width = grid.width();
        if height == 0 || width == 0 {
            return Err(SetupError::EmptyField);
        }
        if colors.height() != height || colors.width() != width {
            return Err(SetupError::ShapeMismatch);
        }
        let mut s: usize = 0;
        while s < scales.len()
            invariant
                s <= scales@.len(),
                height == grid.spec_height(),
                width == grid.spec_width(),
                height > 0,
                width > 0,
                colors.spec_height() == height,
                colors.spec_width() == width,
                forall|k: int|
                    0 <= k < s ==> (#[trigger] scales@[k]).spec_height() == height
                        && scales@[k].spec_width() == width,
            decreases scales@.len() - s,
        {
            if scales[s].activator().height() != height || scales[s].activator().width() != width {
                assert(scales@[s as int].spec_height() != height || scales@[s as int].spec_width()
                    != width);
                return Err(SetupError::ShapeMismatch);
            }
            s += 1;
        }
        if !grid.is_bounded(MAX_MAGNITUDE) {
            return Err(SetupError::FieldOutOfRange);
        }
        if blend_ratio < 0 || blend_ratio > UNIT {
            return Err(SetupError::RatioOutOfRange);
        }
        Ok(Simulation { grid, colors, scales, blend_ratio, frame: 0, frame_count: step_count })
    }

    /// Whether two runs are in the same state: fields, colors and layers
    /// that are alike, and the same blend ratio, frame index and frame
    /// count.
    pub open spec fn alike(&self, other: &Simulation) -> bool {
        &&& self.spec_grid().alike(other.spec_grid())
        &&& self.spec_colors().alike(other.spec_colors())
        &&& self.spec_scales().len() == other.spec_scales().len()
        &&& forall|s: int|
            0 <= s < self.spec_scales().len() ==> (#[trigger] self.spec_scales()[s]).alike(
                &other.spec_scales()[s],
            )
        &&& self.spec_blend_ratio() == other.spec_blend_ratio()
        &&& self.spec_frame() == other.spec_frame()
        &&& self.spec_frame_count() == other.spec_frame_count()
    }

    /// Whether the run is at its start and was drawn as `config` asks:
    /// its frame count and blend ratio are the configured ones, and it has
    /// the configured number of layers, each with parameters that some draw
    /// gives, a color chosen as configured, and derived grids still at zero.
    pub open spec fn drawn_for(&self, config: &Config) -> bool {
        &&& self.spec_frame() == 0
        &&& self.spec_frame_count() == config.step_count
        &&& self.spec_blend_ratio() == config.blend_ratio
        &&& self.spec_scales().len() == config.scale_count
        &&& forall|s: int|
            0 <= s < self.spec_scales().len() ==> {
                &&& (#[trigger] self.spec_scales()[s]).drawn(
                    shorter(
                        self.spec_grid().spec_height() as int,
                        self.spec_grid().spec_width() as int,
                    ),
                )
                &&& color_choice(
                    config.colors_from_input,
                    self.spec_colors(),
                    self.spec_scales()[s].spec_color(),
                )
                &&& self.spec_scales()[s].is_blank()
            }
    }

    /// A run over a made-up field of the configured shape: every value of
    /// the field is drawn from `-1 .. 1`, every pixel is black, and the
    /// layers are drawn as configured, all from the configured seed.
    pub fn synthetic(config: &Config) -> (made: Result<Simulation, SetupError>)
        ensures
            match made {
                Ok(run) => {
                    &&& config_fault(config, config.height as int, config.width as int) is None
                    &&& run.wf()
                    &&& run.drawn_for(config)
                    &&& run.spec_grid().spec_height() == config.height
                    &&& run.spec_grid().spec_width() == config.width
                    &&& forall|r: int, c: int|
                        run.spec_grid().holds(r, c) ==> -UNIT <= #[trigger] run.spec_grid().at(r, c)
                            < UNIT
                    &&& forall|r: int, c: int|
                        run.spec_grid().holds(r, c) ==> #[trigger] run.spec_colors().at(r, c) == (
                        Rgb { red: 0, green: 0, blue: 0 })
                },
                Err(fault) => config_fault(config, config.height as int, config.width as int)
                    == Some(fault),
            },
    {
        if config.scale_count == 0 {
            return Err(SetupError::NoScales);
        }
        if config.height == 0 || config.width == 0 {
            return Err(SetupError::EmptyField);
        }
        if !check_shape(config.height, config.width) {
            return Err(SetupError::TooLarge);
        }
        if config.blend_ratio < 0 || config.blend_ratio > UNIT {
            return Err(SetupError::RatioOutOfRange);
        }
        let mut generator = Generator::from_seed(config.seed);
        let grid = generator.field(config.height, config.width);
        let colors = ColorField::zeros(config.height, config.width);
        let scales = draw_scales(
            config.scale_count,
            config.colors_from_input,
            &colors,
            &mut generator,
        );
        Ok(
            Simulation {
                grid,
                colors,
                scales,
                blend_ratio: config.blend_ratio,
                frame: 0,
                frame_count: config.step_count,
            },
        )
    }

    /// A run over an image of `height` × `width` pixels, given as its gray
    /// levels and as its color bytes, both row by row: gray level `v`
    /// becomes the field value `v / 128 - 1`, the colors are taken as they
    /// are, and the layers are drawn as configured from the configured seed.
    pub fn from_image(
        config: &Config,
        height: usize,
        width: usize,
        gray: &Vec<u8>,
        rgb: &Vec<u8>,
    ) -> (made: Result<Simulation, SetupError>)
        ensures
            match made {
                Ok(run) => {
                    &&& image_fault(
                        config,
                        height as int,
                        width as int,
                        gray@.len() as int,
                        rgb@.len() as int,
                    ) is None
                    &&& run.wf()
                    &&& run.drawn_for(config)
                    &&& run.spec_grid().spec_height() == height
                    &&& run.spec_grid().spec_width() == width
                    &&& forall|r: int, c: int|
                        run.spec_grid().holds(r, c) ==> #[trigger] run.spec_grid().at(r, c)
                            == level_value(gray@[listing_index(r, c, width as int)] as int)
                    &&& forall|r: int, c: int, k: int|
                        run.spec_grid().holds(r, c) && 0 <= k < 3
                            ==> #[trigger] run.spec_colors().at(r, c).channel(k)
                            == rgb@[listing_index(r, c, width as int) * 3 + k]
                },
                Err(fault) => image_fault(
                    config,
                    height as int,
                    width as int,
                    gray@.len() as int,
                    rgb@.len() as int,
                ) == Some(fault),
            },
    {
        if config.scale_count == 0 {
            return Err(SetupError::NoScales);
        }
        if height == 0 || width == 0 {
            return Err(SetupError::EmptyField);
        }
        if !check_shape(height, width) {
            return Err(SetupError::TooLarge);
        }
        if config.blend_ratio < 0 || config.blend_ratio > UNIT {
            return Err(SetupError::RatioOutOfRange);
        }
        let grid = match ScalarField::from_gray_levels(height, width, gray) {
            Some(grid) => grid,
            None => {
                return Err(SetupError::WrongLength);
            },
        };
        let colors = match ColorField::from_bytes(height, width, rgb) {
            Some(colors) => colors,
            None => {
                return Err(SetupError::WrongLength);
            },
        };
        let mut generator = Generator::from_seed(config.seed);
        let scales = draw_scales(
            config.scale_count,
            config.colors_from_input,
            &colors,
            &mut generator,
        );
        proof {
            assert forall|r: int, c: int| grid.holds(r, c) implies within(
                #[trigger] grid.at(r, c) as int,
                MAX_MAGNITUDE as int,
            ) by {
                let level = gray@[listing_index(r, c, width as int)] as int;
                assert(grid.at(r, c) == level_value(level));
            }
        }
        Ok(
            Simulation {
                grid,
                colors,
                scales,
                blend_ratio: config.blend_ratio,
                frame: 0,
                frame_count: config.step_count,
            },
        )
    }

    /// What the caller has to smooth before the next step: for each layer
    /// in order, the standard deviations of its activator's and of its
    /// inhibitor's smoothing, half the respective radius.
    pub fn sigmas(&self) -> (pairs: Vec<(i64, i64)>)
        ensures
            pairs@.len() == self.spec_scales().len(),
            forall|s: int|
                0 <= s < pairs@.len() ==> #[trigger] pairs@[s] == (
                    half(self.spec_scales()[s].spec_activator_radius() as int) as i64,
                    half(self.spec_scales()[s].spec_inhibitor_radius() as int) as i64,
                ),
    {
        let mut pairs: Vec<(i64, i64)> = Vec::new();
        let mut s: usize = 0;
        while s < self.scales.len()
            invariant
                s <= self.scales@.len(),
                pairs@.len() == s,
                forall|k: int|
                    0 <= k < s ==> #[trigger] pairs@[k] == (
                        half(self.scales@[k].spec_activator_radius() as int) as i64,
                        half(self.scales@[k].spec_inhibitor_radius() as int) as i64,
                    ),
            decreases self.scales@.len() - s,
        {
            let scale = &self.scales[s];
            pairs.push((scale.activator_sigma(), scale.inhibitor_sigma()));
            s += 1;
        }
        pairs
    }

    /// Takes the run one step on. `smoothed` holds, for each layer in
    /// order, the field as it stands smoothed at the layer's two radii. The
    /// layers derive their grids from it, every pixel is tinted and moved by
    /// its governing layer, and the field is normalized (see
    /// [`Simulation::steps_to`]). A refused step changes nothing.
    pub fn step(&mut self, smoothed: &Vec<Smoothed>) -> (outcome: Result<StepReport, StepError>)
        requires
            old(self).wf(),
        ensures
            final(self).wf(),
            match outcome {
                Ok(report) => {
                    &&& old(self).steps_to(smoothed@, final(self), report)
                    &&& final(self).spec_grid().bounded(UNIT as int)
                },
                Err(fault) => {
                    &&& old(self).step_fault(smoothed@) == Some(fault)
                    &&& *final(self) == *old(self)
                },
            },
    {
        if self.is_finished() {
            return Err(StepError::Finished);
        }
        if smoothed.len() != self.scales.len() {
            return Err(StepError::WrongCount);
        }
        if !shapes_match(smoothed, self.grid.height(), self.grid.width()) {
            return Err(StepError::WrongShape);
        }
        if !values_bounded(smoothed) {
            return Err(StepError::OutOfRange);
        }
        update_scales(&mut self.scales, smoothed);
        let extent = compose(&mut self.grid, &mut self.colors, &self.scales, self.blend_ratio);
        // A field with cells always has an extent.
        let (lowest, highest) = match extent {
            Some(pair) => pair,
            None => (0, 0),
        };
        proof {
            assert forall|r: int, c: int| old(self).spec_grid().holds(r, c) implies lowest
                <= moved_value(self.scales@, #[trigger] old(self).spec_grid().at(r, c) as int, r, c)
                <= highest by {
                assert(self.grid.at(r, c) == moved_value(
                    self.scales@,
                    old(self).spec_grid().at(r, c) as int,
                    r,
                    c,
                ));
            }
        }
        self.grid.rescale(lowest, highest);
        self.frame = self.frame + 1;
        Ok(StepReport { frame: self.frame, lowest, highest, finished: self.is_finished() })
    }

    /// The field.
    #[verifier::when_used_as_spec(spec_grid)]
    pub fn grid(&self) -> (f: &ScalarField)
        ensures
            f == self.spec_grid(),
    {
        &self.grid
    }

    /// The colors.
    #[verifier::when_used_as_spec(spec_colors)]
    pub fn colors(&self) -> (f: &ColorField)
        ensures
            f == self.spec_colors(),
    {
        &self.colors
    }

    /// The layers.
    pub fn scales(&self) -> (layers: &Vec<Scale>)
        ensures
            layers@ == self.spec_scales(),
    {
        &self.scales
    }

    /// How far a pixel's color moves toward its layer's color in one step.
    #[verifier::when_used_as_spec(spec_blend_ratio)]
    pub fn blend_ratio(&self) -> (ratio: i64)
        ensures
            ratio == self.spec_blend_ratio(),
    {
        self.blend_ratio
    }

    /// Index of the latest frame: the number of steps taken.
    #[verifier::when_used_as_spec(spec_frame)]
    pub fn frame(&self) -> (index: usize)
        ensures
            index == self.spec_frame(),
    {
        self.frame
    }

    /// Number of frames of the run, the starting frame included.
    #[verifier::when_used_as_spec(spec_frame_count)]
    pub fn frame_count(&self) -> (count: usize)
        ensures
            count == self.spec_frame_count(),
    {
        self.frame_count
    }

    /// Whether the run has produced all its frames.
    #[verifier::when_used_as_spec(spec_is_finished)]
    pub fn is_finished(&self) -> (done: bool)
        ensures
            done == self.spec_is_finished(),
    {
        self.frame_count <= 1 || self.frame >= self.frame_count - 1
    }

    /// The latest frame in gray: one byte per pixel, row by row.
    pub fn gray_frame(&self) -> (levels: Vec<u8>)
        ensures
            levels@.len() == self.spec_grid().spec_height() * self.spec_grid().spec_width(),
            forall|r: int, c: int|
                self.spec_grid().holds(r, c) ==> levels@[listing_index(
                    r,
                    c,
                    self.spec_grid().spec_width() as int,
                )] == crate::fixed::gray_level(#[trigger] self.spec_grid().at(r, c) as int),
    {
        self.grid.to_gray_levels()
    }

    /// The latest frame in color: three bytes per pixel, row by row.
    pub fn color_frame(&self) -> (bytes: Vec<u8>)
        ensures
            bytes@.len() == self.spec_colors().spec_height() * self.spec_colors().spec_width() * 3,
            forall|r: int, c: int, k: int|
                self.spec_colors().holds(r, c) && 0 <= k < 3 ==> bytes@[listing_index(
                    r,
                    c,
                    self.spec_colors().spec_width() as int,
                ) * 3 + k] == #[trigger] self.spec_colors().at(r, c).channel(k),
    {
        self.colors.to_bytes()
    }
}

/// Decides [`smoothed_shaped`].
fn shapes_match(smoothed: &Vec<Smoothed>, height: usize, width: usize) -> (ok: bool)
    ensures
        ok == smoothed_shaped(smoothed@, height as int, width as int),
{
    let mut s: usize = 0;
    while s < smoothed.len()
        invariant
            s <= smoothed@.len(),
            smoothed_shaped(smoothed@.take(s as int), height as int, width as int),
        decreases smoothed@.len() - s,
    {
        let pair = &smoothed[s];
        if pair.activator.height() != height || pair.activator.width() != width
            || pair.inhibitor.height() != height || pair.inhibitor.width() != width {
            assert(smoothed@[s as int] == pair);
            return false;
        }
        proof {
            let longer = smoothed@.take(s as int + 1);
            assert forall|k: int| 0 <= k < longer.len() implies {
                &&& (#[trigger] longer[k]).activator.spec_height() == height
                &&& longer[k].activator.spec_width() == width
                &&& longer[k].inhibitor.spec_height() == height
                &&& longer[k].inhibitor.spec_width() == width
            } by {
                if k < s {
                    assert(longer[k] == smoothed@.take(s as int)[k]);
                }
            }
        }
        s += 1;
    }
    assert(smoothed@.take(s as int) =~= smoothed@);
    true
}

/// Decides [`smoothed_bounded`].
fn values_bounded(smoothed: &Vec<Smoothed>) -> (ok: bool)
    ensures
        ok == smoothed_bounded(smoothed@),
{
    let mut s: usize = 0;
    while s < smoothed.len()
        invariant
            s <= smoothed@.len(),
            smoothed_bounded(smoothed@.take(s as int)),
        decreases smoothed@.len() - s,
    {
        let pair = &smoothed[s];
        if !pair.activator.is_bounded(MAX_MAGNITUDE) || !pair.inhibitor.is_bounded(MAX_MAGNITUDE) {
            assert(smoothed@[s as int] == pair);
            return false;
        }
        proof {
            let longer = smoothed@.take(s as int + 1);
            assert forall|k: int| 0 <= k < longer.len() implies (#[trigger] longer[k]).activator.bounded(
                MAX_MAGNITUDE as int,
            ) && longer[k].inhibitor.bounded(MAX_MAGNITUDE as int) by {
                if k < s {
                    assert(longer[k] == smoothed@.take(s as int)[k]);
                }
            }
        }
        s += 1;
    }
    assert(smoothed@.take(s as int) =~= smoothed@);
    true
}

/// Lets every layer derive its grids from its pair of smoothed fields.
fn update_scales(scales: &mut Vec<Scale>, smoothed: &Vec<Smoothed>)
    requires
        old(scales)@.len() == smoothed@.len(),
        old(scales)@.len() > 0,
        layers_fit(
            old(scales)@,
            old(scales)@[0].spec_height() as int,
            old(scales)@[0].spec_width() as int,
        ),
        smoothed_shaped(
            smoothed@,
            old(scales)@[0].spec_height() as int,
            old(scales)@[0].spec_width() as int,
        ),
        smoothed_bounded(smoothed@),
    ensures
        final(scales)@.len() == old(scales)@.len(),
        layers_fit(
            final(scales)@,
            old(scales)@[0].spec_height() as int,
            old(scales)@[0].spec_width() as int,
        ),
        forall|s: int|
            0 <= s < smoothed@.len() ==> {
                &&& (#[trigger] final(scales)@[s]).same_parameters(&old(scales)@[s])
                &&& final(scales)@[s].derived_from(&smoothed@[s].activator, &smoothed@[s].inhibitor)
            },
{
    let ghost height = scales@[0].spec_height() as int;
    let ghost width = scales@[0].spec_width() as int;
    let mut s: usize = 0;
    while s < scales.len()
        invariant
            s <= scales@.len(),
            scales@.len() == smoothed@.len(),
            scales@.len() == old(scales)@.len(),
            layers_fit(scales@, height, width),
            smoothed_shaped(smoothed@, height, width),
            smoothed_bounded(smoothed@),
            forall|k: int|
                0 <= k < s ==> {
                    &&& (#[trigger] scales@[k]).same_parameters(&old(scales)@[k])
                    &&& scales@[k].derived_from(&smoothed@[k].activator, &smoothed@[k].inhibitor)
                },
            forall|k: int| s <= k < scales@.len() ==> #[trigger] scales@[k] == old(scales)@[k],
        decreases scales@.len() - s,
    {
        let pair = &smoothed[s];
        assert(scales@[s as int].wf());
        scales[s].update(&pair.activator, &pair.inhibitor);
        s += 1;
    }
}

} // verus!
