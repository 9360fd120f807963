//! Row density and text scaling.
//!
//! Compact and default densities use 24- and 28-pixel rows at the base scale. Rows grow
//! with the text size, so that text is never clipped by a row that did not.

use crate::text;
use crate::text::{lower, trimmed};
use crate::units::{
    clamped, fits, floor_div, hold_between, larger, max_of, rounded, times, times_is_bounded,
    Micros, Reading, MICRO,
};
use vstd::prelude::*;

verus! {

/// How tall rows are.
#[derive(Clone, Copy, PartialEq, Eq, Hash, Debug, Default, Structural)]
pub enum Density {
    /// 24 logical pixels.
    Compact,
    /// 28 logical pixels.
    #[default]
    Default,
}

/// The smallest text scale that any platform offers.
pub const MIN_TEXT_SCALE: Micros = 750_000;

/// Past every platform's maximum; a row stops being a row here.
pub const MAX_TEXT_SCALE: Micros = 3_000_000;

/// A text scale the layout can honour: a reading without direction is 100%, and one that is
/// merely too large or too small is the nearest end of the range.
pub open spec fn text_scale_of(scale: Reading) -> int {
    match scale {
        Reading::NotANumber => 1_000_000,
        Reading::Infinite => MAX_TEXT_SCALE as int,
        Reading::NegativeInfinite => MIN_TEXT_SCALE as int,
        Reading::Finite(x) => clamped(x as int, MIN_TEXT_SCALE as int, MAX_TEXT_SCALE as int),
    }
}

/// A device pixel ratio that can be divided by: one that is not finite, or not positive, is a
/// broken one, and is 1x.
pub open spec fn device_scale_of(scale: Reading) -> int {
    match scale {
        Reading::NotANumber => 1_000_000,
        Reading::Infinite => 1_000_000,
        Reading::NegativeInfinite => 1_000_000,
        Reading::Finite(x) => if x <= 0 {
            1_000_000
        } else {
            clamped(x as int, 500_000, 8_000_000)
        },
    }
}

impl Density {
    /// Row height in logical pixels at 100% text scale.
    pub open spec fn logical_height(self) -> int {
        match self {
            Density::Compact => 24,
            Density::Default => 28,
        }
    }

    /// Row height in physical pixels: the logical height under both scales, to the nearest
    /// whole pixel and never less than one.
    pub open spec fn physical_height(self, scale: Reading, text_scale: Reading) -> int {
        max_of(
            (self.logical_height() * text_scale_of(text_scale) * device_scale_of(scale)
                + 500_000_000_000) / 1_000_000_000_000,
            1,
        )
    }

    /// The name of this density in reports.
    pub open spec fn name(self) -> Seq<char> {
        match self {
            Density::Compact => "compact-24"@,
            Density::Default => "default-28"@,
        }
    }

    /// Row height in logical pixels at 100% text scale.
    pub fn base_height(self) -> (result: Micros)
        ensures
            result == self.logical_height() * 1_000_000,
    {
        match self {
            Density::Compact => 24_000_000,
            Density::Default => 28_000_000,
        }
    }

    /// Font size in logical pixels at 100% text scale.
    ///
    /// The same at both densities: compact removes padding, not legibility.
    pub fn base_font_size(self) -> (result: Micros)
        ensures
            result == 13_000_000,
    {
        13_000_000
    }

    /// The name of this density in reports.
    pub fn as_str(self) -> (result: &'static str)
        ensures
            result@ == self.name(),
    {
        match self {
            Density::Compact => "compact-24",
            Density::Default => "default-28",
        }
    }

    /// Read a density's name: in full or without its number, in any case, with white space
    /// around it.
    pub fn parse(text: &str) -> (result: Option<Density>)
        ensures
            ({
                let word = trimmed(text@).map_values(|c: char| lower(c));
                result == if word == "compact"@ || word == "compact-24"@ {
                    Some(Density::Compact)
                } else if word == "default"@ || word == "default-28"@ {
                    Some(Density::Default)
                } else {
                    None
                }
            }),
    {
        let word: String = text::to_ascii_lowercase(text::trim(text));
        if text::same(word.as_str(), "compact") || text::same(word.as_str(), "compact-24") {
            Some(Density::Compact)
        } else if text::same(word.as_str(), "default") || text::same(word.as_str(), "default-28") {
            Some(Density::Default)
        } else {
            None
        }
    }

    /// The density this one toggles to.
    pub fn other(self) -> (result: Density)
        ensures
            result == match self {
                Density::Compact => Density::Default,
                Density::Default => Density::Compact,
            },
            result != self,
    {
        match self {
            Density::Compact => Density::Default,
            Density::Default => Density::Compact,
        }
    }

    /// Row height in whole physical pixels.
    pub fn row_height_px(self, scale: Reading, text_scale: Reading) -> (result: u32)
        ensures
            result == self.physical_height(scale, text_scale),
    {
        let height: i128 = match self {
            Density::Compact => 24,
            Density::Default => 28,
        };
        let t: Micros = clamp_text_scale(text_scale);
        let s: Micros = sane_scale(scale);
        proof {
            assert(0 <= height * t * s <= 28 * 3_000_000 * 8_000_000) by (nonlinear_arith)
                requires
                    0 <= height <= 28,
                    0 <= t <= 3_000_000,
                    0 <= s <= 8_000_000,
            ;
            assert(0 <= height * t <= 28 * 3_000_000) by (nonlinear_arith)
                requires
                    0 <= height <= 28,
                    0 <= t <= 3_000_000,
            ;
        }
        let whole: i128 = (height * t * s + 500_000_000_000) / 1_000_000_000_000;
        if whole < 1 {
            1
        } else {
            whole as u32
        }
    }

    /// Font size in physical pixels.
    pub fn font_size_px(self, scale: Reading, text_scale: Reading) -> (result: Micros)
        ensures
            result == 13 * times(text_scale_of(text_scale), device_scale_of(scale)),
    {
        let t: Micros = clamp_text_scale(text_scale);
        let s: Micros = sane_scale(scale);
        proof {
            times_is_bounded(t as int, s as int, 8);
        }
        13 * crate::units::product(t, s)
    }
}

/// Clamp a reported text scale into the range the layout can honour.
pub fn clamp_text_scale(scale: Reading) -> (result: Micros)
    ensures
        result == text_scale_of(scale),
        MIN_TEXT_SCALE <= result <= MAX_TEXT_SCALE,
{
    match scale {
        Reading::NotANumber => MICRO,
        Reading::Infinite => MAX_TEXT_SCALE,
        Reading::NegativeInfinite => MIN_TEXT_SCALE,
        Reading::Finite(x) => hold_between(x, MIN_TEXT_SCALE, MAX_TEXT_SCALE),
    }
}

/// Clamp a device pixel ratio; a broken one is 1x.
pub fn sane_scale(scale: Reading) -> (result: Micros)
    ensures
        result == device_scale_of(scale),
        500_000 <= result <= 8_000_000,
{
    match scale {
        Reading::NotANumber => MICRO,
        Reading::Infinite => MICRO,
        Reading::NegativeInfinite => MICRO,
        Reading::Finite(x) => if x <= 0 {
            MICRO
        } else {
            hold_between(x, 500_000, 8_000_000)
        },
    }
}

/// An in-progress density change.
///
/// Row height animates, and the row under the pointer stays there.
#[derive(Clone, Copy, PartialEq, Eq, Debug, Structural)]
pub struct DensityTransition {
    /// The density that is leaving.
    pub from: Density,
    /// The density that is arriving.
    pub to: Density,
    /// Zero at the start, one when complete.
    pub progress: Micros,
    /// Total duration in seconds.
    pub duration: Micros,
}

/// How far along the cubic ease-out is at `t`: rounded so that it is at one only at the end.
pub open spec fn eased(t: int) -> int {
    let left = 1_000_000 - clamped(t, 0, 1_000_000);
    1_000_000 - (left * left * left + 999_999_999_999) / 1_000_000_000_000
}

/// The progress of a transition after `dt` more seconds.
pub open spec fn progressed(progress: int, dt: int, duration: int) -> int {
    if duration <= 0 {
        1_000_000
    } else {
        clamped(progress + dt * 1_000_000 / duration, 0, 1_000_000)
    }
}

impl DensityTransition {
    /// Duration of the height change in seconds.
    pub const DURATION: Micros = 120_000;

    /// The row height this far into the change.
    pub open spec fn height_at(self, scale: Reading, text_scale: Reading) -> int {
        let a = self.from.physical_height(scale, text_scale);
        let b = self.to.physical_height(scale, text_scale);
        max_of(rounded(a * 1_000_000 + (b - a) * eased(self.progress as int)), 1)
    }

    /// A change from one density to another that has not started moving.
    pub fn new(from: Density, to: Density) -> (result: Self)
        ensures
            result == (DensityTransition { from, to, progress: 0, duration: Self::DURATION }),
    {
        DensityTransition { from, to, progress: 0, duration: Self::DURATION }
    }

    /// Advance by `dt` seconds. Returns `true` while still animating.
    pub fn advance(&mut self, dt: Micros) -> (result: bool)
        requires
            fits(dt as int),
            fits(old(self).progress as int),
            fits(old(self).duration as int),
        ensures
            *final(self) == (DensityTransition {
                progress: progressed(
                    old(self).progress as int,
                    dt as int,
                    old(self).duration as int,
                ) as Micros,
                ..*old(self)
            }),
            result == (final(self).progress < MICRO),
    {
        if self.duration <= 0 {
            self.progress = MICRO;
            return false;
        }
        let step: Micros = floor_div(dt * MICRO, self.duration);
        proof {
            let d = self.duration as int;
            let n = dt * 1_000_000;
            assert(-1_000_000 * crate::units::WIDEST <= n / d <= 1_000_000 * crate::units::WIDEST)
                by (nonlinear_arith)
                requires
                    d >= 1,
                    -1_000_000 * crate::units::WIDEST <= n <= 1_000_000 * crate::units::WIDEST,
            ;
        }
        self.progress = hold_between(self.progress + step, 0, MICRO);
        self.progress < MICRO
    }

    /// Whether the change has arrived.
    pub fn is_complete(self) -> (result: bool)
        ensures
            result == (self.progress >= MICRO),
    {
        self.progress >= MICRO
    }

    /// Interpolated row height in physical pixels.
    pub fn row_height_px(self, scale: Reading, text_scale: Reading) -> (result: u32)
        ensures
            result == self.height_at(scale, text_scale),
    {
        let a: i128 = self.from.row_height_px(scale, text_scale) as i128;
        let b: i128 = self.to.row_height_px(scale, text_scale) as i128;
        let t: Micros = ease_out_cubic(self.progress);
        proof {
            physical_height_is_bounded(self.from, scale, text_scale);
            physical_height_is_bounded(self.to, scale, text_scale);
            assert(-700 * 1_000_000 <= (b - a) * t <= 700 * 1_000_000) by (nonlinear_arith)
                requires
                    -700 <= b - a <= 700,
                    0 <= t <= 1_000_000,
            ;
            assert(a * 1_000_000 + (b - a) * t >= 0) by (nonlinear_arith)
                requires
                    a >= 1,
                    b >= 1,
                    0 <= t <= 1_000_000,
            ;
        }
        let whole: i128 = (a * MICRO + (b - a) * t + 500_000) / MICRO;
        if whole < 1 {
            1
        } else {
            whole as u32
        }
    }

    /// Where the scroll offset must move so that `anchor_row` stays at `anchor_viewport_y`
    /// from the top of the viewport when rows change height.
    pub fn rebase_scroll(
        anchor_row: u64,
        offset_within_row: Micros,
        old_height: u32,
        new_height: u32,
        anchor_viewport_y: Micros,
    ) -> (result: Micros)
        requires
            fits(offset_within_row as int),
            fits(anchor_viewport_y as int),
        ensures
            result == rebased(
                anchor_row as int,
                offset_within_row as int,
                old_height as int,
                new_height as int,
                anchor_viewport_y as int,
            ),
    {
        proof {
            assert(0 <= anchor_row * new_height <= 0x1_0000_0000_0000_0000 * 0x1_0000_0000)
                by (nonlinear_arith)
                requires
                    0 <= anchor_row < 0x1_0000_0000_0000_0000,
                    0 <= new_height < 0x1_0000_0000,
            ;
            assert(-0x1000_0000_0000_0000 * 0x1_0000_0000 <= offset_within_row * new_height
                <= 0x1000_0000_0000_0000 * 0x1_0000_0000) by (nonlinear_arith)
                requires
                    -0x1000_0000_0000_0000 <= offset_within_row <= 0x1000_0000_0000_0000,
                    0 <= new_height < 0x1_0000_0000,
            ;
        }
        let row_top: Micros = anchor_row as i128 * new_height as i128 * MICRO;
        let inside: Micros = if old_height > 0 {
            proof {
                let n = offset_within_row * new_height;
                let d = old_height as int;
                assert(-0x1000_0000_0000_0000 * 0x1_0000_0000 <= n / d <= 0x1000_0000_0000_0000
                    * 0x1_0000_0000) by (nonlinear_arith)
                    requires
                        d >= 1,
                        -0x1000_0000_0000_0000 * 0x1_0000_0000 <= n <= 0x1000_0000_0000_0000
                            * 0x1_0000_0000,
                ;
            }
            floor_div(offset_within_row * new_height as i128, old_height as i128)
        } else {
            offset_within_row
        };
        larger(row_top + inside - anchor_viewport_y, 0)
    }
}

/// The scroll offset that puts a point of `anchor_row` at `viewport_y` once rows are
/// `new_height` tall.
pub open spec fn rebased(
    anchor_row: int,
    offset_within_row: int,
    old_height: int,
    new_height: int,
    viewport_y: int,
) -> int {
    let inside = if old_height > 0 {
        offset_within_row * new_height / old_height
    } else {
        offset_within_row
    };
    max_of(anchor_row * new_height * 1_000_000 + inside - viewport_y, 0)
}

/// Cubic ease-out: fast start, settled finish.
pub fn ease_out_cubic(t: Micros) -> (result: Micros)
    ensures
        result == eased(t as int),
        0 <= result <= MICRO,
{
    let left: Micros = MICRO - hold_between(t, 0, MICRO);
    proof {
        assert(0 <= left * left <= 1_000_000_000_000) by (nonlinear_arith)
            requires
                0 <= left <= 1_000_000,
        ;
        assert(0 <= left * left * left <= 1_000_000_000_000_000_000) by (nonlinear_arith)
            requires
                0 <= left <= 1_000_000,
                0 <= left * left <= 1_000_000_000_000,
        ;
    }
    MICRO - (left * left * left + 999_999_999_999) / 1_000_000_000_000
}

proof fn physical_height_is_bounded(d: Density, scale: Reading, text_scale: Reading)
    ensures
        1 <= d.physical_height(scale, text_scale) <= 700,
{
    let h = d.logical_height();
    let t = text_scale_of(text_scale);
    let s = device_scale_of(scale);
    assert(0 <= h * t * s <= 28 * 3_000_000 * 8_000_000) by (nonlinear_arith)
        requires
            0 <= h <= 28,
            0 <= t <= 3_000_000,
            0 <= s <= 8_000_000,
    ;
}

/// Reading back a density's name gives the density.
pub proof fn names_read_back(d: Density)
    ensures
        ({
            let word = trimmed(d.name()).map_values(|c: char| lower(c));
            &&& word == d.name()
            &&& Density::Compact.name() != Density::Default.name()
            &&& "compact"@ != d.name()
            &&& "default"@ != d.name()
        }),
{
    reveal_strlit("compact-24");
    reveal_strlit("default-28");
    reveal_strlit("compact");
    reveal_strlit("default");
    text::solid_text_is_trimmed(d.name());
    assert(d.name().map_values(|c: char| lower(c)) =~= d.name());
    assert("compact-24"@[0] == 'c');
    assert("default-28"@[0] == 'd');
}

/// A larger text scale never makes a row shorter, at any device scale.
pub proof fn row_height_is_monotone(d: Density, scale: Reading, a: Micros, b: Micros)
    requires
        a <= b,
    ensures
        d.physical_height(scale, Reading::Finite(a)) <= d.physical_height(scale, Reading::Finite(b)),
{
    let h = d.logical_height();
    let s = device_scale_of(scale);
    let ta = text_scale_of(Reading::Finite(a));
    let tb = text_scale_of(Reading::Finite(b));
    assert(h * ta * s <= h * tb * s) by (nonlinear_arith)
        requires
            h >= 0,
            s >= 0,
            ta <= tb,
    ;
}

proof fn lemma_ends_of_the_curve()
    ensures
        forall|t: int| t <= 0 ==> #[trigger] eased(t) == 0,
        forall|t: int| t >= 1_000_000 ==> #[trigger] eased(t) == 1_000_000,
{
    assert(0int * 0int * 0int == 0) by (nonlinear_arith);
    assert(1_000_000int * 1_000_000int * 1_000_000int == 1_000_000_000_000_000_000)
        by (nonlinear_arith);
}

/// The easing curve starts at zero, ends at one, stays between them and never turns back.
pub proof fn easing_is_bounded_and_monotone(a: int, b: int)
    requires
        a <= b,
    ensures
        eased(0) == 0,
        eased(1_000_000) == 1_000_000,
        0 <= eased(a) <= eased(b) <= 1_000_000,
{
    lemma_ends_of_the_curve();
    let la = 1_000_000 - clamped(a, 0, 1_000_000);
    let lb = 1_000_000 - clamped(b, 0, 1_000_000);
    assert(0 <= lb * lb * lb <= la * la * la <= 1_000_000_000_000_000_000) by (nonlinear_arith)
        requires
            0 <= lb <= la <= 1_000_000,
    ;
}

/// Short of the end, the curve is short of one.
pub proof fn easing_arrives_only_at_the_end(t: int)
    requires
        t < 1_000_000,
    ensures
        eased(t) < 1_000_000,
{
    let left = 1_000_000 - clamped(t, 0, 1_000_000);
    assert(left * left * left >= 1) by (nonlinear_arith)
        requires
            left >= 1,
    ;
}

/// A finished transition is exactly at the target height.
pub proof fn a_finished_transition_is_at_its_target(
    t: DensityTransition,
    scale: Reading,
    text_scale: Reading,
)
    requires
        t.progress >= 1_000_000,
    ensures
        t.height_at(scale, text_scale) == t.to.physical_height(scale, text_scale),
{
    let a = t.from.physical_height(scale, text_scale);
    let b = t.to.physical_height(scale, text_scale);
    lemma_ends_of_the_curve();
    assert((b - a) * 1_000_000 == b * 1_000_000 - a * 1_000_000);
    physical_height_is_bounded(t.to, scale, text_scale);
}

/// A transition that has not moved is exactly at the height it leaves.
pub proof fn a_new_transition_is_at_its_origin(
    t: DensityTransition,
    scale: Reading,
    text_scale: Reading,
)
    requires
        t.progress <= 0,
    ensures
        t.height_at(scale, text_scale) == t.from.physical_height(scale, text_scale),
{
    lemma_ends_of_the_curve();
    let d = t.to.physical_height(scale, text_scale) - t.from.physical_height(scale, text_scale);
    assert(d * 0 == 0);
    physical_height_is_bounded(t.from, scale, text_scale);
}

/// Steps that add up to the duration finish the transition, however they are divided; a
/// single step shows it.
pub proof fn a_full_step_finishes(progress: int, dt: int, duration: int)
    requires
        0 <= progress,
        0 < duration <= dt,
    ensures
        progressed(progress, dt, duration) == 1_000_000,
{
    assert(dt * 1_000_000 / duration >= 1_000_000) by (nonlinear_arith)
        requires
            0 < duration <= dt,
    ;
}

/// The anchor keeps its place on screen, unless the list is already at its very top: the point
/// `offset_within_row` into the anchor row, which is as far into the row as before in proportion to
/// its height, is where it was.
pub proof fn the_anchor_row_stays_put(
    anchor_row: int,
    offset_within_row: int,
    old_height: int,
    new_height: int,
    viewport_y: int,
)
    requires
        old_height > 0,
        anchor_row * new_height * 1_000_000 + offset_within_row * new_height / old_height
            >= viewport_y,
    ensures
        anchor_row * new_height * 1_000_000 + offset_within_row * new_height / old_height - rebased(
            anchor_row,
            offset_within_row,
            old_height,
            new_height,
            viewport_y,
        ) == viewport_y,
        offset_within_row == 0 ==> anchor_row * new_height * 1_000_000 - rebased(
            anchor_row,
            offset_within_row,
            old_height,
            new_height,
            viewport_y,
        ) == viewport_y,
{
    if offset_within_row == 0 {
        assert(offset_within_row * new_height / old_height == 0) by (nonlinear_arith)
            requires
                offset_within_row == 0,
                old_height > 0,
        ;
    }
}

/// Rows that had no height have no proportion to keep, so that a point of the anchor row is as far
/// into it as it was.
pub proof fn an_anchor_without_height_stays_put(
    anchor_row: int,
    offset_within_row: int,
    new_height: int,
    viewport_y: int,
)
    requires
        anchor_row * new_height * 1_000_000 + offset_within_row >= viewport_y,
    ensures
        anchor_row * new_height * 1_000_000 + offset_within_row - rebased(
            anchor_row,
            offset_within_row,
            0,
            new_height,
            viewport_y,
        ) == viewport_y,
{
}

/// A row is as tall as its density says, times both scales, to the nearest pixel and never less than
/// one.
pub proof fn a_row_is_as_tall_as_its_density_says(d: Density, scale: Reading, text_scale: Reading)
    ensures
        ({
            let exact = (match d {
                Density::Compact => 24int,
                Density::Default => 28int,
            }) * text_scale_of(text_scale) * device_scale_of(scale);
            let tall = d.physical_height(scale, text_scale);
            &&& tall >= 1
            &&& exact >= 500_000_000_000 ==> -500_000_000_000 <= tall * 1_000_000_000_000 - exact
                <= 500_000_000_000
        }),
{
}

/// A scale that can be honoured is taken as it is, and one that is out of range is its nearest end; what is
/// no number is one, and so is a device scale that is not above zero or has no end.
pub proof fn sound_scales_are_taken_as_they_are(x: Micros)
    ensures
        750_000 <= x <= 3_000_000 ==> text_scale_of(Reading::Finite(x)) == x,
        x < 750_000 ==> text_scale_of(Reading::Finite(x)) == 750_000,
        x > 3_000_000 ==> text_scale_of(Reading::Finite(x)) == 3_000_000,
        text_scale_of(Reading::Infinite) == 3_000_000,
        text_scale_of(Reading::NegativeInfinite) == 750_000,
        text_scale_of(Reading::NotANumber) == 1_000_000,
        500_000 <= x <= 8_000_000 ==> device_scale_of(Reading::Finite(x)) == x,
        0 < x < 500_000 ==> device_scale_of(Reading::Finite(x)) == 500_000,
        x > 8_000_000 ==> device_scale_of(Reading::Finite(x)) == 8_000_000,
        x <= 0 ==> device_scale_of(Reading::Finite(x)) == 1_000_000,
        device_scale_of(Reading::Infinite) == 1_000_000,
        device_scale_of(Reading::NegativeInfinite) == 1_000_000,
        device_scale_of(Reading::NotANumber) == 1_000_000,
{
}

/// On its way from one density to the other a row is never taller than the taller of the two nor shorter
/// than the shorter.
pub proof fn a_transition_stays_between_its_ends(
    t: DensityTransition,
    scale: Reading,
    text_scale: Reading,
)
    ensures
        ({
            let a = t.from.physical_height(scale, text_scale);
            let b = t.to.physical_height(scale, text_scale);
            let h = t.height_at(scale, text_scale);
            (a <= h <= b) || (b <= h <= a)
        }),
{
    let a = t.from.physical_height(scale, text_scale);
    let b = t.to.physical_height(scale, text_scale);
    let e = eased(t.progress as int);
    easing_is_bounded_and_monotone(t.progress as int, t.progress as int);
    physical_height_is_bounded(t.from, scale, text_scale);
    physical_height_is_bounded(t.to, scale, text_scale);
    let d = b - a;
    assert(d >= 0 ==> 0 <= d * e <= d * 1_000_000) by (nonlinear_arith)
        requires
            0 <= e <= 1_000_000,
    ;
    assert(d <= 0 ==> d * 1_000_000 <= d * e <= 0) by (nonlinear_arith)
        requires
            0 <= e <= 1_000_000,
    ;
}

/// The easing starts fast: it is never behind the time, and is ahead by as much as a cubic is.
pub proof fn easing_is_ahead_of_the_time(t: int)
    requires
        0 <= t <= 1_000_000,
    ensures
        eased(t) >= t,
        ({
            let left = 1_000_000 - t;
            let cube = left * left * left;
            0 <= (1_000_000 - eased(t)) * 1_000_000_000_000 - cube < 1_000_000_000_000
        }),
{
    let left = 1_000_000 - t;
    let cube = left * left * left;
    assert(0 <= cube <= left * 1_000_000_000_000) by (nonlinear_arith)
        requires
            cube == left * left * left,
            0 <= left <= 1_000_000,
    ;
}

/// Time that passes adds to the progress of a transition, as much of it as the time is of the duration, up
/// to its end.
pub proof fn progress_is_the_part_that_has_passed(progress: int, dt: int, duration: int)
    requires
        0 <= progress <= 1_000_000,
        0 <= dt,
        0 < duration,
    ensures
        ({
            let next = progressed(progress, dt, duration);
            &&& progress <= next <= 1_000_000
            &&& next < 1_000_000 ==> 0 <= dt * 1_000_000 - (next - progress) * duration < duration
            &&& next == 1_000_000 ==> dt * 1_000_000 >= (1_000_000 - progress) * duration
        }),
{
    let n = dt * 1_000_000;
    let q = n / duration;
    assert(0 <= q && 0 <= n - q * duration < duration) by (nonlinear_arith)
        requires
            q == n / duration,
            duration > 0,
            n >= 0,
    ;
    if progressed(progress, dt, duration) == 1_000_000 {
        assert((1_000_000 - progress) * duration <= q * duration) by (nonlinear_arith)
            requires
                1_000_000 - progress <= q,
                duration > 0,
        ;
    }
}

/// On the way from one density to the other a row is as tall as the easing has got, to the nearest
/// pixel.
pub proof fn a_transition_is_as_far_as_it_is_eased(
    t: DensityTransition,
    scale: Reading,
    text_scale: Reading,
)
    ensures
        ({
            let a = t.from.physical_height(scale, text_scale);
            let b = t.to.physical_height(scale, text_scale);
            let off = t.height_at(scale, text_scale) * 1_000_000 - (a * 1_000_000 + (b - a) * eased(
                t.progress as int,
            ));
            -500_000 <= off <= 500_000
        }),
{
    let a = t.from.physical_height(scale, text_scale);
    let b = t.to.physical_height(scale, text_scale);
    a_transition_stays_between_its_ends(t, scale, text_scale);
    easing_is_bounded_and_monotone(0, 1_000_000);
    let e = eased(t.progress as int);
    let exact = a * 1_000_000 + (b - a) * e;
    easing_is_bounded_and_monotone(t.progress as int, t.progress as int);
    assert(exact >= 1_000_000) by (nonlinear_arith)
        requires
            exact == a * 1_000_000 + (b - a) * e,
            a >= 1,
            b >= 1,
            0 <= e <= 1_000_000,
    ;
}

/// An anchor that would have to lie above the content's top is held to it.
pub proof fn an_anchor_never_leaves_the_content(
    anchor_row: int,
    offset_within_row: int,
    old_height: int,
    new_height: int,
    viewport_y: int,
)
    ensures
        rebased(anchor_row, offset_within_row, old_height, new_height, viewport_y) >= 0,
        old_height > 0 && anchor_row * new_height * 1_000_000 + offset_within_row * new_height
            / old_height <= viewport_y ==> rebased(
            anchor_row,
            offset_within_row,
            old_height,
            new_height,
            viewport_y,
        ) == 0,
{
}

} // verus!
