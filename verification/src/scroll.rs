//! Scroll offsets, flings and the visible slice of a corpus.
//!
//! Content offsets are exact: the bottom of a million 28-pixel rows is as precise as the
//! top. A fling meets the scroll bounds before its next offset is stored, so that motion
//! settles when it reaches either end.

use crate::fenwick::{prefix, row_is_at, Heights};
use crate::units::{
    clamped, fits, hold_between, larger, max_of, min_of, product, times, times_is_bounded, Micros,
    Reading, MICRO, WIDEST,
};
use std::ops::Range;
use vstd::prelude::*;

verus! {

/// Physics for a fling.
#[derive(Clone, Copy, PartialEq, Eq, Debug, Structural)]
pub struct FlingParams {
    /// Fraction of velocity retained per second.
    pub friction: Micros,
    /// Speed below which a fling stops, in physical pixels per second.
    pub stop_speed: Micros,
    /// Maximum speed, in physical pixels per second.
    pub max_speed: Micros,
}

impl FlingParams {
    /// A firm, quick stop.
    pub open spec fn standard() -> FlingParams {
        FlingParams { friction: 1_000, stop_speed: 12_000_000, max_speed: 40_000_000_000 }
    }
}

impl Default for FlingParams {
    fn default() -> (result: Self)
        ensures
            result == FlingParams::standard(),
    {
        FlingParams { friction: 1_000, stop_speed: 12_000_000, max_speed: 40_000_000_000 }
    }
}

/// The largest content offset there is: the height of the tallest content.
pub const FURTHEST: Micros = 18_446_744_073_709_551_615_000_000;

/// Content-space scroll position and velocity.
#[derive(Clone, Copy, PartialEq, Eq, Debug)]
pub struct ScrollState {
    offset: Micros,
    velocity: Micros,
    params: FlingParams,
}

/// Largest valid offset: never negative, so that short content cannot scroll into nothing.
pub open spec fn furthest_offset(content_height: u64, viewport_height: u32) -> int {
    max_of((content_height - viewport_height) * 1_000_000, 0)
}

/// An offset made valid: one that is not a finite number is the top.
pub open spec fn valid_offset(offset: Reading, content_height: u64, viewport_height: u32) -> int {
    match offset {
        Reading::Finite(x) => clamped(
            x as int,
            0,
            furthest_offset(content_height, viewport_height),
        ),
        _ => 0,
    }
}

/// What one step does to a fling: the offset, the velocity, and whether it still moves.
pub open spec fn fling_step(
    offset: int,
    velocity: int,
    stop_speed: int,
    decay: int,
    glide: int,
    furthest: int,
) -> (int, int, bool) {
    let candidate = offset + times(velocity, glide);
    if candidate <= 0 {
        (0, 0, false)
    } else if candidate >= furthest {
        (furthest, 0, false)
    } else {
        let slowed = times(velocity, decay);
        if -stop_speed < slowed < stop_speed {
            (candidate, 0, false)
        } else {
            (candidate, slowed, true)
        }
    }
}

impl Default for ScrollState {
    fn default() -> (result: Self)
        ensures
            result.position() == 0,
            result.speed() == 0,
            result.physics() == FlingParams::standard(),
    {
        ScrollState::new()
    }
}

impl ScrollState {
    #[verifier::type_invariant]
    spec fn well_formed(self) -> bool {
        &&& 0 <= self.offset <= FURTHEST
        &&& 0 <= self.params.max_speed <= WIDEST
        &&& -self.params.max_speed <= self.velocity <= self.params.max_speed
    }

    /// The content-space offset.
    pub closed spec fn position(self) -> int {
        self.offset as int
    }

    /// The velocity.
    pub closed spec fn speed(self) -> int {
        self.velocity as int
    }

    /// The physics.
    pub closed spec fn physics(self) -> FlingParams {
        self.params
    }

    /// At the top, at rest.
    pub fn new() -> (result: Self)
        ensures
            result.position() == 0,
            result.speed() == 0,
            result.physics() == FlingParams::standard(),
    {
        ScrollState { offset: 0, velocity: 0, params: FlingParams::default() }
    }

    /// At the top, at rest, with physics of the caller's own.
    pub fn with_params(params: FlingParams) -> (result: Self)
        requires
            0 <= params.max_speed,
            fits(params.max_speed as int),
        ensures
            result.position() == 0,
            result.speed() == 0,
            result.physics() == params,
    {
        ScrollState { offset: 0, velocity: 0, params }
    }

    /// The content-space offset in physical pixels.
    pub fn offset(self) -> (result: Micros)
        ensures
            result == self.position(),
            0 <= result <= FURTHEST,
    {
        proof {
            use_type_invariant(&self);
        }
        self.offset
    }

    /// Physical pixels per second.
    pub fn velocity(self) -> (result: Micros)
        ensures
            result == self.speed(),
            -self.physics().max_speed <= result <= self.physics().max_speed,
    {
        proof {
            use_type_invariant(&self);
        }
        self.velocity
    }

    /// Whether a fling is in progress.
    pub fn is_animating(self) -> (result: bool)
        ensures
            result == (self.speed() != 0),
    {
        self.velocity != 0
    }

    /// Largest valid offset for this content and viewport.
    pub fn max_offset(content_height: u64, viewport_height: u32) -> (result: Micros)
        ensures
            result == furthest_offset(content_height, viewport_height),
            0 <= result <= FURTHEST,
    {
        larger((content_height as i128 - viewport_height as i128) * MICRO, 0)
    }

    /// Jump to an absolute offset, clamped.
    pub fn set_offset(&mut self, offset: Reading, content_height: u64, viewport_height: u32)
        ensures
            final(self).position() == valid_offset(offset, content_height, viewport_height),
            final(self).speed() == old(self).speed(),
            final(self).physics() == old(self).physics(),
    {
        proof {
            use_type_invariant(&*self);
        }
        *self = ScrollState {
            offset: clamp(offset, content_height, viewport_height),
            velocity: self.velocity,
            params: self.params,
        };
    }

    /// Scroll by a delta, cancelling any fling: direct manipulation overrides momentum.
    pub fn scroll_by(&mut self, delta: Reading, content_height: u64, viewport_height: u32)
        ensures
            final(self).position() == match delta {
                Reading::Finite(x) => clamped(
                    old(self).position() + x,
                    0,
                    furthest_offset(content_height, viewport_height),
                ),
                _ => 0,
            },
            final(self).speed() == 0,
            final(self).physics() == old(self).physics(),
    {
        proof {
            use_type_invariant(&*self);
        }
        let target: Reading = match delta {
            Reading::Finite(x) => {
                // Past the length of any content, a longer step goes no further.
                let step: Micros = hold_between(x, -FURTHEST, FURTHEST);
                Reading::Finite(self.offset + step)
            },
            _ => Reading::NotANumber,
        };
        *self = ScrollState {
            offset: clamp(target, content_height, viewport_height),
            velocity: 0,
            params: self.params,
        };
    }

    /// Start a fling at `velocity` physical pixels per second.
    pub fn fling(&mut self, velocity: Reading)
        ensures
            final(self).speed() == match velocity {
                Reading::Finite(x) => clamped(
                    x as int,
                    -old(self).physics().max_speed,
                    old(self).physics().max_speed as int,
                ),
                _ => 0,
            },
            final(self).position() == old(self).position(),
            final(self).physics() == old(self).physics(),
    {
        proof {
            use_type_invariant(&*self);
        }
        let speed: Micros = match velocity {
            Reading::Finite(x) => hold_between(x, -self.params.max_speed, self.params.max_speed),
            _ => 0,
        };
        *self = ScrollState { offset: self.offset, velocity: speed, params: self.params };
    }

    /// Come to rest here.
    pub fn stop(&mut self)
        ensures
            final(self).speed() == 0,
            final(self).position() == old(self).position(),
            final(self).physics() == old(self).physics(),
    {
        proof {
            use_type_invariant(&*self);
        }
        *self = ScrollState { offset: self.offset, velocity: 0, params: self.params };
    }

    /// Advance the fling by `dt` seconds. Returns `true` while still moving.
    ///
    /// `decay` is the fraction of the velocity that is left after `dt`, and `glide` is how
    /// many seconds at the present velocity cover the same distance: the exact integral of
    /// the decay, which makes the distance independent of the frame rate.
    ///
    /// The candidate offset meets the bounds before it is stored, and a bound ends the
    /// fling in the same step.
    pub fn advance(
        &mut self,
        dt: Reading,
        decay: Micros,
        glide: Micros,
        content_height: u64,
        viewport_height: u32,
    ) -> (result: bool)
        requires
            0 <= decay <= MICRO,
            fits(glide as int),
        ensures
            final(self).physics() == old(self).physics(),
            (old(self).speed() == 0 || !(dt matches Reading::Finite(x) && x > 0)) ==> {
                &&& *final(self) == *old(self)
                &&& result == (old(self).speed() != 0)
            },
            (old(self).speed() != 0 && (dt matches Reading::Finite(x) && x > 0)) ==> (
                final(self).position(),
                final(self).speed(),
                result,
            ) == fling_step(
                old(self).position(),
                old(self).speed(),
                old(self).physics().stop_speed as int,
                decay as int,
                glide as int,
                furthest_offset(content_height, viewport_height),
            ),
    {
        proof {
            use_type_invariant(&*self);
        }
        let moves: bool = match dt {
            Reading::Finite(x) => x > 0,
            _ => false,
        };
        if self.velocity == 0 || !moves {
            return self.velocity != 0;
        }
        let max: Micros = Self::max_offset(content_height, viewport_height);
        let params: FlingParams = self.params;
        let travelled: Micros = product(self.velocity, glide);
        proof {
            let v = self.velocity as int;
            let g = glide as int;
            assert(-WIDEST * WIDEST <= v * g <= WIDEST * WIDEST) by (nonlinear_arith)
                requires
                    -WIDEST <= v <= WIDEST,
                    -WIDEST <= g <= WIDEST,
            ;
            assert(WIDEST * WIDEST < 0x4000_0000_0000_0000_0000_0000_0000_0000)
                by (nonlinear_arith);
            times_is_bounded(v, decay as int, 1);
        }
        let candidate: Micros = self.offset + travelled;
        if candidate <= 0 {
            *self = ScrollState { offset: 0, velocity: 0, params };
            return false;
        }
        if candidate >= max {
            *self = ScrollState { offset: max, velocity: 0, params };
            return false;
        }
        let slowed: Micros = product(self.velocity, decay);
        if 0 - slowed < params.stop_speed && slowed < params.stop_speed {
            *self = ScrollState { offset: candidate, velocity: 0, params };
            return false;
        }
        *self = ScrollState { offset: candidate, velocity: slowed, params };
        true
    }

    /// Reposition after the content height changes, keeping the anchor row in view.
    pub fn rebase_for_content_change(
        &mut self,
        anchor_index: u64,
        anchor_viewport_y: Reading,
        heights: &Heights,
        content_height: u64,
        viewport_height: u32,
    )
        requires
            heights is Uniform ==> heights->Uniform_0 * anchor_index <= u64::MAX,
        ensures
            final(self).position() == match anchor_viewport_y {
                Reading::Finite(y) => clamped(
                    heights.top(anchor_index as int) * 1_000_000 - y,
                    0,
                    furthest_offset(content_height, viewport_height),
                ),
                _ => 0,
            },
            final(self).speed() == old(self).speed(),
            final(self).physics() == old(self).physics(),
    {
        proof {
            use_type_invariant(&*self);
        }
        let anchor_top: Micros = heights.offset_of(anchor_index) as i128 * MICRO;
        let target: Reading = match anchor_viewport_y {
            Reading::Finite(y) => Reading::Finite(
                anchor_top - hold_between(y, -FURTHEST, FURTHEST),
            ),
            _ => Reading::NotANumber,
        };
        *self = ScrollState {
            offset: clamp(target, content_height, viewport_height),
            velocity: self.velocity,
            params: self.params,
        };
    }
}

fn clamp(offset: Reading, content_height: u64, viewport_height: u32) -> (result: Micros)
    ensures
        result == valid_offset(offset, content_height, viewport_height),
        0 <= result <= FURTHEST,
{
    match offset {
        Reading::Finite(x) => hold_between(
            x,
            0,
            ScrollState::max_offset(content_height, viewport_height),
        ),
        _ => 0,
    }
}

/// A fling never leaves the content, and one that reports itself finished is at rest.
pub proof fn flings_stay_inside_the_content(
    offset: int,
    velocity: int,
    stop_speed: int,
    decay: int,
    glide: int,
    furthest: int,
)
    requires
        0 <= offset <= furthest,
        stop_speed > 0,
    ensures
        ({
            let (o, v, moving) = fling_step(offset, velocity, stop_speed, decay, glide, furthest);
            &&& 0 <= o <= furthest
            &&& !moving ==> v == 0
            &&& moving ==> v <= -stop_speed || v >= stop_speed
            &&& (o == 0 || o == furthest) ==> v == 0
        }),
{
}

/// A step never speeds a fling up or turns it round, and one that decays at all slows a
/// downward fling.
pub proof fn flings_slow_down(
    offset: int,
    velocity: int,
    stop_speed: int,
    decay: int,
    glide: int,
    furthest: int,
)
    requires
        stop_speed > 0,
        0 <= decay <= 1_000_000,
    ensures
        ({
            let (o, v, moving) = fling_step(offset, velocity, stop_speed, decay, glide, furthest);
            &&& velocity >= 0 ==> 0 <= v <= velocity
            &&& velocity <= 0 ==> velocity <= v <= 0
            &&& velocity > 0 && decay < 1_000_000 ==> v < velocity
        }),
{
    times_is_bounded(velocity, decay, 1);
    if velocity > 0 && decay < 1_000_000 {
        assert(velocity * decay / 1_000_000 < velocity) by (nonlinear_arith)
            requires
                velocity > 0,
                0 <= decay < 1_000_000,
        ;
    }
}

/// How far rounding may set two ways of flinging apart, for a velocity and a glide.
pub open spec fn rounding(velocity: int, glide: int) -> int {
    (magnitude(velocity) + magnitude(glide)) / 1_000_000 + 2
}

/// How large a number is, whichever way it points.
pub open spec fn magnitude(x: int) -> int {
    if x < 0 {
        -x
    } else {
        x
    }
}

/// The distance of a fling does not depend on the frame rate: a step that is taken in two goes as
/// far as the whole of it, but for rounding. What is left after the whole step is what the second
/// part leaves of what the first one left, and its glide is that of the first part and as much of
/// the second's as is left to glide with.
pub proof fn a_split_step_goes_as_far(
    offset: int,
    velocity: int,
    stop_speed: int,
    decay: (int, int),
    glide: (int, int),
    furthest: int,
)
    requires
        ({
            let (o, v, moving) = fling_step(
                offset,
                velocity,
                stop_speed,
                decay.0,
                glide.0,
                furthest,
            );
            &&& moving
            &&& 0 < fling_step(o, v, stop_speed, decay.1, glide.1, furthest).0 < furthest
        }),
        0 < fling_step(
            offset,
            velocity,
            stop_speed,
            times(decay.0, decay.1),
            glide.0 + times(decay.0, glide.1),
            furthest,
        ).0 < furthest,
    ensures
        ({
            let (o, v, _) = fling_step(
                offset,
                velocity,
                stop_speed,
                decay.0,
                glide.0,
                furthest,
            );
            let parts = fling_step(o, v, stop_speed, decay.1, glide.1, furthest).0;
            let whole = fling_step(
                offset,
                velocity,
                stop_speed,
                times(decay.0, decay.1),
                glide.0 + times(decay.0, glide.1),
                furthest,
            ).0;
            magnitude(parts - whole) <= rounding(velocity, glide.1)
        }),
{
    lemma_split_glide(velocity, decay.0, glide.0, glide.1);
}

proof fn lemma_split_glide(v: int, d: int, g: int, h: int)
    ensures
        magnitude(times(v, g) + times(times(v, d), h) - times(v, g + times(d, h))) <= rounding(
            v,
            h,
        ),
{
    let m = 1_000_000int;
    let t = times(d, h);
    let w = times(v, d);
    let p = times(v, g);
    let q = times(w, h);
    let one = times(v, g + t);
    let r0 = d * h - m * t;
    let r1 = v * (g + t) - m * one;
    let r2 = v * g - m * p;
    let r3 = v * d - m * w;
    let r4 = w * h - m * q;
    let apart = one - p - q;
    assert(v * (g + t) == v * g + v * t) by (nonlinear_arith);
    assert(m * apart == v * t + r2 - r1 - (w * h - r4));
    assert(m * (v * t) == v * (d * h) - v * r0) by (nonlinear_arith)
        requires
            r0 == d * h - m * t,
    ;
    assert(m * (w * h) == v * (d * h) - r3 * h) by (nonlinear_arith)
        requires
            r3 == v * d - m * w,
    ;
    assert(m * (m * apart) == m * r2 - v * r0 - m * r1 + r3 * h + m * r4);
    assert(-magnitude(v) * m <= v * r0 <= magnitude(v) * m) by (nonlinear_arith)
        requires
            0 <= r0 < m,
            magnitude(v) == v || magnitude(v) == -v,
            magnitude(v) >= 0,
    ;
    assert(-magnitude(h) * m <= r3 * h <= magnitude(h) * m) by (nonlinear_arith)
        requires
            0 <= r3 < m,
            magnitude(h) == h || magnitude(h) == -h,
            magnitude(h) >= 0,
    ;
    let sum = magnitude(v) + magnitude(h);
    assert(-(sum + 2 * m) * m <= m * (m * apart) <= (sum + 2 * m) * m) by (nonlinear_arith)
        requires
            m == 1_000_000,
            m * (m * apart) == m * r2 - v * r0 - m * r1 + r3 * h + m * r4,
            -magnitude(v) * m <= v * r0 <= magnitude(v) * m,
            -magnitude(h) * m <= r3 * h <= magnitude(h) * m,
            sum == magnitude(v) + magnitude(h),
            0 <= r1 < m,
            0 <= r2 < m,
            0 <= r4 < m,
    ;
    assert(-(sum + 2 * m) <= m * apart <= sum + 2 * m) by (nonlinear_arith)
        requires
            m == 1_000_000,
            -(sum + 2 * m) * m <= m * (m * apart) <= (sum + 2 * m) * m,
    ;
}

/// The visible slice of a corpus.
#[derive(Clone, Copy, PartialEq, Eq, Debug, Structural)]
pub struct VisibleRange {
    /// The first visible row.
    pub first: u64,
    /// How many rows are visible.
    pub count: u32,
}

impl Default for VisibleRange {
    fn default() -> (result: Self)
        ensures
            result == (VisibleRange { first: 0, count: 0 }),
    {
        VisibleRange { first: 0, count: 0 }
    }
}

impl VisibleRange {
    /// One past the last visible row.
    pub fn end(self) -> (result: u64)
        requires
            self.first + self.count <= u64::MAX,
        ensures
            result == self.first + self.count,
    {
        self.first + self.count as u64
    }

    /// The visible rows as a range.
    pub fn as_range(self) -> (result: Range<u64>)
        requires
            self.first + self.count <= u64::MAX,
        ensures
            result.start == self.first,
            result.end == self.first + self.count,
    {
        self.first..self.end()
    }
}

/// The height that a uniform list is divided by: at least a pixel.
pub open spec fn tall(height: u32) -> int {
    if height < 1 {
        1
    } else {
        height as int
    }
}

/// The whole content pixel that an offset is in.
pub open spec fn whole_pixel(offset: int) -> int {
    min_of(max_of(offset, 0) / 1_000_000, u64::MAX as int)
}

/// `first` is the row that content pixel `whole` is in, and `within` is how many whole
/// pixels of that row are above it.
pub open spec fn starts_at(
    heights: Heights,
    whole: int,
    row_count: int,
    first: int,
    within: int,
) -> bool {
    match heights {
        Heights::Uniform(h) => {
            &&& first == min_of(whole / tall(h), max_of(row_count - 1, 0))
            &&& within == whole - first * tall(h)
        },
        Heights::Variable(tree) => {
            &&& tree@.len() == 0 ==> first == 0 && within == 0
            &&& tree@.len() > 0 ==> row_is_at(tree@, whole, first) && within == whole - prefix(
                tree@,
                first,
            )
        },
    }
}

/// Whether the row at an offset is one of the corpus. It always is, unless the heights are those of
/// more rows than there are.
pub open spec fn starts_inside(heights: Heights, offset: int, row_count: u64) -> bool {
    heights matches Heights::Variable(tree) ==> forall|row: int| #[trigger]
        row_is_at(tree@, whole_pixel(offset), row) ==> row < row_count
}

/// The first row from `index` on that starts at or below content pixel `target`, or the end
/// of the corpus.
pub open spec fn first_row_below(
    heights: Heights,
    index: int,
    row_count: int,
    target: int,
) -> int
    decreases row_count - index,
{
    if index < row_count && heights.top(index) < target {
        first_row_below(heights, index + 1, row_count, target)
    } else {
        index
    }
}

/// The quotient rounded up.
pub open spec fn ceil_div(a: int, b: int) -> int {
    (a + b - 1) / b
}

/// How many rows to lay out from `first` on, before the corpus ends: enough to cover the
/// viewport from `within` millionths into the first row, and two more.
pub open spec fn rows_wanted(
    heights: Heights,
    first: int,
    within: int,
    viewport_height: int,
    row_count: int,
) -> int {
    match heights {
        Heights::Uniform(h) => ceil_div(viewport_height, tall(h)) + 2,
        Heights::Variable(_) => first_row_below(
            heights,
            first,
            row_count,
            heights.top(first) + viewport_height + ceil_div(within, 1_000_000),
        ) - first + 2,
    }
}

/// Visible row range, and how much of its first row is clipped.
///
/// A count past what 32 bits hold wraps; no viewport lays out that many rows.
pub fn visible_range(
    offset: Micros,
    viewport_height: u32,
    row_count: u64,
    heights: &Heights,
) -> (result: (VisibleRange, Micros))
    requires
        row_count > 0 && viewport_height > 0 ==> starts_inside(*heights, offset as int, row_count),
    ensures
        result.0.first + result.0.count <= row_count,
        0 <= result.1 < FURTHEST + MICRO,
        row_count == 0 || viewport_height == 0 ==> result == (
            (VisibleRange { first: 0, count: 0 }),
            0 as Micros,
        ),
        row_count > 0 && viewport_height > 0 ==> {
            let within = result.1 as int / 1_000_000;
            &&& result.1 as int % 1_000_000 == max_of(offset as int, 0) % 1_000_000
            &&& starts_at(
                *heights,
                whole_pixel(offset as int),
                row_count as int,
                result.0.first as int,
                within,
            )
            &&& result.0.first < row_count
            &&& result.0.count == min_of(
                rows_wanted(
                    *heights,
                    result.0.first as int,
                    result.1 as int,
                    viewport_height as int,
                    row_count as int,
                ),
                row_count - result.0.first,
            ) as u32
        },
{
    if row_count == 0 || viewport_height == 0 {
        return (VisibleRange { first: 0, count: 0 }, 0);
    }
    let down: Micros = larger(offset, 0);
    let pixels: i128 = down / MICRO;
    let fraction: Micros = down % MICRO;
    let whole: u64 = if pixels > 0xffff_ffff_ffff_ffff {
        0xffff_ffff_ffff_ffff
    } else {
        pixels as u64
    };
    let (first, inside): (u64, u64) = heights.index_at(whole, row_count);
    let within: Micros = inside as i128 * MICRO + fraction;
    proof {
        assert(whole == whole_pixel(offset as int));
        if let Heights::Variable(tree) = heights {
            if tree@.len() > 0 {
                assert(row_is_at(tree@, whole_pixel(offset as int), first as int));
            }
        }
        if let Heights::Uniform(h) = *heights {
            assert(whole as int / tall(h) >= 0) by (nonlinear_arith)
                requires
                    whole >= 0,
                    tall(h) >= 1,
            ;
        }
    }
    let left: u64 = row_count - first;
    let wanted: u64 = match heights {
        Heights::Uniform(h) => {
            let row: u64 = if *h < 1 {
                1
            } else {
                *h as u64
            };
            let rows: u64 = (viewport_height as u64 + (row - 1)) / row;
            proof {
                let v = viewport_height as int;
                let d = row as int;
                assert(0 <= (v + d - 1) / d <= v) by (nonlinear_arith)
                    requires
                        d >= 1,
                        v >= 1,
                ;
            }
            let visible: u64 = rows + 2;
            if visible <= left {
                visible
            } else {
                left
            }
        },
        Heights::Variable(_) => {
            let start: i128 = heights.offset_of(first) as i128;
            let clipped: i128 = (within + (MICRO - 1)) / MICRO;
            let target: i128 = start + viewport_height as i128 + clipped;
            let mut index: u64 = first;
            while index < row_count && (heights.offset_of(index) as i128) < target
                invariant
                    heights is Variable,
                    first <= index <= row_count,
                    first_row_below(*heights, first as int, row_count as int, target as int)
                        == first_row_below(*heights, index as int, row_count as int, target as int),
                decreases row_count - index,
            {
                index = index + 1;
            }
            let rows: u64 = index - first;
            if left - rows <= 2 {
                left
            } else {
                rows + 2
            }
        },
    };
    assert((wanted as u32) <= wanted) by (bit_vector);
    #[verifier::truncate]
    let count: u32 = wanted as u32;
    (VisibleRange { first, count }, within)
}

proof fn lemma_first_row_below(heights: Heights, index: int, row_count: int, target: int)
    requires
        index <= row_count,
    ensures
        ({
            let end = first_row_below(heights, index, row_count, target);
            &&& index <= end <= row_count
            &&& end < row_count ==> heights.top(end) >= target
            &&& forall|i: int| index <= i < end ==> #[trigger] heights.top(i) < target
        }),
    decreases row_count - index,
{
    if index < row_count && heights.top(index) < target {
        lemma_first_row_below(heights, index + 1, row_count, target);
    }
}

/// The row that is found below a target starts there or further down. Looking for it never goes
/// back, and never past the corpus.
pub proof fn first_row_below_is_below(heights: Heights, index: int, row_count: int, target: int)
    requires
        index <= row_count,
    ensures
        ({
            let found = first_row_below(heights, index, row_count, target);
            index <= found <= row_count && (found < row_count ==> heights.top(found) >= target)
        }),
{
    lemma_first_row_below(heights, index, row_count, target);
}

/// In a uniform list at most one more row is laid out than the whole rows that fit in the
/// viewport and two.
pub proof fn uniform_rows_are_bounded(
    height: u32,
    first: int,
    within: int,
    viewport_height: int,
    row_count: int,
)
    requires
        viewport_height >= 0,
    ensures
        rows_wanted(Heights::Uniform(height), first, within, viewport_height, row_count)
            <= viewport_height / tall(height) + 3,
{
    let v = viewport_height;
    let d = tall(height);
    assert((v + d - 1) / d <= v / d + 1) by (nonlinear_arith)
        requires
            d >= 1,
            v >= 0,
    ;
}

proof fn lemma_steps(h: Seq<u32>, m: int, a: int, b: int)
    requires
        0 <= a <= b <= h.len(),
        forall|i: int| 0 <= i < h.len() ==> m <= #[trigger] h[i],
    ensures
        prefix(h, b) - prefix(h, a) >= (b - a) * m,
    decreases b - a,
{
    if a < b {
        lemma_steps(h, m, a, b - 1);
        assert((b - a) * m == (b - 1 - a) * m + m) by (nonlinear_arith);
    } else {
        assert((b - a) * m == 0) by (nonlinear_arith)
            requires
                b - a == 0,
        ;
    }
}

/// With heights of their own the rows are bounded by the shortest of them: at most two more
/// are laid out than fit in the viewport and two. Rows without any height are left out,
/// since any number of those fits.
pub proof fn variable_rows_are_bounded(
    heights: Heights,
    first: int,
    within: int,
    viewport_height: int,
    row_count: int,
    shortest: int,
)
    requires
        heights matches Heights::Variable(tree) && {
            &&& tree@.len() == row_count
            &&& 0 <= first < row_count
            &&& 0 <= within <= tree@[first] * 1_000_000
            &&& forall|i: int| 0 <= i < tree@.len() ==> shortest <= #[trigger] tree@[i]
        },
        shortest >= 1,
        viewport_height >= 0,
    ensures
        rows_wanted(heights, first, within, viewport_height, row_count) <= viewport_height
            / shortest + 4,
{
    let h = heights->Variable_0@;
    let v = viewport_height;
    let clipped = ceil_div(within, 1_000_000);
    let target = heights.top(first) + v + clipped;
    let end = first_row_below(heights, first, row_count, target);
    lemma_first_row_below(heights, first, row_count, target);
    if end > first + 1 {
        let last = end - 1;
        assert(heights.top(last) < target);
        lemma_steps(h, shortest, first + 1, last);
        assert(prefix(h, first + 1) == prefix(h, first) + h[first]);
        assert(clipped <= h[first]);
        let k = last - (first + 1);
        assert(k * shortest < v);
        assert(k <= v / shortest) by (nonlinear_arith)
            requires
                k * shortest < v,
                shortest >= 1,
        ;
    } else {
        assert(v / shortest >= 0) by (nonlinear_arith)
            requires
                v >= 0,
                shortest >= 1,
        ;
    }
}

/// The rows laid out reach past the bottom edge of the viewport, or to the end of the
/// corpus: no gap is left, whichever way the heights are given.
pub proof fn the_viewport_is_covered(
    heights: Heights,
    whole: int,
    row_count: int,
    first: int,
    within: int,
    viewport_height: int,
)
    requires
        whole >= 0,
        viewport_height > 0,
        within >= 0,
        0 <= first < row_count,
        starts_at(heights, whole, row_count, first, within / 1_000_000),
        heights matches Heights::Variable(tree) ==> tree@.len() == row_count,
        heights matches Heights::Uniform(h) ==> h >= 1,
    ensures
        ({
            let rows = rows_wanted(heights, first, within, viewport_height, row_count);
            first + rows < row_count ==> heights.top(first + rows) * 1_000_000 >= heights.top(first)
                * 1_000_000 + within + viewport_height * 1_000_000
        }),
{
    let rows = rows_wanted(heights, first, within, viewport_height, row_count);
    let v = viewport_height;
    match heights {
        Heights::Uniform(h) => {
            let d = h as int;
            let q = ceil_div(v, d);
            assert(q * d >= v) by (nonlinear_arith)
                requires
                    q == (v + d - 1) / d,
                    d >= 1,
            ;
            if first + rows < row_count {
                assert(first == whole / d);
                assert(whole - (whole / d) * d < d) by (nonlinear_arith)
                    requires
                        d >= 1,
                ;
                assert(h * (first + rows) == d * first + d * q + 2 * d) by (nonlinear_arith)
                    requires
                        rows == q + 2,
                        d == h,
                ;
                assert(d * q == q * d) by (nonlinear_arith);
            }
        },
        Heights::Variable(tree) => {
            let target = heights.top(first) + v + ceil_div(within, 1_000_000);
            let end = first_row_below(heights, first, row_count, target);
            lemma_first_row_below(heights, first, row_count, target);
            if first + rows < row_count {
                crate::fenwick::prefix_is_monotone(tree@, end, end + 2);
            }
        },
    }
}

/// A list of equal heights starts at the same row and the same offset into it, whether its
/// heights are given once or row by row.
pub proof fn both_ways_start_alike(
    height: u32,
    tree: std::sync::Arc<crate::fenwick::Fenwick>,
    whole: int,
    row_count: int,
    first: int,
    within: int,
    other_first: int,
    other_within: int,
)
    requires
        height >= 1,
        row_count >= 1,
        whole >= 0,
        tree@ == crate::fenwick::uniform(height, row_count as nat),
        starts_at(Heights::Uniform(height), whole, row_count, first, within),
        starts_at(Heights::Variable(tree), whole, row_count, other_first, other_within),
    ensures
        first == other_first,
        within == other_within,
{
    crate::fenwick::uniform_agrees_with_the_tree(height, row_count as nat, whole);
    crate::fenwick::row_at_is_unique(tree@, whole, first, other_first);
    assert(height * first == first * height) by (nonlinear_arith);
}

/// Repositioning on an anchor row keeps it first, and as far clipped as it was, when the
/// content grows under it: the new offset is the row's top edge and the clipped part, as it
/// was before.
pub proof fn growing_content_keeps_the_anchor(
    heights: Heights,
    offset: int,
    first: int,
    within: int,
    row_count: int,
    content_height: u64,
    viewport_height: u32,
)
    requires
        0 <= offset <= furthest_offset(content_height, viewport_height),
        within >= 0,
        starts_at(heights, whole_pixel(offset), row_count, first, within / 1_000_000),
        within % 1_000_000 == offset % 1_000_000,
        offset < FURTHEST,
        heights matches Heights::Uniform(h) ==> h >= 1 && row_count >= 1,
        heights matches Heights::Variable(tree) ==> tree@.len() >= 1,
    ensures
        clamped(
            heights.top(first) * 1_000_000 + within,
            0,
            furthest_offset(content_height, viewport_height),
        ) == offset,
{
    match heights {
        Heights::Uniform(h) => {
            assert(h * first == first * h) by (nonlinear_arith);
        },
        Heights::Variable(tree) => {},
    }
}

/// Convert a content position to viewport-relative coordinates, which stay small however
/// long the list is.
pub fn rebase_to_viewport(content_y: Micros, scroll_offset: Micros) -> (result: Micros)
    requires
        i128::MIN <= content_y - scroll_offset <= i128::MAX,
    ensures
        result == content_y - scroll_offset,
{
    content_y - scroll_offset
}

/// At the furthest offset the bottom of the content is at the bottom of the viewport. Content that fits
/// does not scroll.
pub proof fn the_furthest_offset_shows_the_end(content_height: u64, viewport_height: u32)
    ensures
        content_height >= viewport_height ==> furthest_offset(content_height, viewport_height)
            + viewport_height * 1_000_000 == content_height * 1_000_000,
        content_height <= viewport_height ==> furthest_offset(content_height, viewport_height) == 0,
{
}

/// An offset that is inside the content stays as it is. One that is outside is the end it is past, and one
/// that is no number is the top. Making an offset valid twice changes nothing more.
pub proof fn a_valid_offset_stays(x: Micros, content_height: u64, viewport_height: u32)
    ensures
        ({
            let most = furthest_offset(content_height, viewport_height);
            let valid = valid_offset(Reading::Finite(x), content_height, viewport_height);
            &&& 0 <= valid <= most
            &&& 0 <= x <= most ==> valid == x
            &&& x < 0 ==> valid == 0
            &&& x > most ==> valid == most
            &&& valid_offset(Reading::NotANumber, content_height, viewport_height) == 0
            &&& valid_offset(Reading::Infinite, content_height, viewport_height) == 0
            &&& valid_offset(Reading::NegativeInfinite, content_height, viewport_height) == 0
        }),
{
}

/// Inside the content a step moves a fling as far as its velocity takes it in the time it glides, to the
/// rounding, and leaves it the part of its velocity that has not decayed. It ends where it meets an
/// end of the content, and where what is left is slower than the stop speed.
pub proof fn a_step_goes_as_far_as_the_velocity_takes_it(
    offset: int,
    velocity: int,
    stop_speed: int,
    decay: int,
    glide: int,
    furthest: int,
)
    requires
        0 <= offset <= furthest,
        stop_speed > 0,
    ensures
        ({
            let (o, v, moving) = fling_step(offset, velocity, stop_speed, decay, glide, furthest);
            &&& 0 < o < furthest ==> 0 <= velocity * glide - (o - offset) * 1_000_000 < 1_000_000
            &&& moving ==> 0 < o < furthest
            &&& moving ==> 0 <= velocity * decay - v * 1_000_000 < 1_000_000
            &&& 0 < o < furthest && (velocity * decay >= stop_speed * 1_000_000 || velocity * decay
                <= -stop_speed * 1_000_000) ==> moving
            &&& o == furthest && furthest > 0 ==> velocity * glide >= (furthest - offset) * 1_000_000
            &&& o == 0 && furthest > 0 ==> velocity * glide < (1 - offset) * 1_000_000
        }),
{
}

/// The first row that is laid out is the one that the top edge of the viewport is in: it starts at or above
/// the offset and ends below it, and as much of it is above the edge as the offset is past its top.
/// Past the end of the content it is the last row.
pub proof fn the_first_row_is_at_the_top_edge(
    heights: Heights,
    offset: int,
    row_count: int,
    first: int,
    within: int,
)
    requires
        0 <= offset,
        offset / 1_000_000 <= u64::MAX,
        row_count >= 1,
        starts_at(heights, whole_pixel(offset), row_count, first, within),
        heights matches Heights::Variable(tree) ==> tree@.len() == row_count,
        heights matches Heights::Uniform(h) ==> h >= 1,
    ensures
        0 <= first < row_count,
        heights.top(first) * 1_000_000 <= offset,
        heights.top(first) + within == offset / 1_000_000,
        first + 1 < row_count ==> offset < heights.top(first + 1) * 1_000_000,
{
    let whole = whole_pixel(offset);
    match heights {
        Heights::Uniform(h) => {
            let d = h as int;
            let q = whole / d;
            assert(0 <= q && q * d <= whole < (q + 1) * d) by (nonlinear_arith)
                requires
                    q == whole / d,
                    d >= 1,
                    whole >= 0,
            ;
            assert(h * first == first * d) by (nonlinear_arith)
                requires
                    d == h,
            ;
            assert(h * (first + 1) == (first + 1) * d) by (nonlinear_arith)
                requires
                    d == h,
            ;
            assert(first * d <= q * d) by (nonlinear_arith)
                requires
                    first <= q,
                    d >= 1,
            ;
        },
        Heights::Variable(tree) => {},
    }
}

/// Two rows more are wanted than the viewport is tall, and no more than that: of rows that are alike as
/// many as fill it, and of others as many as start before its lower edge.
pub proof fn two_rows_more_than_fill_the_viewport(
    heights: Heights,
    first: int,
    within: int,
    viewport_height: int,
    row_count: int,
)
    requires
        viewport_height >= 0,
        within >= 0,
        first <= row_count,
    ensures
        ({
            let rows = rows_wanted(heights, first, within, viewport_height, row_count);
            match heights {
                Heights::Uniform(h) => {
                    let each = if h < 1 {
                        1
                    } else {
                        h as int
                    };
                    &&& (rows - 2) * each >= viewport_height
                    &&& (rows - 3) * each < viewport_height
                },
                Heights::Variable(_) => {
                    let edge = heights.top(first) * 1_000_000 + within + viewport_height
                        * 1_000_000;
                    let next = first + rows - 2;
                    &&& first <= next <= row_count
                    &&& next < row_count ==> heights.top(next) * 1_000_000 >= edge
                    &&& forall|row: int|
                        first <= row < next ==> (#[trigger] heights.top(row)) * 1_000_000 < edge
                },
            }
        }),
{
    match heights {
        Heights::Uniform(h) => {
            let each = tall(h);
            let n = viewport_height + each - 1;
            let q = n / each;
            assert(q * each <= n < q * each + each) by (nonlinear_arith)
                requires
                    q == n / each,
                    each >= 1,
            ;
            assert((q - 1) * each == q * each - each) by (nonlinear_arith);
        },
        Heights::Variable(_) => {
            let target = heights.top(first) + viewport_height + ceil_div(within, 1_000_000);
            first_row_below_is_below(heights, first, row_count, target);
            lemma_rows_before_are_above(heights, first, row_count, target);
        },
    }
}

proof fn lemma_rows_before_are_above(heights: Heights, index: int, row_count: int, target: int)
    ensures
        forall|row: int|
            index <= row < first_row_below(heights, index, row_count, target)
                ==> #[trigger] heights.top(row) < target,
    decreases row_count - index,
{
    if index < row_count && heights.top(index) < target {
        lemma_rows_before_are_above(heights, index + 1, row_count, target);
    }
}

} // verus!
