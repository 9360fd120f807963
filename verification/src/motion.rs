//! Animation plans, timing and reduced-motion behaviour.
//!
//! Callers choose the curve and the kind of motion. Reduced motion makes layout changes
//! instant and caps fades at 80 milliseconds; scrolling that the user directs keeps its
//! momentum. An instant plan opens no animation, so that the frame loop sleeps when nothing
//! changes.

use crate::density::{ease_out_cubic, eased, progressed, Density, DensityTransition};
use crate::material::Drive;
use crate::row::Interaction;
use crate::units::{
    clamped, fits, hold_between, is_root, larger, max_of, min_of, product, smaller, square_root,
    times, times_is_bounded, Micros, Reading, MICRO, WIDEST,
};
use vstd::prelude::*;
use vstd::std_specs::cmp::PartialEqSpec;

verus! {

/// The user's motion preference, as the platform reports it.
#[derive(Clone, Copy, PartialEq, Eq, Debug, Default, Structural)]
pub enum MotionPreference {
    /// Every animation plays.
    #[default]
    Full,
    /// Nothing moves that the user did not move.
    Reduced,
}

/// Longest fade under reduced motion, in seconds.
pub const REDUCED_CROSSFADE: Micros = 80_000;

/// Length of one material cycle, in seconds of active animation time.
pub const CYCLE_SECONDS: Micros = 6_000_000;

/// Where the cycle sits under reduced motion: the angle that a layer was authored with.
pub const PINNED_PHASE: Micros = 0;

/// How long any pattern takes at most, in seconds.
pub const LONGEST_MOVE: Micros = 260_000;

/// What kind of change is being animated. It decides what reduced motion does to it.
#[derive(Clone, Copy, PartialEq, Eq, Debug, Structural)]
pub enum MotionKind {
    /// Geometry that the application changed on its own.
    Layout,
    /// Colour and opacity only.
    Fade,
    /// Scroll momentum.
    UserDirectedScroll,
}

/// Transition curve of an animation plan.
#[derive(Clone, Copy, PartialEq, Eq, Debug, Structural)]
pub enum Curve {
    /// Fast start, settled finish.
    EaseOut,
    /// Overshoots slightly, then converges.
    Spring,
}

/// Where a curve is at linear time `t`; `spring` is the damped oscillation at that time,
/// which only the spring reads.
pub open spec fn curve_at(curve: Curve, t: int, spring: int) -> int {
    match curve {
        Curve::EaseOut => eased(t),
        Curve::Spring => if t >= 1_000_000 {
            1_000_000
        } else {
            spring
        },
    }
}

impl Curve {
    /// Map linear time to eased progress. `spring` is where the damped oscillation is at
    /// that time.
    pub fn apply(self, t: Micros, spring: Micros) -> (result: Micros)
        ensures
            result == curve_at(self, t as int, spring as int),
    {
        match self {
            Curve::EaseOut => ease_out_cubic(t),
            Curve::Spring => if t >= MICRO {
                MICRO
            } else {
                spring
            },
        }
    }
}

/// How a change should be presented.
#[derive(Clone, Copy, PartialEq, Eq, Debug, Structural)]
pub enum MotionPlan {
    /// Jump straight to the end state.
    Instant,
    /// Animate over this many seconds.
    Animate {
        /// How long it takes.
        duration: Micros,
        /// How it moves.
        curve: Curve,
    },
}

impl MotionPlan {
    /// How long the plan takes.
    pub open spec fn length(self) -> int {
        match self {
            MotionPlan::Instant => 0,
            MotionPlan::Animate { duration, .. } => duration as int,
        }
    }

    /// Whether the plan overshoots.
    pub open spec fn springs(self) -> bool {
        self matches MotionPlan::Animate { curve, .. } && curve == Curve::Spring
    }

    /// How long the plan takes, in seconds.
    pub fn duration(self) -> (result: Micros)
        ensures
            result == self.length(),
    {
        match self {
            MotionPlan::Instant => 0,
            MotionPlan::Animate { duration, .. } => duration,
        }
    }

    /// Whether the plan jumps.
    pub fn is_instant(self) -> (result: bool)
        ensures
            result == (self is Instant),
    {
        match self {
            MotionPlan::Instant => true,
            MotionPlan::Animate { .. } => false,
        }
    }

    /// Whether the plan overshoots.
    pub fn uses_spring(self) -> (result: bool)
        ensures
            result == self.springs(),
    {
        match self {
            MotionPlan::Animate { curve: Curve::Spring, .. } => true,
            _ => false,
        }
    }
}

/// Named interaction patterns, with their durations, curves and kinds.
#[derive(Clone, Copy, PartialEq, Eq, Debug, Structural)]
pub enum MotionPattern {
    /// The pointer enters or leaves a row, or is let go on one.
    HoverFeedback,
    /// The pointer goes down on a row.
    PressFeedback,
    /// The selection region moves to a different row.
    SelectionChange,
    /// Row heights change because the density changed.
    DensityChange,
    /// The focus lamp moves to another row.
    FocusLight,
    /// A session starts waiting for approval.
    SummonsArrival,
}

/// How long a move of `distance` takes: `shortest` for none, `longest` from `span` on, and
/// in between in proportion to `root`, the square root of the fraction of the span.
pub open spec fn scaled_duration(shortest: int, longest: int, root: int) -> int {
    shortest + times(longest - shortest, root)
}

/// `result` is how long a move of `distance` takes.
pub open spec fn is_duration_for(
    distance: Reading,
    span: Reading,
    shortest: int,
    longest: int,
    result: int,
) -> bool {
    match (distance, span) {
        (Reading::Finite(d), Reading::Finite(s)) => if d <= 0 || s <= 0 {
            result == shortest
        } else {
            exists|root: int|
                {
                    &&& #[trigger] is_root(
                        clamped(d * 1_000_000 / s as int, 0, 1_000_000) * 1_000_000,
                        root,
                    )
                    &&& result == scaled_duration(shortest, longest, root)
                }
        },
        _ => result == shortest,
    }
}

impl MotionPattern {
    /// The shortest duration and the span of a pattern that scales with distance.
    pub open spec fn scaling(self) -> Option<(Micros, Micros)> {
        match self {
            MotionPattern::SelectionChange => Some((45_000, 16_000_000)),
            MotionPattern::FocusLight => Some((70_000, 16_000_000)),
            _ => None,
        }
    }

    /// How long the pattern takes at most.
    pub open spec fn full_length(self) -> int {
        match self {
            MotionPattern::HoverFeedback => 80_000,
            MotionPattern::PressFeedback => 40_000,
            MotionPattern::SelectionChange => 120_000,
            MotionPattern::DensityChange => DensityTransition::DURATION as int,
            MotionPattern::FocusLight => 180_000,
            MotionPattern::SummonsArrival => 260_000,
        }
    }

    /// What kind of motion the pattern is.
    pub open spec fn nature(self) -> MotionKind {
        match self {
            MotionPattern::HoverFeedback => MotionKind::Fade,
            MotionPattern::PressFeedback => MotionKind::Fade,
            _ => MotionKind::Layout,
        }
    }

    /// Every pattern.
    pub fn all() -> (result: [MotionPattern; 6])
        ensures
            result@ == seq![
                MotionPattern::HoverFeedback,
                MotionPattern::PressFeedback,
                MotionPattern::SelectionChange,
                MotionPattern::DensityChange,
                MotionPattern::FocusLight,
                MotionPattern::SummonsArrival,
            ],
            forall|p: MotionPattern| #[trigger] result@.contains(p),
    {
        let result: [MotionPattern; 6] = [
            MotionPattern::HoverFeedback,
            MotionPattern::PressFeedback,
            MotionPattern::SelectionChange,
            MotionPattern::DensityChange,
            MotionPattern::FocusLight,
            MotionPattern::SummonsArrival,
        ];
        proof {
            assert forall|p: MotionPattern| #[trigger] result@.contains(p) by {
                assert(result@[0] == MotionPattern::HoverFeedback);
                assert(result@[1] == MotionPattern::PressFeedback);
                assert(result@[2] == MotionPattern::SelectionChange);
                assert(result@[3] == MotionPattern::DensityChange);
                assert(result@[4] == MotionPattern::FocusLight);
                assert(result@[5] == MotionPattern::SummonsArrival);
            }
        }
        result
    }

    /// The shortest duration and the span of a pattern that scales with distance, or `None`
    /// for one with no distance to scale by: a fade is the same fade wherever it happens.
    pub fn distance_scaling(self) -> (result: Option<(Micros, Micros)>)
        ensures
            result == self.scaling(),
    {
        match self {
            MotionPattern::SelectionChange => Some((45_000, 16_000_000)),
            MotionPattern::FocusLight => Some((70_000, 16_000_000)),
            _ => None,
        }
    }

    /// Duration in seconds under full motion; for a pattern that scales, the longest.
    pub fn duration(self) -> (result: Micros)
        ensures
            result == self.full_length(),
            0 < result <= 260_000,
    {
        match self {
            MotionPattern::HoverFeedback => 80_000,
            MotionPattern::PressFeedback => 40_000,
            MotionPattern::SelectionChange => 120_000,
            MotionPattern::DensityChange => DensityTransition::DURATION,
            MotionPattern::FocusLight => 180_000,
            MotionPattern::SummonsArrival => 260_000,
        }
    }

    /// Transition curve of the pattern.
    pub fn curve(self) -> (result: Curve)
        ensures
            result == Curve::EaseOut,
    {
        Curve::EaseOut
    }

    /// What reduced motion goes by.
    pub fn kind(self) -> (result: MotionKind)
        ensures
            result == self.nature(),
    {
        match self {
            MotionPattern::HoverFeedback => MotionKind::Fade,
            MotionPattern::PressFeedback => MotionKind::Fade,
            _ => MotionKind::Layout,
        }
    }

    /// Resolve this pattern against a preference, at its full duration.
    pub fn plan(self, preference: MotionPreference) -> (result: MotionPlan)
        ensures
            result == planned(preference, self.nature(), self.full_length(), Curve::EaseOut),
    {
        plan(preference, self.kind(), self.duration(), self.curve())
    }

    /// Resolve this pattern for a move of `distance`, in the pattern's own units. A pattern
    /// that does not scale ignores it.
    pub fn plan_over(self, preference: MotionPreference, distance: Reading) -> (result: MotionPlan)
        ensures
            exists|length: int|
                {
                    &&& #[trigger] self.takes(distance, length)
                    &&& result == planned(preference, self.nature(), length, Curve::EaseOut)
                    &&& 0 < length <= self.full_length()
                },
    {
        let duration: Micros = match self.distance_scaling() {
            Some((shortest, span)) => duration_for(
                distance,
                Reading::Finite(span),
                shortest,
                self.duration(),
            ),
            None => self.duration(),
        };
        assert(self.takes(distance, duration as int));
        plan(preference, self.kind(), duration, self.curve())
    }

    /// `length` is how long this pattern takes over `distance`, under full motion.
    pub open spec fn takes(self, distance: Reading, length: int) -> bool {
        match self.scaling() {
            Some((shortest, span)) => is_duration_for(
                distance,
                Reading::Finite(span),
                shortest as int,
                self.full_length(),
                length,
            ),
            None => length == self.full_length(),
        }
    }
}

/// Scale a duration from `shortest` to `longest` with the square root of the distance.
///
/// Moves of at least `span` take `longest`. A distance or a span that is not a positive
/// finite number takes `shortest`.
pub fn duration_for(
    distance: Reading,
    span: Reading,
    shortest: Micros,
    longest: Micros,
) -> (result: Micros)
    requires
        fits(shortest as int),
        fits(longest - shortest),
        span matches Reading::Finite(s) ==> fits(s as int),
    ensures
        is_duration_for(distance, span, shortest as int, longest as int, result as int),
        shortest <= longest ==> shortest <= result <= longest,
        longest <= shortest ==> longest <= result <= shortest,
{
    match (distance, span) {
        (Reading::Finite(d), Reading::Finite(s)) => {
            if d <= 0 || s <= 0 {
                return shortest;
            }
            proof {
                let dd = d as int;
                let ss = s as int;
                assert(dd >= ss ==> dd * 1_000_000 / ss >= 1_000_000) by (nonlinear_arith)
                    requires
                        ss > 0,
                ;
                assert(0 < dd < ss ==> 0 <= dd * 1_000_000 / ss < 1_000_000) by (nonlinear_arith)
                    requires
                        ss > 0,
                ;
            }
            let fraction: Micros = if d >= s {
                MICRO
            } else {
                d * MICRO / s
            };
            let root: Micros = square_root(fraction * MICRO);
            proof {
                times_is_bounded(longest - shortest, root as int, 1);
                assert(is_root(
                    clamped(d * 1_000_000 / s as int, 0, 1_000_000) * 1_000_000,
                    root as int,
                ));
            }
            shortest + product(longest - shortest, root)
        },
        _ => shortest,
    }
}

/// How a change is presented.
pub open spec fn planned(
    preference: MotionPreference,
    kind: MotionKind,
    full_duration: int,
    curve: Curve,
) -> MotionPlan {
    let kept = if preference == MotionPreference::Reduced {
        Curve::EaseOut
    } else {
        curve
    };
    if kind == MotionKind::UserDirectedScroll || preference == MotionPreference::Full {
        MotionPlan::Animate { duration: full_duration as Micros, curve: kept }
    } else if kind == MotionKind::Layout {
        MotionPlan::Instant
    } else {
        MotionPlan::Animate {
            duration: min_of(full_duration, REDUCED_CROSSFADE as int) as Micros,
            curve: kept,
        }
    }
}

/// Decide how to present a change.
pub fn plan(
    preference: MotionPreference,
    kind: MotionKind,
    full_duration: Micros,
    curve: Curve,
) -> (result: MotionPlan)
    ensures
        result == planned(preference, kind, full_duration as int, curve),
{
    let kept: Curve = match preference {
        MotionPreference::Full => curve,
        MotionPreference::Reduced => Curve::EaseOut,
    };
    match (preference, kind) {
        (_, MotionKind::UserDirectedScroll) => MotionPlan::Animate {
            duration: full_duration,
            curve: kept,
        },
        (MotionPreference::Full, _) => MotionPlan::Animate { duration: full_duration, curve: kept },
        (MotionPreference::Reduced, MotionKind::Layout) => MotionPlan::Instant,
        (MotionPreference::Reduced, MotionKind::Fade) => MotionPlan::Animate {
            duration: smaller(full_duration, REDUCED_CROSSFADE),
            curve: kept,
        },
    }
}

/// No plan under reduced motion overshoots, whatever was asked for.
pub proof fn reduced_motion_never_springs(kind: MotionKind, duration: int, curve: Curve)
    ensures
        !planned(MotionPreference::Reduced, kind, duration, curve).springs(),
{
}

/// Under reduced motion a change that the user does not direct is instant, or a fade of at
/// most 80 milliseconds that is no longer than it was.
pub proof fn reduced_motion_is_instant_or_short(kind: MotionKind, duration: Micros, curve: Curve)
    requires
        kind != MotionKind::UserDirectedScroll,
    ensures
        ({
            let plan = planned(MotionPreference::Reduced, kind, duration as int, curve);
            plan is Instant || plan.length() <= REDUCED_CROSSFADE && plan.length() <= duration
        }),
{
}

/// Reduced motion never shortens a scroll that the user directs.
pub proof fn directed_scrolling_keeps_its_length(
    preference: MotionPreference,
    duration: Micros,
    curve: Curve,
)
    ensures
        planned(preference, MotionKind::UserDirectedScroll, duration as int, curve).length()
            == duration,
        planned(
            preference,
            MotionKind::UserDirectedScroll,
            duration as int,
            curve,
        ) is Animate,
{
}

/// A longer move never takes less time.
pub proof fn longer_moves_take_no_less(
    span: Micros,
    a: Micros,
    b: Micros,
    shortest: int,
    longest: int,
    time_a: int,
    time_b: int,
)
    requires
        span > 0,
        a <= b,
        shortest <= longest,
        is_duration_for(Reading::Finite(a), Reading::Finite(span), shortest, longest, time_a),
        is_duration_for(Reading::Finite(b), Reading::Finite(span), shortest, longest, time_b),
    ensures
        time_a <= time_b,
{
    let s = span as int;
    if b > 0 {
        let rb = choose|root: int|
            {
                &&& #[trigger] is_root(clamped(b * 1_000_000 / s, 0, 1_000_000) * 1_000_000, root)
                &&& time_b == scaled_duration(shortest, longest, root)
            };
        assert(0 <= (longest - shortest) * rb) by (nonlinear_arith)
            requires
                shortest <= longest,
                rb >= 0,
        ;
        if a > 0 {
            let ra = choose|root: int|
                {
                    &&& #[trigger] is_root(
                        clamped(a * 1_000_000 / s, 0, 1_000_000) * 1_000_000,
                        root,
                    )
                    &&& time_a == scaled_duration(shortest, longest, root)
                };
            assert(a * 1_000_000 / s <= b * 1_000_000 / s) by (nonlinear_arith)
                requires
                    a <= b,
                    s > 0,
            ;
            assert(ra <= rb) by (nonlinear_arith)
                requires
                    ra >= 0,
                    rb >= 0,
                    ra * ra < (rb + 1) * (rb + 1),
            ;
            assert((longest - shortest) * ra <= (longest - shortest) * rb) by (nonlinear_arith)
                requires
                    shortest <= longest,
                    ra <= rb,
            ;
        }
    }
}

/// A move of the whole span or more takes exactly the longest time.
pub proof fn a_full_span_takes_the_longest(
    span: Micros,
    distance: Micros,
    shortest: int,
    longest: int,
    time: int,
)
    requires
        0 < span <= distance,
        is_duration_for(Reading::Finite(distance), Reading::Finite(span), shortest, longest, time),
    ensures
        time == longest,
{
    let s = span as int;
    let d = distance as int;
    assert(d * 1_000_000 / s >= 1_000_000) by (nonlinear_arith)
        requires
            0 < s <= d,
    ;
    let root = choose|root: int|
        {
            &&& #[trigger] is_root(clamped(d * 1_000_000 / s, 0, 1_000_000) * 1_000_000, root)
            &&& time == scaled_duration(shortest, longest, root)
        };
    assert(root == 1_000_000) by (nonlinear_arith)
        requires
            root >= 0,
            root * root <= 1_000_000_000_000 < (root + 1) * (root + 1),
    ;
}

/// A running animation ticket. The frame loop stays awake while one is live.
#[derive(Clone, Copy, PartialEq, Eq, Debug)]
pub struct Animation {
    elapsed: Micros,
    plan: MotionPlan,
}

/// Time that has passed after `dt` more: time never runs back, and it stops counting after
/// some thirty thousand years.
pub open spec fn passed(elapsed: int, dt: int) -> int {
    min_of(elapsed + max_of(dt, 0), WIDEST as int)
}

impl Animation {
    #[verifier::type_invariant]
    spec fn well_formed(self) -> bool {
        &&& 0 <= self.elapsed <= WIDEST
        &&& fits(self.plan.length())
    }

    /// Seconds since it started.
    pub closed spec fn age(self) -> int {
        self.elapsed as int
    }

    /// What it plays.
    pub closed spec fn playing(self) -> MotionPlan {
        self.plan
    }

    /// How much of its time has passed, from zero to one.
    pub open spec fn linear(self) -> int {
        clamped(self.age() * 1_000_000 / self.playing().length(), 0, 1_000_000)
    }

    /// How far along it is; `spring` is where the damped oscillation is.
    pub open spec fn reached(self, spring: int) -> int {
        if self.playing().length() <= 0 {
            1_000_000
        } else {
            match self.playing() {
                MotionPlan::Instant => 1_000_000,
                MotionPlan::Animate { curve, .. } => curve_at(curve, self.linear(), spring),
            }
        }
    }

    /// A ticket that has just been opened.
    pub fn new(plan: MotionPlan) -> (result: Self)
        requires
            fits(plan.length()),
        ensures
            result.age() == 0,
            result.playing() == plan,
    {
        Animation { elapsed: 0, plan }
    }

    /// Advance by `dt` seconds. Returns `true` while still running.
    pub fn advance(&mut self, dt: Micros) -> (result: bool)
        requires
            fits(dt as int),
        ensures
            final(self).playing() == old(self).playing(),
            old(self).playing() is Instant ==> !result && *final(self) == *old(self),
            old(self).playing() is Animate ==> {
                &&& final(self).age() == passed(old(self).age(), dt as int)
                &&& result == (final(self).age() < old(self).playing().length())
            },
    {
        proof {
            use_type_invariant(&*self);
        }
        if self.plan.is_instant() {
            return false;
        }
        let elapsed: Micros = smaller(self.elapsed + larger(dt, 0), WIDEST);
        *self = Animation { elapsed, plan: self.plan };
        elapsed < self.plan.duration()
    }

    /// How much of its time has passed, from zero to one: the time at which a spring's
    /// oscillation is wanted.
    pub fn time(self) -> (result: Micros)
        ensures
            result == if self.playing().length() <= 0 {
                1_000_000
            } else {
                self.linear()
            },
    {
        proof {
            use_type_invariant(&self);
        }
        let duration: Micros = self.plan.duration();
        if duration <= 0 {
            return MICRO;
        }
        proof {
            assert(0 <= self.elapsed * 1_000_000 <= WIDEST * 1_000_000);
        }
        hold_between(self.elapsed * MICRO / duration, 0, MICRO)
    }

    /// Eased progress: `spring` is where the damped oscillation is at this moment, which
    /// only a spring reads.
    pub fn progress(self, spring: Micros) -> (result: Micros)
        ensures
            result == self.reached(spring as int),
    {
        if self.plan.duration() <= 0 {
            return MICRO;
        }
        match self.plan {
            MotionPlan::Instant => MICRO,
            MotionPlan::Animate { curve, .. } => curve.apply(self.time(), spring),
        }
    }

    /// Whether it has arrived.
    pub fn is_complete(self, spring: Micros) -> (result: bool)
        ensures
            result == (self.reached(spring as int) >= MICRO),
    {
        self.progress(spring) >= MICRO
    }
}

/// Every ticket is over by the time its plan takes, in however many steps: once the time
/// that has passed reaches it, the ticket is complete and stays so.
pub proof fn tickets_run_out(animation: Animation, spring: int)
    requires
        animation.playing().length() > 0 ==> animation.age() >= animation.playing().length(),
    ensures
        animation.reached(spring) >= 1_000_000,
{
    let n = animation.playing().length();
    if n > 0 {
        let e = animation.age();
        assert(e * 1_000_000 / n >= 1_000_000) by (nonlinear_arith)
            requires
                e >= n,
                n > 0,
        ;
        crate::density::easing_is_bounded_and_monotone(1_000_000, 1_000_000);
    }
}

/// Two steps pass as much time as one step of their sum, so that an animation takes the
/// same time at any frame rate.
pub proof fn time_adds_up(elapsed: int, a: int, b: int)
    requires
        0 <= elapsed,
        0 <= a,
        0 <= b,
    ensures
        passed(passed(elapsed, a), b) == passed(elapsed, a + b),
{
}

/// Whether `==` on `T` compares values, as it does on numbers and on options of them.
pub open spec fn compares_values<T: PartialEq>() -> bool {
    &&& T::obeys_eq_spec()
    &&& forall|a: T, b: T| #[trigger] a.eq_spec(&b) <==> a == b
}

/// A value on its way from one state to another.
///
/// Aiming at the value it is already on its way to does nothing, so that a stream of events
/// that repeat themselves holds no animation open.
#[derive(Copy, PartialEq, Debug)]
pub struct Phase<T> {
    from: T,
    to: T,
    animation: Option<Animation>,
}

impl<T: Copy> Clone for Phase<T> {
    fn clone(&self) -> (result: Self)
        ensures
            result == *self,
    {
        *self
    }
}

impl<T> Phase<T> {
    #[verifier::type_invariant]
    spec fn well_formed(self) -> bool {
        &&& self.animation is None ==> self.from == self.to
        &&& self.animation is Some ==> self.from != self.to
        &&& self.animation matches Some(a) ==> a.playing() is Animate && a.age() >= 0
    }

    /// The state it leaves.
    pub closed spec fn origin(self) -> T {
        self.from
    }

    /// The state it heads for.
    pub closed spec fn target(self) -> T {
        self.to
    }

    /// The animation that is carrying it.
    pub closed spec fn ticket(self) -> Option<Animation> {
        self.animation
    }

    /// At rest in `value`.
    pub closed spec fn rest(value: T) -> Phase<T> {
        Phase { from: value, to: value, animation: None }
    }

    /// How far it is from its origin to its target; one at rest.
    pub open spec fn along(self, spring: int) -> int {
        match self.ticket() {
            Some(animation) => animation.reached(spring),
            None => 1_000_000,
        }
    }

    /// How strongly `value` is present.
    pub open spec fn presence(self, value: T, spring: int) -> int {
        let progress = self.along(spring);
        let arriving = if self.target() == value {
            progress
        } else {
            0
        };
        let leaving = if self.origin() == value {
            max_of(arriving, 1_000_000 - progress)
        } else {
            arriving
        };
        clamped(leaving, 0, 1_000_000)
    }
}

/// At rest a phase leaves and heads for the one state it is in, and nothing carries it.
pub proof fn rest_is_still<T>(value: T)
    ensures
        Phase::rest(value).origin() == value,
        Phase::rest(value).target() == value,
        Phase::rest(value).ticket() is None,
{
}

/// `after` is `before` aimed at `to`: unchanged if that is its target, at rest there under
/// an instant plan, and else on its way there from its old target.
pub open spec fn aimed<T>(before: Phase<T>, after: Phase<T>, to: T, plan: MotionPlan) -> bool {
    if before.target() == to {
        after == before
    } else if plan is Instant {
        after == Phase::rest(to)
    } else {
        &&& after.origin() == before.target()
        &&& after.target() == to
        &&& after.ticket() matches Some(a) && a.age() == 0 && a.playing() == plan
    }
}

/// `after` is `before` with `dt` seconds more, and `running` says whether it still moves: a
/// phase whose animation runs out is at rest in its target.
pub open spec fn stepped<T>(before: Phase<T>, after: Phase<T>, dt: int, running: bool) -> bool {
    match before.ticket() {
        None => after == before && !running,
        Some(a) => if passed(a.age(), dt) < a.playing().length() {
            &&& running
            &&& after.origin() == before.origin()
            &&& after.target() == before.target()
            &&& after.ticket() matches Some(b) && b.age() == passed(a.age(), dt) && b.playing()
                == a.playing()
        } else {
            &&& !running
            &&& after == Phase::rest(before.target())
        },
    }
}

impl<T: Copy + PartialEq> Phase<T> {
    /// At rest in `value`.
    pub fn settled(value: T) -> (result: Self)
        ensures
            result == Phase::rest(value),
            result.origin() == value,
            result.target() == value,
            result.ticket() is None,
    {
        Phase { from: value, to: value, animation: None }
    }

    /// Aim at a new target. A no-op if that is already the target.
    pub fn set(&mut self, to: T, plan: MotionPlan)
        requires
            compares_values::<T>(),
            fits(plan.length()),
        ensures
            aimed(*old(self), *final(self), to, plan),
    {
        if self.to == to {
            return;
        }
        if plan.is_instant() {
            *self = Phase { from: to, to, animation: None };
            return;
        }
        *self = Phase { from: self.to, to, animation: Some(Animation::new(plan)) };
    }

    /// Advance by `dt` seconds. Returns `true` while still animating.
    pub fn advance(&mut self, dt: Micros) -> (result: bool)
        requires
            fits(dt as int),
        ensures
            stepped(*old(self), *final(self), dt as int, result),
    {
        proof {
            use_type_invariant(&*self);
        }
        match self.animation {
            None => false,
            Some(animation) => {
                let mut animation: Animation = animation;
                if animation.advance(dt) {
                    *self = Phase { from: self.from, to: self.to, animation: Some(animation) };
                    true
                } else {
                    *self = Phase { from: self.to, to: self.to, animation: None };
                    false
                }
            },
        }
    }

    /// Whether an animation is carrying it: exactly while its two ends differ.
    pub fn is_animating(&self) -> (result: bool)
        ensures
            result == (self.ticket() is Some),
            result == (self.origin() != self.target()),
    {
        proof {
            use_type_invariant(self);
        }
        self.animation.is_some()
    }

    /// The state it leaves.
    pub fn from(&self) -> (result: T)
        ensures
            result == self.origin(),
    {
        self.from
    }

    /// The state it heads for.
    pub fn to(&self) -> (result: T)
        ensures
            result == self.target(),
    {
        self.to
    }

    /// How much of its animation's time has passed, from zero to one; one at rest.
    pub fn time(&self) -> (result: Micros)
        ensures
            result == match self.ticket() {
                Some(animation) if animation.playing().length() > 0 => animation.linear(),
                _ => 1_000_000,
            },
    {
        match self.animation {
            Some(animation) => animation.time(),
            None => MICRO,
        }
    }

    /// Eased progress from the origin to the target; one once settled. `spring` is where
    /// the damped oscillation is.
    pub fn progress(&self, spring: Micros) -> (result: Micros)
        ensures
            result == self.along(spring as int),
    {
        match self.animation {
            Some(animation) => animation.progress(spring),
            None => MICRO,
        }
    }

    /// How strongly `value` is present: one when it is the settled state, down as it is
    /// left and up as it is approached.
    pub fn intensity(&self, value: T, spring: Micros) -> (result: Micros)
        requires
            compares_values::<T>(),
            fits(spring as int),
        ensures
            result == self.presence(value, spring as int),
    {
        let progress: Micros = self.progress(spring);
        proof {
            self.along_is_small(spring as int);
        }
        let mut intensity: Micros = 0;
        if self.to == value {
            intensity = progress;
        }
        if self.from == value {
            intensity = larger(intensity, MICRO - progress);
        }
        hold_between(intensity, 0, MICRO)
    }

    proof fn along_is_small(self, spring: int)
        requires
            fits(spring),
        ensures
            fits(self.along(spring)),
    {
        if let Some(a) = self.ticket() {
            crate::density::easing_is_bounded_and_monotone(a.linear(), a.linear());
        }
    }
}

/// A phase that has run out is the same as one that never moved.
pub proof fn a_retired_phase_is_a_settled_one<T>(before: Phase<T>, after: Phase<T>, dt: int)
    requires
        stepped(before, after, dt, false),
        before.ticket() is Some,
    ensures
        after == Phase::rest(before.target()),
{
}

/// Aiming at the present target changes nothing, however often it is done.
pub proof fn repeating_a_target_changes_nothing<T>(
    before: Phase<T>,
    after: Phase<T>,
    plan: MotionPlan,
)
    requires
        aimed(before, after, before.target(), plan),
    ensures
        after == before,
{
}

/// While an eased phase moves, the state it leaves and the state it heads for together make
/// up the whole, at every instant.
pub proof fn a_move_is_a_cross_fade<T>(phase: Phase<T>, spring: int)
    requires
        phase.origin() != phase.target(),
        phase.ticket() matches Some(a) && a.playing() matches MotionPlan::Animate { curve, .. }
            && curve == Curve::EaseOut,
    ensures
        phase.presence(phase.origin(), spring) + phase.presence(phase.target(), spring)
            == 1_000_000,
{
    let a = phase.ticket()->0;
    crate::density::easing_is_bounded_and_monotone(a.linear(), a.linear());
}

/// How the selection region should be drawn this frame.
#[derive(Clone, Copy, PartialEq, Eq, Debug, Structural)]
pub struct SelectionDraw {
    /// The row whose slot the region is anchored to.
    pub row: u64,
    /// Vertical displacement from that row's top, in rows: zero once settled, negative while
    /// the region is still above the row.
    pub offset_rows: Micros,
    /// Opacity, from zero to one.
    pub alpha: Micros,
}

/// Where the focus lamp should hang this frame.
#[derive(Clone, Copy, PartialEq, Eq, Debug, Structural)]
pub struct FocusLightDraw {
    /// The row whose slot the lamp is anchored to.
    pub row: u64,
    /// Vertical displacement from that row's top, in rows: zero once settled, negative while
    /// the lamp is still above the row.
    pub offset_rows: Micros,
}

/// How far along an eased phase is.
pub open spec fn eased_along<T>(phase: Phase<T>) -> int {
    phase.along(0)
}

/// Where the selection region is: it slides between two rows that a viewport holds, and
/// fades between two that are further apart or where there is only one.
pub open spec fn region_of(phase: Phase<Option<u64>>, viewport_rows: u32) -> Option<SelectionDraw> {
    let progress = eased_along(phase);
    match (phase.origin(), phase.target()) {
        (Some(from), Some(to)) => {
            let travel = from - to;
            let reach = if viewport_rows < 1 {
                1
            } else {
                viewport_rows as int
            };
            if phase.ticket() is None {
                Some(SelectionDraw { row: to, offset_rows: 0, alpha: 1_000_000 })
            } else if -reach <= travel <= reach {
                Some(
                    SelectionDraw {
                        row: to,
                        offset_rows: ((1_000_000 - progress) * travel) as Micros,
                        alpha: 1_000_000,
                    },
                )
            } else {
                Some(SelectionDraw { row: to, offset_rows: 0, alpha: progress as Micros })
            }
        },
        (None, Some(to)) => Some(
            SelectionDraw { row: to, offset_rows: 0, alpha: progress as Micros },
        ),
        (Some(from), None) => Some(
            SelectionDraw { row: from, offset_rows: 0, alpha: (1_000_000 - progress) as Micros },
        ),
        (None, None) => None,
    }
}

/// Whether a displacement is no longer than the longest list.
pub open spec fn is_travel(offset_rows: int) -> bool {
    -18_446_744_073_709_551_616_000_000 <= offset_rows <= 18_446_744_073_709_551_616_000_000
}

/// Where the focus lamp is: it travels between two rows, and stays put while it comes up or
/// goes out.
pub open spec fn lamp_of(phase: Phase<Option<u64>>) -> Option<FocusLightDraw> {
    let progress = eased_along(phase);
    match (phase.origin(), phase.target()) {
        (Some(from), Some(to)) => Some(
            FocusLightDraw {
                row: to,
                offset_rows: ((1_000_000 - progress) * (from - to)) as Micros,
            },
        ),
        (None, Some(to)) => Some(FocusLightDraw { row: to, offset_rows: 0 }),
        (Some(from), None) => Some(FocusLightDraw { row: from, offset_rows: 0 }),
        (None, None) => None,
    }
}

/// How strongly the focus lamp burns: full while it stands or travels, and in between while
/// it comes up or goes out.
pub open spec fn lamp_gain(phase: Phase<Option<u64>>) -> int {
    match (phase.origin(), phase.target()) {
        (Some(_), Some(_)) => 1_000_000,
        (None, Some(_)) => eased_along(phase),
        (Some(_), None) => 1_000_000 - eased_along(phase),
        (None, None) => 0,
    }
}

/// How far apart two rows are; nothing when there is only one.
pub open spec fn distance_between(a: Option<u64>, b: Option<u64>) -> Reading {
    match (a, b) {
        (Some(x), Some(y)) => Reading::Finite(
            ((if x >= y {
                x - y
            } else {
                y - x
            }) * 1_000_000) as Micros,
        ),
        _ => Reading::Finite(0),
    }
}

/// `after` is `before` aimed at `to` by `pattern`, over the distance from where it was
/// heading.
pub open spec fn travels(
    pattern: MotionPattern,
    preference: MotionPreference,
    before: Phase<Option<u64>>,
    after: Phase<Option<u64>>,
    to: Option<u64>,
) -> bool {
    exists|length: int|
        {
            &&& #[trigger] pattern.takes(distance_between(before.target(), to), length)
            &&& aimed(before, after, to, planned(preference, pattern.nature(), length, Curve::EaseOut))
            &&& 0 < length <= pattern.full_length()
        }
}

/// Whether a phase still moves after `dt` more seconds.
pub open spec fn outlasts<T>(phase: Phase<T>, dt: int) -> bool {
    phase.ticket() matches Some(a) && passed(a.age(), dt) < a.playing().length()
}

/// A density change after `dt` more seconds: gone once it has arrived.
pub open spec fn morphed(density: Option<DensityTransition>, dt: int) -> Option<DensityTransition> {
    match density {
        Some(t) => {
            let progress = progressed(t.progress as int, dt, t.duration as int);
            if progress < 1_000_000 {
                Some(DensityTransition { progress: progress as Micros, ..t })
            } else {
                None
            }
        },
        None => None,
    }
}

/// A phase whose animation, if any, eases out.
spec fn eases<T>(phase: Phase<T>) -> bool {
    phase.ticket() matches Some(a) ==> (a.playing() matches MotionPlan::Animate { curve, .. }
        && curve == Curve::EaseOut)
}

/// A phase whose animation, if any, takes no longer than the longest pattern.
spec fn is_brief<T>(phase: Phase<T>) -> bool {
    phase.ticket() matches Some(a) ==> a.playing().length() <= LONGEST_MOVE
}

proof fn options_compare_values()
    ensures
        compares_values::<Option<u64>>(),
{
    assert(<Option<u64> as PartialEqSpec>::obeys_eq_spec());
    assert forall|a: Option<u64>, b: Option<u64>| #[trigger] a.eq_spec(&b) <==> a == b by {}
}

proof fn lemma_eased_along<T>(phase: Phase<T>, spring: int)
    requires
        eases(phase),
    ensures
        phase.along(spring) == eased_along(phase),
        0 <= eased_along(phase) <= 1_000_000,
{
    if let Some(a) = phase.ticket() {
        crate::density::easing_is_bounded_and_monotone(a.linear(), a.linear());
    }
}

/// Animated interaction and density state.
///
/// The frame loop asks it whether another frame is needed.
#[derive(Clone, Copy, PartialEq, Debug)]
pub struct InteractionMotion {
    preference: MotionPreference,
    hover: Phase<Option<u64>>,
    pressed: Phase<Option<u64>>,
    selected: Phase<Option<u64>>,
    focused: Phase<Option<u64>>,
    density: Option<DensityTransition>,
    cycle: Micros,
}

impl Default for InteractionMotion {
    fn default() -> (result: Self)
        ensures
            result.taste() == MotionPreference::Full,
            result.hovering() == Phase::rest(None::<u64>),
            result.pressing() == Phase::rest(None::<u64>),
            result.selecting() == Phase::rest(None::<u64>),
            result.focusing() == Phase::rest(None::<u64>),
            result.morphing() is None,
            result.turned() == 0,
    {
        InteractionMotion::new(MotionPreference::Full)
    }
}

impl InteractionMotion {
    #[verifier::type_invariant]
    spec fn well_formed(self) -> bool {
        &&& eases(self.hover)
        &&& eases(self.pressed)
        &&& eases(self.selected)
        &&& eases(self.focused)
        &&& is_brief(self.hover)
        &&& is_brief(self.pressed)
        &&& is_brief(self.selected)
        &&& is_brief(self.focused)
        &&& self.preference == MotionPreference::Reduced ==> self.selected.ticket() is None
            && self.focused.ticket() is None && self.density is None
        &&& 0 <= self.cycle < CYCLE_SECONDS
        &&& self.density matches Some(t) ==> 0 <= t.progress < 1_000_000 && t.duration
            == DensityTransition::DURATION
    }

    /// The user's preference.
    pub closed spec fn taste(self) -> MotionPreference {
        self.preference
    }

    /// The row under the pointer, on its way.
    pub closed spec fn hovering(self) -> Phase<Option<u64>> {
        self.hover
    }

    /// The row held down, on its way.
    pub closed spec fn pressing(self) -> Phase<Option<u64>> {
        self.pressed
    }

    /// The selected row, on its way.
    pub closed spec fn selecting(self) -> Phase<Option<u64>> {
        self.selected
    }

    /// The focused row, on its way.
    pub closed spec fn focusing(self) -> Phase<Option<u64>> {
        self.focused
    }

    /// The density change under way.
    pub closed spec fn morphing(self) -> Option<DensityTransition> {
        self.density
    }

    /// Seconds into the material cycle.
    pub closed spec fn turned(self) -> int {
        self.cycle as int
    }

    /// Whether anything moves.
    pub open spec fn moves(self) -> bool {
        ||| self.hovering().ticket() is Some
        ||| self.pressing().ticket() is Some
        ||| self.selecting().ticket() is Some
        ||| self.focusing().ticket() is Some
        ||| self.morphing() is Some
    }

    /// How hard the selection is being moved.
    pub open spec fn swell(self) -> int {
        if self.selecting().ticket() is None {
            0
        } else {
            1_000_000 - eased_along(self.selecting())
        }
    }

    /// Where the material cycle is drawn, in turns.
    pub open spec fn turn(self) -> int {
        match self.taste() {
            MotionPreference::Reduced => PINNED_PHASE as int,
            MotionPreference::Full => self.turned() / 6,
        }
    }

    /// What a driven material is painted with, while the lamp's shimmer is at `ripple`.
    pub open spec fn driving(self, ripple: int) -> Drive {
        Drive {
            intensity: self.swell() as Micros,
            phase: self.turn() as Micros,
            ripple: clamped(ripple, -1_000_000, 1_000_000) as Micros,
        }
    }

    /// At rest: nothing hovered, pressed, selected or focused.
    pub fn new(preference: MotionPreference) -> (result: Self)
        ensures
            result.taste() == preference,
            result.hovering() == Phase::rest(None::<u64>),
            result.pressing() == Phase::rest(None::<u64>),
            result.selecting() == Phase::rest(None::<u64>),
            result.focusing() == Phase::rest(None::<u64>),
            result.morphing() is None,
            result.turned() == 0,
            !result.moves(),
    {
        InteractionMotion {
            preference,
            hover: Phase::settled(None),
            pressed: Phase::settled(None),
            selected: Phase::settled(None),
            focused: Phase::settled(None),
            density: None,
            cycle: 0,
        }
    }

    /// The user's preference.
    pub fn preference(&self) -> (result: MotionPreference)
        ensures
            result == self.taste(),
    {
        self.preference
    }

    /// Bring the animated state in line with the interaction state. Doing it again with the
    /// same state starts nothing.
    ///
    /// A selection of several rows has no single region to move, so it moves none.
    pub fn sync(&mut self, interaction: Interaction<'_>)
        ensures
            aimed(
                old(self).hovering(),
                final(self).hovering(),
                interaction.hovered,
                hover_plan(old(self).taste()),
            ),
            aimed(
                old(self).pressing(),
                final(self).pressing(),
                interaction.pressed,
                press_plan(old(self).taste(), interaction.pressed),
            ),
            travels(
                MotionPattern::SelectionChange,
                old(self).taste(),
                old(self).selecting(),
                final(self).selecting(),
                interaction.lone_selected(),
            ),
            travels(
                MotionPattern::FocusLight,
                old(self).taste(),
                old(self).focusing(),
                final(self).focusing(),
                interaction.focused,
            ),
            final(self).taste() == old(self).taste(),
            final(self).morphing() == old(self).morphing(),
            final(self).turned() == old(self).turned(),
    {
        self.set_hovered(interaction.hovered);
        self.set_pressed(interaction.pressed);
        let row: Option<u64> = match interaction.selection {
            Some(selection) => selection.morph_target(),
            None => None,
        };
        self.set_selected(row);
        self.set_focused(interaction.focused);
    }

    /// Aim hover at `row`.
    pub fn set_hovered(&mut self, row: Option<u64>)
        ensures
            aimed(old(self).hovering(), final(self).hovering(), row, hover_plan(old(self).taste())),
            final(self).pressing() == old(self).pressing(),
            final(self).selecting() == old(self).selecting(),
            final(self).focusing() == old(self).focusing(),
            final(self).taste() == old(self).taste(),
            final(self).morphing() == old(self).morphing(),
            final(self).turned() == old(self).turned(),
    {
        proof {
            use_type_invariant(&*self);
            options_compare_values();
        }
        let plan: MotionPlan = MotionPattern::HoverFeedback.plan(self.preference);
        let mut hover: Phase<Option<u64>> = self.hover;
        hover.set(row, plan);
        *self = InteractionMotion {
            preference: self.preference,
            hover,
            pressed: self.pressed,
            selected: self.selected,
            focused: self.focused,
            density: self.density,
            cycle: self.cycle,
        };
    }

    /// Aim the press at `row`: down at the press timing, up at the slower hover timing.
    pub fn set_pressed(&mut self, row: Option<u64>)
        ensures
            aimed(
                old(self).pressing(),
                final(self).pressing(),
                row,
                press_plan(old(self).taste(), row),
            ),
            final(self).hovering() == old(self).hovering(),
            final(self).selecting() == old(self).selecting(),
            final(self).focusing() == old(self).focusing(),
            final(self).taste() == old(self).taste(),
            final(self).morphing() == old(self).morphing(),
            final(self).turned() == old(self).turned(),
    {
        proof {
            use_type_invariant(&*self);
            options_compare_values();
        }
        let pattern: MotionPattern = match row {
            Some(_) => MotionPattern::PressFeedback,
            None => MotionPattern::HoverFeedback,
        };
        let plan: MotionPlan = pattern.plan(self.preference);
        let mut pressed: Phase<Option<u64>> = self.pressed;
        pressed.set(row, plan);
        *self = InteractionMotion {
            preference: self.preference,
            hover: self.hover,
            pressed,
            selected: self.selected,
            focused: self.focused,
            density: self.density,
            cycle: self.cycle,
        };
    }

    /// Aim the selection region at `row`.
    ///
    /// The distance is measured from where the region is heading, so that each press of a
    /// held arrow key is a short move of its own. Appearing and disappearing have none.
    pub fn set_selected(&mut self, row: Option<u64>)
        ensures
            travels(
                MotionPattern::SelectionChange,
                old(self).taste(),
                old(self).selecting(),
                final(self).selecting(),
                row,
            ),
            final(self).hovering() == old(self).hovering(),
            final(self).pressing() == old(self).pressing(),
            final(self).focusing() == old(self).focusing(),
            final(self).taste() == old(self).taste(),
            final(self).morphing() == old(self).morphing(),
            final(self).turned() == old(self).turned(),
    {
        proof {
            use_type_invariant(&*self);
            options_compare_values();
        }
        let distance: Reading = row_distance(self.selected.to(), row);
        let plan: MotionPlan = MotionPattern::SelectionChange.plan_over(self.preference, distance);
        let mut selected: Phase<Option<u64>> = self.selected;
        selected.set(row, plan);
        *self = InteractionMotion {
            preference: self.preference,
            hover: self.hover,
            pressed: self.pressed,
            selected,
            focused: self.focused,
            density: self.density,
            cycle: self.cycle,
        };
    }

    /// Aim the focus lamp at `row`, or put it out when nothing has focus.
    pub fn set_focused(&mut self, row: Option<u64>)
        ensures
            travels(
                MotionPattern::FocusLight,
                old(self).taste(),
                old(self).focusing(),
                final(self).focusing(),
                row,
            ),
            final(self).hovering() == old(self).hovering(),
            final(self).pressing() == old(self).pressing(),
            final(self).selecting() == old(self).selecting(),
            final(self).taste() == old(self).taste(),
            final(self).morphing() == old(self).morphing(),
            final(self).turned() == old(self).turned(),
    {
        proof {
            use_type_invariant(&*self);
            options_compare_values();
        }
        let distance: Reading = row_distance(self.focused.to(), row);
        let plan: MotionPlan = MotionPattern::FocusLight.plan_over(self.preference, distance);
        let mut focused: Phase<Option<u64>> = self.focused;
        focused.set(row, plan);
        *self = InteractionMotion {
            preference: self.preference,
            hover: self.hover,
            pressed: self.pressed,
            selected: self.selected,
            focused,
            density: self.density,
            cycle: self.cycle,
        };
    }

    /// Start a density change, in place of one under way. `None` means that the change is
    /// instant: reduced motion asked for that, or the two densities are the same.
    pub fn begin_density(&mut self, from: Density, to: Density) -> (result: Option<DensityTransition>)
        ensures
            result == if from == to || old(self).taste() == MotionPreference::Reduced {
                None
            } else {
                Some(
                    DensityTransition { from, to, progress: 0, duration: DensityTransition::DURATION },
                )
            },
            final(self).morphing() == result,
            final(self).hovering() == old(self).hovering(),
            final(self).pressing() == old(self).pressing(),
            final(self).selecting() == old(self).selecting(),
            final(self).focusing() == old(self).focusing(),
            final(self).taste() == old(self).taste(),
            final(self).turned() == old(self).turned(),
    {
        proof {
            use_type_invariant(&*self);
        }
        let instant: bool = MotionPattern::DensityChange.plan(self.preference).is_instant();
        let density: Option<DensityTransition> = if from == to || instant {
            None
        } else {
            Some(DensityTransition::new(from, to))
        };
        *self = InteractionMotion {
            preference: self.preference,
            hover: self.hover,
            pressed: self.pressed,
            selected: self.selected,
            focused: self.focused,
            density,
            cycle: self.cycle,
        };
        density
    }

    /// The density change under way; never one under reduced motion.
    pub fn density(&self) -> (result: Option<DensityTransition>)
        ensures
            result == self.morphing(),
            self.taste() == MotionPreference::Reduced ==> result is None,
    {
        proof {
            use_type_invariant(self);
        }
        self.density
    }

    /// Advance every live animation by `dt` seconds. Returns `true` while any still runs.
    ///
    /// Every phase advances, so that overlapping animations run together, and all are over
    /// by the time that the longest of them takes. The material cycle advances too and is no
    /// part of the answer: it never keeps the loop awake.
    pub fn advance(&mut self, dt: Micros) -> (result: bool)
        requires
            fits(dt as int),
        ensures
            stepped(
                old(self).hovering(),
                final(self).hovering(),
                dt as int,
                outlasts(old(self).hovering(), dt as int),
            ),
            stepped(
                old(self).pressing(),
                final(self).pressing(),
                dt as int,
                outlasts(old(self).pressing(), dt as int),
            ),
            stepped(
                old(self).selecting(),
                final(self).selecting(),
                dt as int,
                outlasts(old(self).selecting(), dt as int),
            ),
            stepped(
                old(self).focusing(),
                final(self).focusing(),
                dt as int,
                outlasts(old(self).focusing(), dt as int),
            ),
            final(self).morphing() == morphed(old(self).morphing(), dt as int),
            final(self).turned() == (old(self).turned() + max_of(dt as int, 0)) % 6_000_000,
            final(self).taste() == old(self).taste(),
            result == final(self).moves(),
            dt >= LONGEST_MOVE ==> !result,
    {
        proof {
            use_type_invariant(&*self);
            use_type_invariant(&self.hover);
            use_type_invariant(&self.pressed);
            use_type_invariant(&self.selected);
            use_type_invariant(&self.focused);
        }
        let cycle: Micros = (self.cycle + larger(dt, 0)) % CYCLE_SECONDS;
        let mut hover: Phase<Option<u64>> = self.hover;
        let mut pressed: Phase<Option<u64>> = self.pressed;
        let mut selected: Phase<Option<u64>> = self.selected;
        let mut focused: Phase<Option<u64>> = self.focused;
        let hovering: bool = hover.advance(dt);
        let pressing: bool = pressed.advance(dt);
        let selecting: bool = selected.advance(dt);
        let focusing: bool = focused.advance(dt);
        let density: Option<DensityTransition> = match self.density {
            Some(transition) => {
                let mut transition: DensityTransition = transition;
                if transition.advance(dt) {
                    Some(transition)
                } else {
                    None
                }
            },
            None => None,
        };
        *self = InteractionMotion {
            preference: self.preference,
            hover,
            pressed,
            selected,
            focused,
            density,
            cycle,
        };
        hovering || pressing || selecting || focusing || density.is_some()
    }

    /// Whether anything moves.
    pub fn is_animating(&self) -> (result: bool)
        ensures
            result == self.moves(),
    {
        self.hover.is_animating() || self.pressed.is_animating() || self.selected.is_animating()
            || self.focused.is_animating() || self.density.is_some()
    }

    /// Hover intensity of one row, from zero to one.
    pub fn hover_alpha(&self, row: u64) -> (result: Micros)
        ensures
            result == self.hovering().presence(Some(row), 0),
            0 <= result <= MICRO,
    {
        proof {
            options_compare_values();
        }
        self.hover.intensity(Some(row), 0)
    }

    /// Press intensity of one row, from zero to one.
    pub fn press_alpha(&self, row: u64) -> (result: Micros)
        ensures
            result == self.pressing().presence(Some(row), 0),
            0 <= result <= MICRO,
    {
        proof {
            options_compare_values();
        }
        self.pressed.intensity(Some(row), 0)
    }

    /// How hard the selection is being moved: one as it departs, falling to zero; zero when
    /// it is still, and always zero under reduced motion.
    pub fn selection_swell(&self) -> (result: Micros)
        ensures
            result == self.swell(),
            0 <= result <= MICRO,
            self.taste() == MotionPreference::Reduced ==> result == 0,
    {
        proof {
            use_type_invariant(self);
            lemma_eased_along(self.selected, 0);
        }
        if !self.selected.is_animating() {
            return 0;
        }
        hold_between(MICRO - self.selected.progress(0), 0, MICRO)
    }

    /// Where the material cycle is, in turns from zero up to one; pinned under reduced
    /// motion.
    pub fn phase(&self) -> (result: Micros)
        ensures
            result == self.turn(),
            0 <= result < MICRO,
    {
        proof {
            use_type_invariant(self);
        }
        match self.preference {
            MotionPreference::Reduced => PINNED_PHASE,
            MotionPreference::Full => self.cycle / 6,
        }
    }

    /// What to paint a driven material with this frame. `ripple` is where the lamp's shimmer is
    /// at this frame's phase.
    pub fn drive(&self, ripple: Micros) -> (result: Drive)
        ensures
            result == self.driving(ripple as int),
            result.sane(),
    {
        Drive::new(self.selection_swell(), Reading::Finite(self.phase()), ripple)
    }

    /// Where the selection region is this frame, if there is one, for a viewport of
    /// `viewport_rows` rows.
    pub fn selection_draw(&self, viewport_rows: u32) -> (result: Option<SelectionDraw>)
        ensures
            result == region_of(self.selecting(), viewport_rows),
            self.taste() == MotionPreference::Reduced ==> (result matches Some(draw)
                ==> draw.offset_rows == 0 && draw.alpha == MICRO),
            result matches Some(draw) ==> 0 <= draw.alpha <= MICRO && is_travel(
                draw.offset_rows as int,
            ),
    {
        proof {
            use_type_invariant(self);
            use_type_invariant(&self.selected);
            lemma_eased_along(self.selected, 0);
        }
        if !self.selected.is_animating() {
            return match self.selected.to() {
                Some(row) => Some(SelectionDraw { row, offset_rows: 0, alpha: MICRO }),
                None => None,
            };
        }
        let progress: Micros = self.selected.progress(0);
        match (self.selected.from(), self.selected.to()) {
            (Some(from), Some(to)) => {
                let travel: i128 = from as i128 - to as i128;
                let reach: i128 = if viewport_rows < 1 {
                    1
                } else {
                    viewport_rows as i128
                };
                if -reach <= travel && travel <= reach {
                    proof {
                        lemma_travel(progress as int, travel as int);
                    }
                    Some(
                        SelectionDraw {
                            row: to,
                            offset_rows: (MICRO - progress) * travel,
                            alpha: MICRO,
                        },
                    )
                } else {
                    Some(SelectionDraw { row: to, offset_rows: 0, alpha: progress })
                }
            },
            (None, Some(to)) => Some(SelectionDraw { row: to, offset_rows: 0, alpha: progress }),
            (Some(from), None) => Some(
                SelectionDraw { row: from, offset_rows: 0, alpha: MICRO - progress },
            ),
            (None, None) => None,
        }
    }

    /// Where the focus lamp is this frame, or `None` when nothing has focus.
    pub fn focus_light_draw(&self) -> (result: Option<FocusLightDraw>)
        ensures
            result == lamp_of(self.focusing()),
            self.taste() == MotionPreference::Reduced ==> (result matches Some(draw)
                ==> draw.offset_rows == 0),
            result matches Some(draw) ==> is_travel(draw.offset_rows as int),
    {
        proof {
            use_type_invariant(self);
            use_type_invariant(&self.focused);
            lemma_eased_along(self.focused, 0);
        }
        if !self.focused.is_animating() {
            return match self.focused.to() {
                Some(row) => {
                    proof {
                        lemma_travel(1_000_000, 0);
                    }
                    Some(FocusLightDraw { row, offset_rows: 0 })
                },
                None => None,
            };
        }
        let progress: Micros = self.focused.progress(0);
        match (self.focused.from(), self.focused.to()) {
            (Some(from), Some(to)) => {
                let travel: i128 = from as i128 - to as i128;
                proof {
                    lemma_travel(progress as int, travel as int);
                }
                Some(FocusLightDraw { row: to, offset_rows: (MICRO - progress) * travel })
            },
            (None, Some(to)) => Some(FocusLightDraw { row: to, offset_rows: 0 }),
            (Some(from), None) => Some(FocusLightDraw { row: from, offset_rows: 0 }),
            (None, None) => None,
        }
    }

    /// How strongly the focus lamp burns this frame, from zero to one.
    pub fn focus_light_gain(&self) -> (result: Micros)
        ensures
            result == lamp_gain(self.focusing()),
            0 <= result <= MICRO,
            self.taste() == MotionPreference::Reduced ==> result == 0 || result == MICRO,
    {
        proof {
            use_type_invariant(self);
            use_type_invariant(&self.focused);
            lemma_eased_along(self.focused, 0);
        }
        match (self.focused.from(), self.focused.to()) {
            (Some(_), Some(_)) => MICRO,
            (None, Some(_)) => self.focused.progress(0),
            (Some(_), None) => MICRO - self.focused.progress(0),
            (None, None) => 0,
        }
    }
}

proof fn lemma_travel(progress: int, travel: int)
    requires
        0 <= progress <= 1_000_000,
        -0x1_0000_0000_0000_0000 < travel < 0x1_0000_0000_0000_0000,
    ensures
        -0x1_0000_0000_0000_0000 * 1_000_000 <= (1_000_000 - progress) * travel
            <= 0x1_0000_0000_0000_0000 * 1_000_000,
        progress == 1_000_000 ==> (1_000_000 - progress) * travel == 0,
        travel == 0 ==> (1_000_000 - progress) * travel == 0,
{
    let left = 1_000_000 - progress;
    assert(-0x1_0000_0000_0000_0000 * 1_000_000 <= left * travel <= 0x1_0000_0000_0000_0000
        * 1_000_000) by (nonlinear_arith)
        requires
            0 <= left <= 1_000_000,
            -0x1_0000_0000_0000_0000 < travel < 0x1_0000_0000_0000_0000,
    ;
    assert(left == 0 ==> left * travel == 0) by (nonlinear_arith);
    assert(travel == 0 ==> left * travel == 0) by (nonlinear_arith);
}

/// How hover is presented.
pub open spec fn hover_plan(preference: MotionPreference) -> MotionPlan {
    planned(preference, MotionKind::Fade, 80_000, Curve::EaseOut)
}

/// How a press, or letting go, is presented.
pub open spec fn press_plan(preference: MotionPreference, row: Option<u64>) -> MotionPlan {
    planned(
        preference,
        MotionKind::Fade,
        if row is Some {
            40_000
        } else {
            80_000
        },
        Curve::EaseOut,
    )
}

/// How far apart two rows are; nothing when there is only one.
fn row_distance(a: Option<u64>, b: Option<u64>) -> (result: Reading)
    ensures
        result == distance_between(a, b),
{
    match (a, b) {
        (Some(x), Some(y)) => {
            let apart: u64 = if x >= y {
                x - y
            } else {
                y - x
            };
            Reading::Finite(apart as i128 * MICRO)
        },
        _ => Reading::Finite(0),
    }
}

/// Under reduced motion neither the selection nor the lamp ever moves or opens an animation:
/// each is at rest in its new row at once.
pub proof fn reduced_layout_opens_nothing(
    pattern: MotionPattern,
    before: Phase<Option<u64>>,
    after: Phase<Option<u64>>,
    to: Option<u64>,
)
    requires
        pattern.nature() == MotionKind::Layout,
        before.ticket() is None,
        before.origin() == before.target(),
        travels(pattern, MotionPreference::Reduced, before, after, to),
    ensures
        after.ticket() is None,
        after.origin() == to,
        after.target() == to,
        lamp_of(after) == match to {
            Some(row) => Some(FocusLightDraw { row, offset_rows: 0 }),
            None => None,
        },
{
    lemma_travel(1_000_000, 0);
}

/// A selection that rests is drawn in its own row, whole and in place; one that rests
/// nowhere is not drawn.
pub proof fn a_resting_selection_is_in_place(row: Option<u64>, viewport_rows: u32)
    ensures
        region_of(Phase::rest(row), viewport_rows) == match row {
            Some(r) => Some(SelectionDraw { row: r, offset_rows: 0, alpha: 1_000_000 }),
            None => None,
        },
        lamp_gain(Phase::rest(row)) == if row is Some {
            1_000_000int
        } else {
            0
        },
{
}

/// A selection that moves between two rows slides without fading when the viewport holds
/// the way between them, and fades in place when it does not: never both.
pub proof fn a_selection_slides_or_fades(phase: Phase<Option<u64>>, viewport_rows: u32)
    requires
        phase.origin() is Some,
        phase.target() is Some,
    ensures
        region_of(phase, viewport_rows) matches Some(draw) && draw.row == phase.target()->0 && (
        draw.alpha == 1_000_000 || draw.offset_rows == 0),
{
}

/// Releasing takes longer than pressing.
pub proof fn release_is_slower_than_press(row: u64)
    ensures
        press_plan(MotionPreference::Full, Some(row)).length() < press_plan(
            MotionPreference::Full,
            None,
        ).length(),
{
}

/// With nothing animating, time moves the material cycle and nothing else, and the answer is
/// still that nothing runs.
pub proof fn the_cycle_never_keeps_the_loop_awake<T>(before: Phase<T>, after: Phase<T>, dt: int)
    requires
        before.ticket() is None,
        stepped(before, after, dt, outlasts(before, dt)),
    ensures
        after == before,
        !outlasts(before, dt),
        morphed(None, dt) is None,
{
}

/// A phase eases where everything that plays in it does, for some time and from its beginning on.
pub open spec fn is_easing<T>(phase: Phase<T>) -> bool {
    phase.ticket() matches Some(a) && a.age() >= 0 && a.playing().length() > 0 && (
    a.playing() matches MotionPlan::Animate { curve, .. } && curve == Curve::EaseOut)
}

/// Part of the way from one row to another, in millionths.
proof fn lemma_part_of_the_way(progress: int, from: int, to: int)
    requires
        0 <= progress <= 1_000_000,
    ensures
        to * 1_000_000 + (1_000_000 - progress) * (from - to) == from * 1_000_000 + progress * (to
            - from),
        from <= to ==> 0 <= progress * (to - from) <= (to - from) * 1_000_000,
        to <= from ==> 0 <= progress * (from - to) <= (from - to) * 1_000_000,
        progress * (from - to) == -(progress * (to - from)),
        progress == 0 ==> progress * (to - from) == 0,
        progress == 1_000_000 ==> progress * (to - from) == 1_000_000 * (to - from),
{
    if progress == 0 {
        assert(progress * (to - from) == 0) by (nonlinear_arith)
            requires
                progress == 0,
        ;
    }
    assert((1_000_000 - progress) * (from - to) == 1_000_000 * (from - to) - progress * (from - to))
        by (nonlinear_arith);
    assert(progress * (from - to) == -(progress * (to - from))) by (nonlinear_arith);
    if from <= to {
        assert(0 <= progress * (to - from) <= (to - from) * 1_000_000) by (nonlinear_arith)
            requires
                0 <= progress <= 1_000_000,
                from <= to,
        ;
    }
    if to <= from {
        assert(0 <= progress * (from - to) <= (from - to) * 1_000_000) by (nonlinear_arith)
            requires
                0 <= progress <= 1_000_000,
                to <= from,
        ;
    }
}

/// How far a phase that eases has come: nowhere at its beginning, all the way at its end and never
/// behind the time.
proof fn lemma_along<T>(phase: Phase<T>)
    requires
        is_easing(phase),
    ensures
        0 <= eased_along(phase) <= 1_000_000,
        phase.ticket()->0.age() == 0 ==> eased_along(phase) == 0,
        phase.ticket()->0.age() >= phase.ticket()->0.playing().length() ==> eased_along(phase)
            == 1_000_000,
        phase.ticket()->0.age() <= phase.ticket()->0.playing().length() ==> (eased_along(phase) + 1)
            * phase.ticket()->0.playing().length() >= phase.ticket()->0.age() * 1_000_000,
{
    let a = phase.ticket()->0;
    let n = a.age() * 1_000_000;
    let d = a.playing().length();
    let t = a.linear();
    let q = n / d;
    assert(q * d <= n < q * d + d && q >= 0) by (nonlinear_arith)
        requires
            q == n / d,
            d > 0,
            n >= 0,
    ;
    if a.age() == 0 {
        assert(q == 0) by (nonlinear_arith)
            requires
                q * d <= 0,
                d > 0,
                q >= 0,
        ;
    }
    if a.age() >= d {
        assert(q >= 1_000_000) by (nonlinear_arith)
            requires
                n < q * d + d,
                n >= d * 1_000_000,
                d > 0,
        ;
    }
    crate::density::easing_is_ahead_of_the_time(t);
    let left = 1_000_000 - t;
    assert(0 <= left * left * left <= 1_000_000_000_000_000_000) by (nonlinear_arith)
        requires
            0 <= left <= 1_000_000,
    ;
    if left == 0 {
        assert(left * left * left == 0);
    }
    if left == 1_000_000 {
        assert(left * left * left == 1_000_000_000_000_000_000);
    }
    if a.age() <= d {
        let e = eased_along(phase);
        assert(q <= 1_000_000) by (nonlinear_arith)
            requires
                q * d <= n,
                n <= d * 1_000_000,
                d > 0,
        ;
        assert((e + 1) * d >= n) by (nonlinear_arith)
            requires
                e >= q,
                n < q * d + d,
                d > 0,
        ;
    }
}

/// Two moves that have used up the same part of their time are equally far, however long they take.
pub proof fn equal_parts_are_equally_far<T, U>(a: Phase<T>, b: Phase<U>)
    requires
        is_easing(a),
        is_easing(b),
        a.ticket()->0.age() * b.ticket()->0.playing().length() == b.ticket()->0.age()
            * a.ticket()->0.playing().length(),
    ensures
        eased_along(a) == eased_along(b),
{
    let x = a.ticket()->0.age();
    let y = b.ticket()->0.age();
    let d = a.ticket()->0.playing().length();
    let e = b.ticket()->0.playing().length();
    let p = x * 1_000_000 / d;
    let q = y * 1_000_000 / e;
    assert(p == q) by (nonlinear_arith)
        requires
            p == x * 1_000_000 / d,
            q == y * 1_000_000 / e,
            x * e == y * d,
            d > 0,
            e > 0,
            x >= 0,
            y >= 0,
    ;
}

/// A selection that moves no further than the rows on screen slides, always fully drawn: it starts on
/// the row it leaves, ends on the row it goes to, and is between the two on the way, at least as far
/// as its time is.
pub proof fn a_near_selection_slides_between_its_rows(
    phase: Phase<Option<u64>>,
    viewport_rows: u32,
    from: u64,
    to: u64,
)
    requires
        is_easing(phase),
        phase.origin() == Some(from),
        phase.target() == Some(to),
        -viewport_rows <= from - to <= viewport_rows || -1 <= from - to <= 1,
    ensures
        region_of(phase, viewport_rows) matches Some(draw) && {
            let at = draw.row * 1_000_000 + draw.offset_rows;
            let a = phase.ticket()->0;
            &&& draw.alpha == 1_000_000
            &&& from <= to ==> from * 1_000_000 <= at <= to * 1_000_000
            &&& to <= from ==> to * 1_000_000 <= at <= from * 1_000_000
            &&& a.age() == 0 ==> at == from * 1_000_000
            &&& a.age() >= a.playing().length() ==> at == to * 1_000_000
            &&& at == from * 1_000_000 + phase.presence(phase.target(), 0) * (to - from) || from == to
        },
{
    lemma_along(phase);
    let progress = eased_along(phase);
    lemma_part_of_the_way(progress, from as int, to as int);
    lemma_part_of_the_way(1_000_000 - progress, from as int, to as int);
    let offset = (1_000_000 - progress) * (from - to);
    assert(is_travel(offset));
    assert(offset as Micros == offset);
    if from != to {
        assert(phase.presence(phase.target(), 0) == progress);
    }
}

/// A selection that goes further than the rows on screen does not slide: it fades in where it goes to.
pub proof fn a_far_selection_fades_in(
    phase: Phase<Option<u64>>,
    viewport_rows: u32,
    from: u64,
    to: u64,
)
    requires
        is_easing(phase),
        phase.origin() == Some(from),
        phase.target() == Some(to),
        !(-viewport_rows <= from - to <= viewport_rows),
        !(-1 <= from - to <= 1),
    ensures
        region_of(phase, viewport_rows) matches Some(draw) && {
            let a = phase.ticket()->0;
            &&& draw.row == to
            &&& draw.offset_rows == 0
            &&& draw.alpha == phase.presence(phase.target(), 0)
            &&& a.age() == 0 ==> draw.alpha == 0
            &&& a.age() >= a.playing().length() ==> draw.alpha == 1_000_000
        },
{
    lemma_along(phase);
}

/// A selection that appears fades in on its row, one that goes fades out on the row it was on, and at
/// the same time of two such moves the one has what the other lacks.
pub proof fn appearing_and_going_mirror_each_other(
    appears: Phase<Option<u64>>,
    goes: Phase<Option<u64>>,
    row: u64,
    viewport_rows: u32,
)
    requires
        is_easing(appears),
        goes.ticket() == appears.ticket(),
        appears.origin() is None,
        appears.target() == Some(row),
        goes.origin() == Some(row),
        goes.target() is None,
    ensures
        region_of(appears, viewport_rows) matches Some(a) && region_of(goes, viewport_rows) matches Some(
            b,
        ) && {
            let ticket = appears.ticket()->0;
            &&& a.row == row && b.row == row
            &&& a.offset_rows == 0 && b.offset_rows == 0
            &&& a.alpha + b.alpha == 1_000_000
            &&& ticket.age() == 0 ==> a.alpha == 0
            &&& ticket.age() >= ticket.playing().length() ==> b.alpha == 0
            &&& a.alpha == lamp_gain(appears)
            &&& b.alpha == lamp_gain(goes)
        },
        lamp_of(appears) == Some(FocusLightDraw { row, offset_rows: 0 }),
        lamp_of(goes) == Some(FocusLightDraw { row, offset_rows: 0 }),
{
    lemma_along(appears);
    assert(eased_along(goes) == eased_along(appears));
}

/// A lamp that moves from one row to another shines all the way at full strength. It starts on the row
/// it leaves, ends on the row it goes to, and is between the two on the way, however far it goes.
pub proof fn a_lamp_slides_between_its_rows(phase: Phase<Option<u64>>, from: u64, to: u64)
    requires
        is_easing(phase),
        phase.origin() == Some(from),
        phase.target() == Some(to),
    ensures
        lamp_gain(phase) == 1_000_000,
        lamp_of(phase) matches Some(draw) && {
            let at = draw.row * 1_000_000 + draw.offset_rows;
            let a = phase.ticket()->0;
            &&& from <= to ==> from * 1_000_000 <= at <= to * 1_000_000
            &&& to <= from ==> to * 1_000_000 <= at <= from * 1_000_000
            &&& a.age() == 0 ==> at == from * 1_000_000
            &&& a.age() >= a.playing().length() ==> at == to * 1_000_000
            &&& at == from * 1_000_000 + phase.presence(phase.target(), 0) * (to - from) || from == to
        },
{
    lemma_along(phase);
    let progress = eased_along(phase);
    lemma_part_of_the_way(progress, from as int, to as int);
    lemma_part_of_the_way(1_000_000 - progress, from as int, to as int);
    let offset = (1_000_000 - progress) * (from - to);
    assert(is_travel(offset));
    assert(offset as Micros == offset);
    if from != to {
        assert(phase.presence(phase.target(), 0) == progress);
    }
}

/// What a phase neither leaves nor goes to is not there, and what it rests on is there in full.
pub proof fn only_the_two_ends_of_a_move_are_there<T>(phase: Phase<T>, value: T, spring: int)
    ensures
        value != phase.origin() && value != phase.target() ==> phase.presence(value, spring) == 0,
        phase.ticket() is None && value == phase.target() ==> phase.presence(value, spring)
            == 1_000_000,
{
}

/// A phase that is aimed somewhere goes there from where it was aimed before, and starts with nothing
/// of the new aim and all of the old one.
pub proof fn a_phase_goes_where_it_is_aimed<T>(
    before: Phase<T>,
    after: Phase<T>,
    to: T,
    plan: MotionPlan,
)
    requires
        aimed(before, after, to, plan),
        before.target() != to,
        plan matches MotionPlan::Animate { curve, .. } && curve == Curve::EaseOut,
        plan.length() > 0,
    ensures
        after.target() == to,
        after.origin() == before.target(),
        after.presence(to, 0) == 0,
        after.presence(before.target(), 0) == 1_000_000,
{
    lemma_along(after);
}

/// Time that passes in two steps does what it does in one.
pub proof fn two_steps_are_one<T>(
    first: Phase<T>,
    second: Phase<T>,
    third: Phase<T>,
    a: int,
    b: int,
    running: bool,
)
    requires
        0 <= a,
        0 <= b,
        first.ticket() matches Some(ticket) && ticket.age() >= 0,
        stepped(first, second, a, true),
        stepped(second, third, b, running),
    ensures
        stepped(first, third, a + b, running),
{
    time_adds_up(first.ticket()->0.age(), a, b);
}

/// Time runs forward: a step adds what has passed, and one that would turn it back adds nothing.
pub proof fn time_runs_forward(elapsed: int, dt: int)
    requires
        0 <= elapsed <= WIDEST,
    ensures
        elapsed <= passed(elapsed, dt),
        dt <= 0 ==> passed(elapsed, dt) == elapsed,
        0 <= dt && elapsed + dt <= WIDEST ==> passed(elapsed, dt) == elapsed + dt,
{
}

/// Where motion is not reduced, everything moves for as long and along the curve that was asked for.
pub proof fn full_motion_is_as_asked(kind: MotionKind, duration: Micros, curve: Curve)
    ensures
        planned(MotionPreference::Full, kind, duration as int, curve) == (MotionPlan::Animate {
            duration,
            curve,
        }),
        planned(MotionPreference::Reduced, MotionKind::Layout, duration as int, curve) is Instant,
        duration <= REDUCED_CROSSFADE ==> planned(
            MotionPreference::Reduced,
            MotionKind::Fade,
            duration as int,
            curve,
        ).length() == duration,
        planned(MotionPreference::Reduced, MotionKind::Fade, duration as int, curve) is Animate,
{
}

/// The way between two rows is as long one way as the other, and one unit for every row.
pub proof fn a_way_is_one_unit_for_every_row(from: u64, rows: u64)
    requires
        from + rows <= u64::MAX,
    ensures
        distance_between(Some(from), Some((from + rows) as u64)) == Reading::Finite(
            (rows * 1_000_000) as Micros,
        ),
        distance_between(Some((from + rows) as u64), Some(from)) == Reading::Finite(
            (rows * 1_000_000) as Micros,
        ),
{
}

/// A selection swells most when it starts to move and not at all when it rests, and the part of the
/// cycle that has passed is told as long as motion is not reduced.
pub proof fn a_selection_swells_as_it_starts(motion: InteractionMotion)
    ensures
        motion.selecting().ticket() is None ==> motion.swell() == 0,
        is_easing(motion.selecting()) && motion.selecting().ticket()->0.age() == 0 ==> motion.swell()
            == 1_000_000,
        is_easing(motion.selecting()) ==> 0 <= motion.swell() <= 1_000_000,
        motion.taste() == MotionPreference::Full ==> 0 <= motion.turned() - 6 * motion.turn() < 6,
        motion.taste() == MotionPreference::Reduced ==> motion.turn() == PINNED_PHASE,
{
    if is_easing(motion.selecting()) {
        lemma_along(motion.selecting());
    }
}

/// A change of density goes on between the same two densities for as long as it takes, and is over
/// when its time has passed.
pub proof fn a_change_of_density_runs_its_time(t: DensityTransition, dt: int)
    requires
        0 <= t.progress < 1_000_000,
        0 < t.duration,
        0 <= dt,
    ensures
        match morphed(Some(t), dt) {
            Some(next) => {
                &&& next.from == t.from
                &&& next.to == t.to
                &&& next.duration == t.duration
                &&& t.progress <= next.progress < 1_000_000
                &&& 0 <= dt * 1_000_000 - (next.progress - t.progress) * t.duration < t.duration
            },
            None => dt * 1_000_000 >= (1_000_000 - t.progress) * t.duration,
        },
{
    crate::density::progress_is_the_part_that_has_passed(
        t.progress as int,
        dt,
        t.duration as int,
    );
}

/// The time a move takes grows as the root of the way: no way takes the shortest time there is, and a
/// quarter of the span takes half as much more as the whole span does.
pub proof fn a_quarter_of_the_span_takes_half_of_the_rest(
    way: Micros,
    shortest: int,
    longest: int,
    none: int,
    quarter: int,
    span: Micros,
)
    requires
        0 < way,
        span == 4 * way,
        is_duration_for(Reading::Finite(0), Reading::Finite(span), shortest, longest, none),
        is_duration_for(Reading::Finite(way), Reading::Finite(span), shortest, longest, quarter),
    ensures
        none == shortest,
        0 <= (longest - shortest) - 2 * (quarter - shortest) < 2,
{
    let n = way * 1_000_000;
    let s = span as int;
    assert(n / s == 250_000) by (nonlinear_arith)
        requires
            n == way * 1_000_000,
            s == 4 * way,
            way > 0,
    ;
    let root = choose|root: int|
        {
            &&& #[trigger] is_root(clamped(n / s, 0, 1_000_000) * 1_000_000, root)
            &&& quarter == scaled_duration(shortest, longest, root)
        };
    assert(is_root(250_000_000_000, 500_000));
    crate::units::roots_are_unique(250_000_000_000, root, 500_000);
}

/// A move that answers to its way takes no less than the shortest time of its pattern and no more than
/// the longest; every other move takes the time of its pattern, wherever it goes.
pub proof fn a_move_takes_the_time_of_its_pattern(
    pattern: MotionPattern,
    distance: Micros,
    length: int,
    other: Reading,
    again: int,
)
    requires
        pattern.takes(Reading::Finite(distance), length),
        pattern.takes(other, again),
    ensures
        match pattern.scaling() {
            Some((shortest, span)) => {
                &&& 0 < shortest <= length <= pattern.full_length()
                &&& distance <= 0 ==> length == shortest
                &&& distance >= span ==> length == pattern.full_length()
            },
            None => length == again && length == pattern.full_length(),
        },
{
    if let Some((shortest, span)) = pattern.scaling() {
        if distance > 0 {
            let part = clamped(distance * 1_000_000 / span as int, 0, 1_000_000);
            let root = choose|root: int|
                {
                    &&& #[trigger] is_root(part * 1_000_000, root)
                    &&& length == scaled_duration(shortest as int, pattern.full_length(), root)
                };
            assert(root <= 1_000_000) by (nonlinear_arith)
                requires
                    root * root <= part * 1_000_000,
                    part <= 1_000_000,
            ;
            times_is_bounded(pattern.full_length() - shortest, root, 1);
            if distance >= span {
                a_full_span_takes_the_longest(
                    span,
                    distance,
                    shortest as int,
                    pattern.full_length(),
                    length,
                );
            }
        }
    }
}

/// Something moves exactly while one of the phases has somewhere to go or the density changes.
pub proof fn nothing_moves_that_rests(motion: InteractionMotion)
    ensures
        !motion.moves() <==> motion.hovering().ticket() is None && motion.pressing().ticket() is None
            && motion.selecting().ticket() is None && motion.focusing().ticket() is None
            && motion.morphing() is None,
{
}

} // verus!
