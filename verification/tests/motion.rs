use qs_ui::density::{Density, DensityTransition};
use qs_ui::motion::{
    duration_for, plan, Animation, Curve, FocusLightDraw, InteractionMotion, MotionKind,
    MotionPattern, MotionPlan, MotionPreference, Phase, CYCLE_SECONDS, PINNED_PHASE,
    LONGEST_MOVE, REDUCED_CROSSFADE,
};
use qs_ui::row::Interaction;
use qs_ui::selection::Selection;
use qs_ui::units::{Micros, Reading, MICRO};

const FRAME: Micros = 8_333;

fn px(x: f64) -> Micros {
    (x * 1e6).round() as Micros
}

fn read(x: f64) -> Reading {
    Reading::Finite(px(x))
}

/// The damped oscillation of the spring curve at linear time `t`.
fn spring(t: f64) -> Micros {
    px(1.0 - (-8.0 * t).exp() * (10.0 * t).cos())
}

/// Advance until settled, asserting termination. Returns the number of frames it took.
fn run_to_rest(motion: &mut InteractionMotion) -> u32 {
    let mut frames = 0;
    while motion.advance(FRAME) {
        frames += 1;
        assert!(frames < 10_000, "an animation never retired");
    }
    assert!(!motion.is_animating());
    frames
}

#[test]
fn reduced_motion_removes_the_spring_entirely() {
    let full = plan(
        MotionPreference::Full,
        MotionKind::Layout,
        px(0.3),
        Curve::Spring,
    );
    assert!(full.uses_spring());

    let reduced = plan(
        MotionPreference::Reduced,
        MotionKind::Layout,
        px(0.3),
        Curve::Spring,
    );
    assert!(reduced.is_instant());
    assert!(!reduced.uses_spring(), "no spring survives reduced motion");
}

#[test]
fn no_plan_produced_under_reduced_motion_uses_a_spring() {
    for kind in [
        MotionKind::Layout,
        MotionKind::Fade,
        MotionKind::UserDirectedScroll,
    ] {
        for curve in [Curve::EaseOut, Curve::Spring] {
            for duration in [0.0, 0.04, 0.12, 2.0] {
                let reduced = plan(MotionPreference::Reduced, kind, px(duration), curve);
                assert!(
                    !reduced.uses_spring(),
                    "({kind:?}, {curve:?}, {duration}s) kept its spring under reduced motion"
                );
            }
        }
    }
}

#[test]
fn reduced_motion_caps_a_fade_at_80ms() {
    let reduced = plan(
        MotionPreference::Reduced,
        MotionKind::Fade,
        px(0.5),
        Curve::EaseOut,
    );
    assert_eq!(reduced.duration(), REDUCED_CROSSFADE);

    let short = plan(
        MotionPreference::Reduced,
        MotionKind::Fade,
        px(0.02),
        Curve::EaseOut,
    );
    assert_eq!(short.duration(), px(0.02));
}

#[test]
fn user_directed_scrolling_is_not_shortened() {
    let reduced = plan(
        MotionPreference::Reduced,
        MotionKind::UserDirectedScroll,
        px(0.4),
        Curve::EaseOut,
    );
    assert!(!reduced.is_instant());
    assert_eq!(reduced.duration(), px(0.4));
}

#[test]
fn a_duration_grows_with_distance_and_stops_growing_at_the_span() {
    let (shortest, longest, span) = (px(0.045), px(0.120), 16.0);
    let at = |d: f64| duration_for(read(d), read(span), shortest, longest);

    assert_eq!(at(0.0), shortest, "a standing start is the floor");
    assert_eq!(at(span), longest, "a span-long move is the ceiling");
    assert_eq!(at(span * 4.0), longest);

    let mut previous = at(0.0);
    for i in 1..=64 {
        let next = at(span * f64::from(i) / 64.0);
        assert!(next >= previous - 1, "duration fell between samples");
        previous = next;
    }

    let quarter = at(span * 0.25) - shortest;
    let full = longest - shortest;
    assert!(
        (quarter - full / 2).abs() <= 1,
        "a quarter-span move spent {quarter} of the range rather than half of it"
    );
}

#[test]
fn a_degenerate_distance_is_the_floor_and_never_a_nan() {
    for bad in [read(0.0), read(-3.0), Reading::NotANumber, Reading::Infinite] {
        for span in [read(0.0), read(-1.0), Reading::NotANumber, read(16.0)] {
            let d = duration_for(bad, span, px(0.045), px(0.120));
            assert!((px(0.045)..=px(0.120)).contains(&d));
        }
    }
}

/// Frames at 120 Hz for a morph to settle.
fn frames_to_settle(motion: &mut InteractionMotion) -> u32 {
    let mut frames = 0;
    while motion.advance(FRAME) {
        frames += 1;
        assert!(frames < 10_000, "the morph never retired");
    }
    frames
}

#[test]
fn a_one_row_move_finishes_much_sooner_than_a_screen_long_one() {
    let mut short = InteractionMotion::new(MotionPreference::Full);
    short.set_selected(Some(0));
    short.set_selected(Some(1));
    let short_frames = frames_to_settle(&mut short);

    let mut long = InteractionMotion::new(MotionPreference::Full);
    long.set_selected(Some(0));
    long.set_selected(Some(40));
    let long_frames = frames_to_settle(&mut long);

    assert!(
        short_frames * 3 < long_frames * 2,
        "a one-row step took {short_frames} frames against {long_frames} for a forty-row one"
    );
    assert!(short_frames > 0);
}

#[test]
fn each_press_of_a_held_arrow_key_starts_a_fresh_short_move() {
    let mut motion = InteractionMotion::new(MotionPreference::Full);
    motion.set_selected(Some(0));
    motion.set_selected(Some(1));
    let first = frames_to_settle(&mut motion);

    motion.set_selected(Some(2));
    motion.advance(FRAME);
    motion.set_selected(Some(3));
    let interrupted = frames_to_settle(&mut motion);

    assert!(
        interrupted <= first + 1,
        "an interrupted single-row step took {interrupted} frames against {first}"
    );
}

#[test]
fn a_fade_ignores_the_distance_rather_than_inventing_one() {
    for pattern in [MotionPattern::HoverFeedback, MotionPattern::PressFeedback] {
        assert_eq!(pattern.distance_scaling(), None, "{pattern:?}");
        for distance in [0.0, 1.0, 500.0] {
            let scaled = pattern
                .plan_over(MotionPreference::Full, read(distance))
                .duration();
            assert_eq!(scaled, pattern.duration(), "{pattern:?}");
        }
    }
}

#[test]
fn the_pattern_table_matches_uxdd_10_3() {
    let expected = [
        (MotionPattern::HoverFeedback, 0.080, MotionKind::Fade),
        (MotionPattern::PressFeedback, 0.040, MotionKind::Fade),
        (MotionPattern::SelectionChange, 0.120, MotionKind::Layout),
        (MotionPattern::DensityChange, 0.120, MotionKind::Layout),
    ];
    let elsewhere = [
        (MotionPattern::FocusLight, 0.180, MotionKind::Layout),
        (MotionPattern::SummonsArrival, 0.260, MotionKind::Layout),
    ];
    assert_eq!(expected.len() + elsewhere.len(), MotionPattern::all().len());

    for (pattern, duration, kind) in expected.into_iter().chain(elsewhere) {
        assert_eq!(pattern.duration(), px(duration), "{pattern:?}");
        assert_eq!(pattern.kind(), kind, "{pattern:?}");
        assert_eq!(pattern.curve(), Curve::EaseOut, "{pattern:?}");
    }
}

#[test]
fn press_is_faster_than_release() {
    assert!(MotionPattern::PressFeedback.duration() < MotionPattern::HoverFeedback.duration());

    let mut motion = InteractionMotion::new(MotionPreference::Full);
    motion.set_pressed(Some(7));
    let down = run_to_rest(&mut motion);

    motion.set_pressed(None);
    let up = run_to_rest(&mut motion);

    assert!(down < up, "press took {down} frames, release {up}");
}

#[test]
fn the_density_pattern_and_the_density_transition_agree() {
    assert_eq!(
        MotionPattern::DensityChange.duration(),
        DensityTransition::DURATION
    );
    assert_eq!(MotionPattern::DensityChange.curve(), Curve::EaseOut);
}

#[test]
fn every_pattern_is_instant_or_capped_under_reduced_motion() {
    for pattern in MotionPattern::all() {
        let reduced = pattern.plan(MotionPreference::Reduced);
        assert!(!reduced.uses_spring(), "{pattern:?}");
        assert!(
            reduced.is_instant() || reduced.duration() <= REDUCED_CROSSFADE,
            "{pattern:?}: {reduced:?}"
        );
    }
}

#[test]
fn an_instant_plan_never_opens_an_animation_ticket() {
    let mut animation = Animation::new(MotionPlan::Instant);
    assert!(!animation.advance(FRAME));
    assert!(animation.is_complete(0));
    assert_eq!(animation.progress(0), MICRO);
}

#[test]
fn every_animation_terminates() {
    for plan in [
        MotionPlan::Instant,
        MotionPlan::Animate {
            duration: px(0.08),
            curve: Curve::EaseOut,
        },
        MotionPlan::Animate {
            duration: px(0.3),
            curve: Curve::Spring,
        },
        MotionPlan::Animate {
            duration: 0,
            curve: Curve::Spring,
        },
    ] {
        let mut animation = Animation::new(plan);
        let mut frames = 0;
        while animation.advance(FRAME) {
            frames += 1;
            assert!(frames < 10_000, "animation {plan:?} never terminated");
        }
        assert!(animation.is_complete(0));
    }
}

#[test]
fn progress_is_bounded_even_when_overshooting() {
    let mut animation = Animation::new(MotionPlan::Animate {
        duration: px(0.3),
        curve: Curve::Spring,
    });
    for _ in 0..200 {
        animation.advance(FRAME);
        let p = animation.progress(spring(animation.time() as f64 / 1e6));
        assert!((0..=px(1.2)).contains(&p), "progress {p} escaped its range");
    }
    assert_eq!(animation.progress(0), MICRO);
}

#[test]
fn the_spring_actually_overshoots_and_the_ease_does_not() {
    let overshoots = (1..100).any(|i| {
        let t = f64::from(i) / 100.0;
        Curve::Spring.apply(px(t), spring(t)) > MICRO
    });
    assert!(
        overshoots,
        "the spring never exceeds one, so it is not a spring"
    );

    let monotonic = (1..100).all(|i| Curve::EaseOut.apply(px(f64::from(i) / 100.0), 0) <= MICRO);
    assert!(monotonic, "the reduced-motion easing must not overshoot");
}

#[test]
fn retargeting_to_the_same_value_does_not_restart_the_animation() {
    let animate = MotionPlan::Animate {
        duration: px(0.08),
        curve: Curve::EaseOut,
    };
    let mut phase = Phase::settled(None);
    phase.set(Some(3), animate);

    let mut frames = 0;
    while phase.advance(FRAME) {
        phase.set(Some(3), animate);
        frames += 1;
        assert!(
            frames < 200,
            "re-asserting the same target kept the ticket open"
        );
    }
    assert!(!phase.is_animating());
    assert_eq!(phase.progress(0), MICRO);
}

#[test]
fn an_instant_plan_leaves_a_phase_with_no_ticket_at_all() {
    let mut phase = Phase::settled(None);
    phase.set(Some(3), MotionPlan::Instant);
    assert!(
        !phase.is_animating(),
        "an instant plan opened a ticket for at least one tick"
    );
    assert_eq!(phase.to(), Some(3));
    assert_eq!(
        phase.from(),
        Some(3),
        "an instant change has no origin left"
    );
    assert_eq!(phase.intensity(Some(3), 0), MICRO);
}

#[test]
fn a_retired_phase_is_indistinguishable_from_one_that_never_moved() {
    let animate = MotionPlan::Animate {
        duration: px(0.08),
        curve: Curve::EaseOut,
    };
    let mut moved = Phase::settled(None);
    moved.set(Some(1), animate);
    while moved.advance(FRAME) {}

    let never = Phase::settled(Some(1));
    assert_eq!(moved, never);
}

#[test]
fn intensity_hands_off_from_one_row_to_the_next() {
    let animate = MotionPlan::Animate {
        duration: px(0.08),
        curve: Curve::EaseOut,
    };
    let mut phase = Phase::settled(Some(1u64));
    assert_eq!(phase.intensity(Some(1), 0), MICRO);
    assert_eq!(phase.intensity(Some(2), 0), 0);

    phase.set(Some(2), animate);
    phase.advance(FRAME * 2);

    let leaving = phase.intensity(Some(1), 0);
    let arriving = phase.intensity(Some(2), 0);
    assert!(leaving > 0 && leaving < MICRO, "leaving {leaving}");
    assert!(arriving > 0 && arriving < MICRO, "arriving {arriving}");
    assert_eq!(
        leaving + arriving,
        MICRO,
        "{leaving} + {arriving} is not a cross-fade"
    );

    while phase.advance(FRAME) {}
    assert_eq!(phase.intensity(Some(1), 0), 0);
    assert_eq!(phase.intensity(Some(2), 0), MICRO);
}

#[test]
fn syncing_unchanged_interaction_state_starts_nothing() {
    let mut selection = Selection::new();
    selection.select_only(4);
    let interaction = Interaction {
        hovered: Some(4),
        focused: Some(4),
        selection: Some(&selection),
        pressed: None,
        marks: None,
    };
    let mut motion = InteractionMotion::new(MotionPreference::Full);
    motion.sync(interaction);
    run_to_rest(&mut motion);

    for _ in 0..100 {
        motion.sync(interaction);
        assert!(
            !motion.is_animating(),
            "an unchanged sync opened an animation ticket"
        );
    }
}

#[test]
fn the_whole_interaction_sequence_returns_to_rest() {
    let mut motion = InteractionMotion::new(MotionPreference::Full);
    for step in 0..40u64 {
        motion.set_hovered(Some(step));
        motion.set_pressed(Some(step));
        motion.advance(FRAME);
        motion.set_pressed(None);
        motion.set_selected(Some(step));
        motion.advance(FRAME);
    }
    motion.set_hovered(None);
    motion.set_selected(None);
    motion.begin_density(Density::Default, Density::Compact);

    let frames = run_to_rest(&mut motion);
    assert!(frames > 0, "nothing animated, so this proves nothing");
    assert!(motion.density().is_none(), "the density ticket outlived it");
}

#[test]
fn under_reduced_motion_a_layout_change_opens_no_ticket_at_all() {
    let mut motion = InteractionMotion::new(MotionPreference::Reduced);
    motion.set_selected(Some(9));
    assert!(!motion.is_animating(), "selection opened a ticket");
    assert!(
        motion
            .begin_density(Density::Default, Density::Compact)
            .is_none(),
        "the density change was animated under reduced motion"
    );
    assert!(!motion.is_animating(), "density opened a ticket");

    motion.set_hovered(Some(9));
    assert!(motion.is_animating());
    run_to_rest(&mut motion);
}

#[test]
fn concurrent_animations_run_concurrently_rather_than_in_sequence() {
    let mut motion = InteractionMotion::new(MotionPreference::Full);
    motion.set_selected(Some(1));
    motion.set_hovered(Some(1));

    let mut frames = 0;
    while motion.advance(FRAME) {
        frames += 1;
        assert!(frames < 1000, "never retired");
    }

    let concurrent = (MotionPattern::SelectionChange.duration() + FRAME - 1) / FRAME;
    let sequential =
        concurrent + (MotionPattern::HoverFeedback.duration() + FRAME - 1) / FRAME;
    assert!(
        frames <= concurrent,
        "took {frames} frames; the longer animation alone is {concurrent} and running \
         them one after the other would be about {sequential} -- these did not overlap"
    );
    assert_eq!(motion.hover_alpha(1), MICRO);
}

#[test]
fn begin_density_replaces_a_transition_rather_than_stacking_them() {
    let mut motion = InteractionMotion::new(MotionPreference::Full);
    for _ in 0..20 {
        motion.begin_density(Density::Default, Density::Compact);
        motion.begin_density(Density::Compact, Density::Default);
    }
    assert!(motion.density().is_some());
    run_to_rest(&mut motion);
}

#[test]
fn a_density_change_to_the_same_density_is_not_an_animation() {
    let mut motion = InteractionMotion::new(MotionPreference::Full);
    assert!(motion
        .begin_density(Density::Default, Density::Default)
        .is_none());
    assert!(!motion.is_animating());
}

#[test]
fn a_density_morph_keeps_the_anchor_row_at_the_top_of_the_viewport_every_frame() {
    let scale = read(1.0);
    let anchor_row = 500_000u64;
    let (from, to) = (Density::Default, Density::Compact);
    let from_height = from.row_height_px(scale, read(1.0));
    let within = px(7.0);

    let mut motion = InteractionMotion::new(MotionPreference::Full);
    assert!(motion.begin_density(from, to).is_some());

    let mut frames = 0;
    let mut last_height;
    loop {
        let height = match motion.density() {
            Some(transition) => transition.row_height_px(scale, read(1.0)),
            None => to.row_height_px(scale, read(1.0)),
        };
        let scroll = DensityTransition::rebase_scroll(anchor_row, within, from_height, height, 0);

        let row_at_top = (scroll / (i128::from(height) * MICRO)) as u64;
        assert_eq!(
            row_at_top, anchor_row,
            "frame {frames}: row height {height} put row {row_at_top} at the top"
        );

        let fraction = (scroll - i128::from(anchor_row) * i128::from(height) * MICRO) as f64
            / 1e6
            / f64::from(height);
        assert!(
            (fraction - 7.0 / f64::from(from_height)).abs() < 1e-6,
            "frame {frames}: the scroll sat {fraction} of the way into the anchor row"
        );

        last_height = height;
        frames += 1;
        assert!(frames < 1000, "the morph never retired");
        if !motion.advance(FRAME) {
            break;
        }
    }

    assert!(frames > 1);
    assert_eq!(
        last_height,
        to.row_height_px(scale, read(1.0)),
        "the morph must land exactly on the target height"
    );
    assert!(motion.density().is_none());

    let naive = anchor_row as f64 * f64::from(from_height) + 7.0;
    let naive_row = (naive / f64::from(to.row_height_px(scale, read(1.0)))) as u64;
    assert!(naive_row.abs_diff(anchor_row) > 10_000);
}

#[test]
fn a_settled_selection_draws_at_its_own_row_with_no_offset() {
    let mut motion = InteractionMotion::new(MotionPreference::Full);
    assert!(motion.selection_draw(40).is_none(), "nothing is selected");

    motion.set_selected(Some(12));
    run_to_rest(&mut motion);

    let draw = motion.selection_draw(40).unwrap();
    assert_eq!(draw.row, 12);
    assert_eq!(draw.offset_rows, 0);
    assert_eq!(draw.alpha, MICRO);
}

#[test]
fn a_nearby_selection_change_slides_and_lands_exactly_on_the_target() {
    let mut motion = InteractionMotion::new(MotionPreference::Full);
    motion.set_selected(Some(10));
    run_to_rest(&mut motion);
    motion.set_selected(Some(14));

    let start = motion.selection_draw(40).unwrap();
    assert_eq!(start.row, 14);
    assert_eq!(start.alpha, MICRO, "a geometry morph does not fade");
    assert!(
        (start.offset_rows - px(-4.0)).abs() < px(1e-5),
        "the region should start four rows above its target, got {}",
        start.offset_rows
    );

    let mut previous = start.offset_rows;
    while motion.advance(FRAME) {
        let draw = motion.selection_draw(40).unwrap();
        assert_eq!(draw.row, 14);
        assert!(
            draw.offset_rows >= previous - px(1e-5),
            "the slide reversed: {previous} then {}",
            draw.offset_rows
        );
        previous = draw.offset_rows;
    }
    let end = motion.selection_draw(40).unwrap();
    assert_eq!(end.offset_rows, 0, "the morph must land exactly");
}

#[test]
fn a_selection_change_further_than_the_viewport_fades_instead_of_sliding() {
    let mut motion = InteractionMotion::new(MotionPreference::Full);
    motion.set_selected(Some(3));
    run_to_rest(&mut motion);
    motion.set_selected(Some(900_000));

    let draw = motion.selection_draw(40).unwrap();
    assert_eq!(draw.row, 900_000);
    assert_eq!(draw.offset_rows, 0, "it must not try to travel");
    assert!(draw.alpha < MICRO, "it must fade in instead");

    let mut wide = InteractionMotion::new(MotionPreference::Full);
    wide.set_selected(Some(3));
    run_to_rest(&mut wide);
    wide.set_selected(Some(43));
    assert_ne!(wide.selection_draw(40).unwrap().offset_rows, 0);
    assert_eq!(wide.selection_draw(39).unwrap().offset_rows, 0);
}

#[test]
fn selecting_from_nothing_fades_in_and_deselecting_fades_out() {
    let mut motion = InteractionMotion::new(MotionPreference::Full);

    motion.set_selected(Some(5));
    assert_eq!(
        motion.selection_draw(40).unwrap().alpha,
        0,
        "fades in from nothing"
    );
    let mut previous = 0;
    while motion.advance(FRAME) {
        let draw = motion.selection_draw(40).unwrap();
        assert_eq!(draw.row, 5);
        assert_eq!(draw.offset_rows, 0, "there was nowhere to travel from");
        assert!(draw.alpha >= previous, "the fade-in reversed");
        previous = draw.alpha;
    }
    assert_eq!(motion.selection_draw(40).unwrap().alpha, MICRO);

    motion.set_selected(None);
    let leaving = motion.selection_draw(40).unwrap();
    assert_eq!(
        leaving.row, 5,
        "the outgoing row is what is still on screen"
    );
    assert_eq!(leaving.alpha, MICRO, "fades out from fully present");
    let mut previous = MICRO;
    while motion.advance(FRAME) {
        let draw = motion.selection_draw(40).unwrap();
        assert_eq!(
            draw.row, 5,
            "the region must not jump to a row nothing selected"
        );
        assert!(draw.alpha <= previous, "the fade-out reversed");
        previous = draw.alpha;
    }
    assert!(previous < MICRO, "the fade-out never actually faded");
    assert!(
        motion.selection_draw(40).is_none(),
        "a deselected list must draw no selection region at all"
    );
}

#[test]
fn the_selection_swell_peaks_on_departure_and_is_zero_under_reduce_motion() {
    let mut full = InteractionMotion::new(MotionPreference::Full);
    full.set_selected(Some(0));
    while full.advance(FRAME) {}
    assert_eq!(full.selection_swell(), 0, "a settled list must not swell");

    full.set_selected(Some(9));
    let departure = full.selection_swell();
    assert!(
        departure > px(0.9),
        "the flare is on the departure: {departure}"
    );

    let mut previous = departure;
    while full.advance(FRAME) {
        let now = full.selection_swell();
        assert!(now <= previous, "the swell rose again: {previous}, {now}");
        previous = now;
    }
    assert_eq!(full.selection_swell(), 0);

    let mut reduced = InteractionMotion::new(MotionPreference::Reduced);
    reduced.set_selected(Some(0));
    reduced.set_selected(Some(9));
    assert!(!reduced.is_animating());
    assert_eq!(reduced.selection_swell(), 0);
}

#[test]
fn an_animation_takes_the_same_wall_clock_time_at_any_frame_rate() {
    let elapsed_to_settle = |hz: f64| -> Micros {
        let mut motion = InteractionMotion::new(MotionPreference::Full);
        motion.set_selected(Some(0));
        let _ = motion.advance(0);
        motion.set_selected(Some(8));
        assert!(motion.is_animating(), "nothing to measure");

        let dt = px(1.0 / hz);
        let mut elapsed = 0;
        let mut frames = 0u32;
        while motion.advance(dt) {
            elapsed += dt;
            frames += 1;
            assert!(frames < 100_000, "an animation never retired at {hz} Hz");
        }
        elapsed + dt
    };

    let fast = elapsed_to_settle(3937.0);
    let paced = elapsed_to_settle(119.0);

    let tolerance = px(1.0 / 119.0);
    assert!(
        (fast - paced).abs() <= tolerance,
        "the same animation took {fast} at 3937 Hz and {paced} at 119 Hz"
    );
}

#[test]
fn the_phase_advances_without_ever_holding_the_frame_loop_open() {
    let mut motion = InteractionMotion::new(MotionPreference::Full);
    assert!(!motion.is_animating());

    let before = motion.phase();
    let still_running = motion.advance(CYCLE_SECONDS / 4);

    assert!(!still_running);
    assert!(!motion.is_animating(), "the cycle opened a ticket");
    assert!(
        (motion.phase() - before - px(0.25)).abs() < px(1e-5),
        "a quarter of a cycle moved the phase to {}",
        motion.phase()
    );
}

#[test]
fn the_phase_wraps_rather_than_running_away() {
    let mut motion = InteractionMotion::new(MotionPreference::Full);
    for _ in 0..1000 {
        motion.advance(CYCLE_SECONDS * 7 / 10);
        assert!(
            (0..MICRO).contains(&motion.phase()),
            "the phase left its range: {}",
            motion.phase()
        );
    }
}

#[test]
fn reduce_motion_pins_the_phase_rather_than_freezing_it() {
    let mut reduced = InteractionMotion::new(MotionPreference::Reduced);
    let mut full = InteractionMotion::new(MotionPreference::Full);
    for _ in 0..5 {
        reduced.advance(CYCLE_SECONDS / 8);
        full.advance(CYCLE_SECONDS / 8);
    }

    assert_eq!(reduced.phase(), PINNED_PHASE);
    assert!(full.phase() != PINNED_PHASE);
    assert_eq!(reduced.drive(0).phase, PINNED_PHASE);
}

#[test]
fn the_focus_lamp_arrives_without_travelling_under_reduced_motion() {
    let mut reduced = InteractionMotion::new(MotionPreference::Reduced);
    reduced.set_focused(Some(3));
    reduced.set_focused(Some(40));
    assert_eq!(
        reduced.focus_light_draw(),
        Some(FocusLightDraw {
            row: 40,
            offset_rows: 0,
        }),
        "the lamp did not arrive at the focused row instantly"
    );
    assert!(!reduced.is_animating());
    for _ in 0..12 {
        reduced.advance(px(0.016));
        let draw = reduced.focus_light_draw().unwrap();
        assert_eq!(draw.offset_rows, 0);
        assert_eq!(draw.row, 40);
    }

    let mut full = InteractionMotion::new(MotionPreference::Full);
    full.set_focused(Some(3));
    full.set_focused(Some(40));
    let travelling = full.focus_light_draw().unwrap();
    assert_eq!(travelling.row, 40);
    assert!(travelling.offset_rows.abs() > 0);
    assert!(full.is_animating());
}

#[test]
fn the_lamp_rests_where_the_layout_put_it_and_not_where_motion_stopped() {
    let mut motion = InteractionMotion::new(MotionPreference::Full);
    motion.set_focused(Some(0));
    motion.set_focused(Some(20));
    motion.advance(px(0.030));
    let mid = motion.focus_light_draw().unwrap();
    assert!(mid.offset_rows.abs() > 0);

    let mut reduced = InteractionMotion::new(MotionPreference::Reduced);
    reduced.set_focused(Some(20));
    assert_eq!(reduced.focus_light_draw().unwrap().offset_rows, 0);
}

#[test]
fn the_lamp_goes_out_and_comes_up_rather_than_appearing() {
    let mut motion = InteractionMotion::new(MotionPreference::Full);
    assert_eq!(motion.focus_light_gain(), 0, "a lamp burns with no focus");

    motion.set_focused(Some(5));
    assert!(
        motion.focus_light_gain() < MICRO,
        "the lamp came up at full strength instead of ramping"
    );
    for _ in 0..24 {
        motion.advance(px(0.016));
    }
    assert_eq!(motion.focus_light_gain(), MICRO);
    assert!(!motion.is_animating(), "the lamp never settled");

    motion.set_focused(Some(9));
    motion.advance(px(0.016));
    assert_eq!(
        motion.focus_light_gain(),
        MICRO,
        "the lamp dimmed while merely moving"
    );

    motion.set_focused(None);
    motion.advance(px(0.016));
    let going = motion.focus_light_gain();
    assert!(
        going > 0 && going < MICRO,
        "the lamp did not ramp down on the way out, it was switched off: {going}"
    );
}

#[test]
fn the_lamp_and_the_selection_are_separate_lights_to_aim() {
    let mut motion = InteractionMotion::new(MotionPreference::Full);
    motion.set_selected(Some(2));
    motion.set_focused(Some(2));
    for _ in 0..24 {
        motion.advance(px(0.016));
    }

    motion.set_focused(Some(11));
    assert_eq!(
        motion.focus_light_draw().map(|d| d.row),
        Some(11),
        "the lamp did not follow focus"
    );
    assert_eq!(
        motion.selection_draw(40).map(|d| d.row),
        Some(2),
        "moving focus moved the selection region, which is a different thing"
    );
}

#[test]
fn one_step_of_the_longest_move_brings_everything_to_rest() {
    let mut motion = InteractionMotion::new(MotionPreference::Full);
    motion.set_hovered(Some(1));
    motion.set_pressed(Some(2));
    motion.set_selected(Some(3));
    motion.set_focused(Some(4));
    let _ = motion.begin_density(Density::Default, Density::Compact);
    assert!(motion.is_animating());
    assert!(!motion.advance(LONGEST_MOVE));
    assert!(!motion.is_animating());
}

#[test]
fn reduced_motion_never_moves_the_selection_or_the_lamp() {
    let mut motion = InteractionMotion::new(MotionPreference::Reduced);
    for row in [Some(3), Some(900), None, Some(4)] {
        motion.set_selected(row);
        motion.set_focused(row);
        assert_eq!(motion.selection_swell(), 0);
        if let Some(draw) = motion.selection_draw(20) {
            assert_eq!((draw.offset_rows, draw.alpha), (0, MICRO));
        }
        if let Some(draw) = motion.focus_light_draw() {
            assert_eq!(draw.offset_rows, 0);
        }
        assert_eq!(
            motion.focus_light_gain(),
            if row.is_some() { MICRO } else { 0 }
        );
    }
    assert_eq!(motion.begin_density(Density::Default, Density::Compact), None);
    assert_eq!(motion.density(), None);
}

#[test]
fn the_patterns_are_listed_in_one_order() {
    assert_eq!(
        MotionPattern::all(),
        [
            MotionPattern::HoverFeedback,
            MotionPattern::PressFeedback,
            MotionPattern::SelectionChange,
            MotionPattern::DensityChange,
            MotionPattern::FocusLight,
            MotionPattern::SummonsArrival,
        ]
    );
}
