use qs_ui::fenwick::{Fenwick, Heights};
use qs_ui::scroll::{rebase_to_viewport, visible_range, FlingParams, ScrollState};
use qs_ui::units::{Micros, Reading, MICRO};
use std::sync::Arc;

const ROWS: u64 = 1_000_000;
const ROW_H: u32 = 28;
const VIEWPORT: u32 = 1080;

fn px(x: f64) -> Micros {
    (x * 1e6).round() as Micros
}

fn read(x: f64) -> Reading {
    Reading::Finite(px(x))
}

fn uniform() -> Heights {
    Heights::Uniform(ROW_H)
}

fn content() -> u64 {
    uniform().total(ROWS)
}

fn step(s: &mut ScrollState, dt: f64) -> bool {
    let friction: f64 = 0.001;
    let decay = friction.powf(dt);
    let glide = (decay - 1.0) / friction.ln();
    s.advance(read(dt), px(decay), px(glide), content(), VIEWPORT)
}

#[test]
fn offsets_stay_exact_at_the_bottom_of_a_million_rows() {
    let heights = uniform();
    let last_top = px(heights.offset_of(ROWS - 1) as f64);
    assert_eq!(last_top, px(27_999_972.0));

    for fraction in [0.0, 0.25, 0.5, 0.75] {
        let offset = last_top + px(fraction);
        let rebased = rebase_to_viewport(last_top, offset);
        assert!(
            (rebased + px(fraction)).abs() < px(0.001),
            "rebasing lost the fractional part at the bottom of the corpus"
        );
    }
}

#[test]
fn rebasing_is_what_makes_f32_safe() {
    let content_y = 27_999_972.0f64;
    let scroll = 27_999_971.5f64;

    let correct = rebase_to_viewport(px(content_y), px(scroll));
    assert!((correct - px(0.5)).abs() < px(0.001));

    let naive = content_y as f32 - scroll as f32;
    assert!((naive - 0.5).abs() > 0.1);
}

#[test]
fn scrolling_clamps_at_both_ends() {
    let mut s = ScrollState::new();
    s.scroll_by(read(-1000.0), content(), VIEWPORT);
    assert_eq!(s.offset(), 0);

    s.scroll_by(Reading::Finite(Micros::MAX), content(), VIEWPORT);
    assert_eq!(s.offset(), ScrollState::max_offset(content(), VIEWPORT));
}

#[test]
fn a_non_finite_offset_does_not_poison_the_scroll_state() {
    let mut s = ScrollState::new();
    s.set_offset(Reading::NotANumber, content(), VIEWPORT);
    assert_eq!(s.offset(), 0);
    s.set_offset(Reading::Infinite, content(), VIEWPORT);
    assert!(s.offset() <= ScrollState::max_offset(content(), VIEWPORT));
}

#[test]
fn content_shorter_than_the_viewport_pins_to_zero() {
    let short = 100u64;
    assert_eq!(ScrollState::max_offset(short, VIEWPORT), 0);
    let mut s = ScrollState::new();
    s.scroll_by(read(500.0), short, VIEWPORT);
    assert_eq!(s.offset(), 0);
}

#[test]
fn a_fling_settles_and_stops_rather_than_asymptoting() {
    let mut s = ScrollState::new();
    s.set_offset(read(1_000_000.0), content(), VIEWPORT);
    s.fling(read(8000.0));

    let mut frames = 0;
    while step(&mut s, 1.0 / 120.0) {
        frames += 1;
        assert!(frames < 100_000, "the fling never terminated");
    }
    assert!(!s.is_animating());
    assert!(frames > 10, "the fling ended suspiciously fast");
}

#[test]
fn hitting_an_end_stop_kills_the_velocity_in_the_same_step() {
    let mut s = ScrollState::new();
    s.set_offset(read(10.0), content(), VIEWPORT);
    s.fling(read(-50_000.0));

    step(&mut s, 1.0 / 60.0);
    assert_eq!(s.offset(), 0);
    assert_eq!(s.velocity(), 0, "velocity must not survive the clamp");
}

#[test]
fn fling_distance_does_not_depend_on_the_frame_rate() {
    let distance = |dt: f64| {
        let mut s = ScrollState::new();
        s.set_offset(read(1_000_000.0), content(), VIEWPORT);
        s.fling(read(10_000.0));
        let start = s.offset();
        while step(&mut s, dt) {}
        (s.offset() - start) as f64 / 1e6
    };

    let at_60 = distance(1.0 / 60.0);
    let at_120 = distance(1.0 / 120.0);
    let error = (at_60 - at_120).abs() / at_60.max(1.0);
    assert!(
        error < 0.02,
        "fling distance is frame-rate dependent: {at_60} vs {at_120}"
    );
}

#[test]
fn direct_manipulation_cancels_momentum() {
    let mut s = ScrollState::new();
    s.set_offset(read(5000.0), content(), VIEWPORT);
    s.fling(read(9000.0));
    assert!(s.is_animating());
    s.scroll_by(read(100.0), content(), VIEWPORT);
    assert!(
        !s.is_animating(),
        "grabbing the scrollbar must stop the fling"
    );
}

#[test]
fn a_pathological_fling_velocity_is_clamped() {
    let mut s = ScrollState::new();
    s.fling(Reading::Infinite);
    assert_eq!(s.velocity(), 0);
    s.fling(Reading::Finite(1_000_000_000_000_000_000_000_000_000_000_000_000));
    assert!(s.velocity().abs() <= FlingParams::default().max_speed);
}

#[test]
fn a_step_that_is_no_length_of_time_changes_nothing() {
    let mut s = ScrollState::new();
    s.set_offset(read(5000.0), content(), VIEWPORT);
    s.fling(read(9000.0));
    let before = s;
    assert!(s.advance(Reading::NotANumber, MICRO, 0, content(), VIEWPORT));
    assert!(s.advance(read(-1.0), MICRO, 0, content(), VIEWPORT));
    assert_eq!(s, before);
    s.stop();
    assert!(!s.advance(read(1.0), MICRO, 0, content(), VIEWPORT));
}

#[test]
fn one_step_travels_the_glide_and_keeps_the_decay() {
    let mut s = ScrollState::new();
    s.set_offset(read(5000.0), content(), VIEWPORT);
    s.fling(read(1000.0));
    assert!(s.advance(read(0.5), px(0.25), px(0.5), content(), VIEWPORT));
    assert_eq!(s.offset(), px(5500.0));
    assert_eq!(s.velocity(), px(250.0));
}

#[test]
fn the_visible_count_honours_the_virtualization_bound() {
    let heights = uniform();
    let bound = (VIEWPORT / ROW_H) + 2;

    for offset in [0.0, 1.0, 13.7, 999_999.5, 27_998_000.0] {
        let (range, _) = visible_range(px(offset), VIEWPORT, ROWS, &heights);
        assert!(
            range.count <= bound + 1,
            "offset {offset} produced {} rows, bound is {bound}",
            range.count
        );
        assert!(range.end() <= ROWS);
    }
}

#[test]
fn the_visible_range_covers_the_viewport_with_no_gap() {
    let heights = uniform();
    for offset in [0.0, 5.0, 27.9, 28.0, 100_000.3] {
        let (range, within) = visible_range(px(offset), VIEWPORT, ROWS, &heights);
        let covered = u64::from(range.count) * u64::from(ROW_H);
        assert!(
            covered >= u64::from(VIEWPORT) + (within / MICRO) as u64,
            "offset {offset} left a gap at the bottom"
        );
    }
}

#[test]
fn the_variable_height_path_agrees_with_the_uniform_one() {
    let count = 10_000u64;
    let tree = Fenwick::from_heights(&vec![ROW_H; count as usize]);
    let variable = Heights::Variable(Arc::new(tree));
    let uniform = Heights::Uniform(ROW_H);

    for offset in [0.0, 27.0, 28.0, 5000.0, 100_000.0] {
        let (a, wa) = visible_range(px(offset), VIEWPORT, count, &uniform);
        let (b, wb) = visible_range(px(offset), VIEWPORT, count, &variable);
        assert_eq!(a.first, b.first, "offset {offset}");
        assert_eq!(wa, wb);
        assert!(b.count >= (VIEWPORT / ROW_H));
    }
}

#[test]
fn an_empty_corpus_produces_an_empty_range() {
    let (range, within) = visible_range(0, VIEWPORT, 0, &uniform());
    assert_eq!(range.count, 0);
    assert_eq!(within, 0);

    let (range, _) = visible_range(0, 0, ROWS, &uniform());
    assert_eq!(range.count, 0);
}

#[test]
fn growing_content_keeps_the_anchor_row_in_place() {
    let heights = uniform();
    let mut s = ScrollState::new();
    s.set_offset(read(280_000.0), content(), VIEWPORT);

    let (range, within) = visible_range(s.offset(), VIEWPORT, ROWS, &heights);
    let anchor = range.first;

    s.rebase_for_content_change(
        anchor,
        Reading::Finite(-within),
        &heights,
        content() * 2,
        VIEWPORT,
    );

    let (after, _) = visible_range(s.offset(), VIEWPORT, ROWS * 2, &heights);
    assert_eq!(after.first, anchor, "the anchor row drifted");
}

#[test]
fn custom_physics_bound_the_speed_of_a_fling() {
    let mut s = ScrollState::with_params(FlingParams {
        friction: px(0.5),
        stop_speed: px(1.0),
        max_speed: px(100.0),
    });
    s.fling(read(5000.0));
    assert_eq!(s.velocity(), px(100.0));
}

#[test]
fn a_step_in_two_parts_goes_as_far_as_the_whole() {
    let flung = || {
        let mut s = ScrollState::new();
        s.set_offset(read(10_000.0), content(), VIEWPORT);
        s.fling(read(2_000.0));
        s
    };
    let mut parts = flung();
    assert!(parts.advance(read(0.01), 900_000, 9_500, content(), VIEWPORT));
    assert!(parts.advance(read(0.01), 800_000, 8_000, content(), VIEWPORT));
    let mut whole = flung();
    // 0.9 * 0.8 of the speed is left, after 0.0095 + 0.9 * 0.008 seconds of it.
    assert!(whole.advance(read(0.02), 720_000, 16_700, content(), VIEWPORT));
    assert_eq!(whole.offset(), px(10_000.0 + 2_000.0 * 0.016_7));
    assert!((parts.offset() - whole.offset()).abs() <= 2_002);
    assert_eq!(parts.velocity(), whole.velocity());
}

#[test]
fn heights_of_more_rows_than_there_are_still_show_the_rows_there_are() {
    let heights = Heights::Variable(Arc::new(Fenwick::from_heights(&[20; 50])));
    let (range, clipped) = visible_range(px(40.0), 1_000, 10, &heights);
    assert_eq!((range.first, range.count), (2, 8));
    assert_eq!(clipped, 0);
}
