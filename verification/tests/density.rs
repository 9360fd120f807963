use qs_ui::density::{
    clamp_text_scale, ease_out_cubic, sane_scale, Density, DensityTransition, MAX_TEXT_SCALE,
    MIN_TEXT_SCALE,
};
use qs_ui::units::{Micros, Reading, MICRO};

fn px(x: f64) -> Micros {
    (x * 1e6).round() as Micros
}

fn read(x: f64) -> Reading {
    Reading::Finite(px(x))
}

#[test]
fn densities_match_the_data_model() {
    assert_eq!(Density::Compact.base_height(), px(24.0));
    assert_eq!(Density::Default.base_height(), px(28.0));
    assert_eq!(Density::Compact.base_font_size(), px(13.0));
    assert_eq!(Density::Compact.row_height_px(read(1.0), read(1.0)), 24);
    assert_eq!(Density::Default.row_height_px(read(1.0), read(1.0)), 28);
}

#[test]
fn density_names_round_trip_for_the_bench_report() {
    for d in [Density::Compact, Density::Default] {
        assert_eq!(Density::parse(d.as_str()), Some(d));
    }
    assert_eq!(Density::parse("comfortable"), None, "deferred to M1");
}

#[test]
fn a_density_name_is_read_whatever_its_case_and_the_space_around_it() {
    assert_eq!(Density::parse("  CompAct\t"), Some(Density::Compact));
    assert_eq!(Density::Compact.other(), Density::Default);
}

#[test]
fn row_height_grows_with_the_text_scale() {
    let base = Density::Default.row_height_px(read(1.0), read(1.0));
    let large = Density::Default.row_height_px(read(1.0), read(2.0));
    assert_eq!(large, base * 2);

    let font_base = Density::Default.font_size_px(read(1.0), read(1.0));
    let font_large = Density::Default.font_size_px(read(1.0), read(2.0));
    assert!((font_large - font_base * 2).abs() < px(0.01));
}

#[test]
fn row_heights_are_whole_physical_pixels() {
    for scale in [1.0, 1.25, 1.5, 1.75, 2.0, 2.5, 3.0] {
        for text in [1.0, 1.15, 1.5, 2.0] {
            let h = Density::Default.row_height_px(read(scale), read(text));
            assert!(h >= 1);
        }
    }
    assert_eq!(Density::Default.row_height_px(read(1.25), read(1.15)), 40);
}

#[test]
fn an_absurd_text_scale_is_clamped_rather_than_honoured() {
    assert_eq!(clamp_text_scale(read(100.0)), MAX_TEXT_SCALE);
    assert_eq!(clamp_text_scale(read(0.01)), MIN_TEXT_SCALE);
    assert_eq!(clamp_text_scale(Reading::NotANumber), px(1.0));
    assert_eq!(clamp_text_scale(Reading::Infinite), MAX_TEXT_SCALE);
}

#[test]
fn a_broken_device_scale_falls_back_to_1x_instead_of_dividing_by_zero() {
    assert_eq!(Density::Default.row_height_px(read(0.0), read(1.0)), 28);
    assert_eq!(
        Density::Default.row_height_px(Reading::NotANumber, read(1.0)),
        28
    );
    assert_eq!(Density::Default.row_height_px(read(-2.0), read(1.0)), 28);
}

#[test]
fn a_transition_completes_and_lands_exactly_on_the_target_height() {
    let mut t = DensityTransition::new(Density::Default, Density::Compact);
    assert_eq!(t.row_height_px(read(1.0), read(1.0)), 28);

    let mut steps = 0;
    while t.advance(px(1.0 / 120.0)) {
        steps += 1;
        assert!(steps < 1000, "the transition never finished");
    }
    assert!(t.is_complete());
    assert_eq!(
        t.row_height_px(read(1.0), read(1.0)),
        24,
        "must land exactly on the target"
    );
}

#[test]
fn density_change_keeps_the_anchor_row_under_the_pointer() {
    let anchor_row = 500_000u64;
    let anchor_viewport_y = px(300.0);

    let new_scroll = DensityTransition::rebase_scroll(anchor_row, 0, 28, 24, anchor_viewport_y);

    let expected = anchor_row as i128 * 24 * MICRO - anchor_viewport_y;
    assert!((new_scroll - expected).abs() < px(0.001));

    let naive = anchor_row as i128 * 28 * MICRO - anchor_viewport_y;
    assert!(naive - new_scroll > px(1_000_000.0));
}

#[test]
fn rebasing_never_produces_a_negative_scroll() {
    let scroll = DensityTransition::rebase_scroll(0, 0, 28, 24, px(500.0));
    assert!(scroll >= 0);
}

#[test]
fn the_easing_curve_is_bounded_and_monotonic() {
    assert_eq!(ease_out_cubic(0), 0);
    assert_eq!(ease_out_cubic(px(1.0)), px(1.0));
    assert_eq!(ease_out_cubic(px(-5.0)), 0);
    assert_eq!(ease_out_cubic(px(5.0)), px(1.0));
    assert_eq!(ease_out_cubic(px(0.5)), px(0.875));

    let mut last = 0;
    for i in 0..=100 {
        let v = ease_out_cubic(px(f64::from(i) / 100.0));
        assert!(v >= last);
        last = v;
    }
}

#[test]
fn an_infinite_scale_is_taken_for_one() {
    assert_eq!(sane_scale(Reading::Infinite), MICRO);
    assert_eq!(sane_scale(Reading::NegativeInfinite), MICRO);
    assert_eq!(sane_scale(Reading::NotANumber), MICRO);
    assert_eq!(
        Density::Default.row_height_px(Reading::Infinite, read(1.0)),
        28
    );
    assert_eq!(
        Density::Compact.font_size_px(Reading::Infinite, read(1.0)),
        px(13.0)
    );
}

#[test]
fn a_point_inside_the_anchor_row_keeps_its_place_too() {
    let scroll = DensityTransition::rebase_scroll(1000, px(14.0), 28, 24, px(300.0));
    assert_eq!(scroll, px(1000.0 * 24.0 + 12.0 - 300.0));
    assert_eq!(
        DensityTransition::rebase_scroll(1000, px(14.0), 0, 24, px(300.0)),
        px(1000.0 * 24.0 + 14.0 - 300.0)
    );
}
