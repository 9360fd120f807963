use qs_ui::column_layout::ColumnLayout;
use qs_ui::units::Micros;

fn px(x: f64) -> Micros {
    (x * 1e6).round() as Micros
}

/// 300-wide columns, 4 gap, in a 1000-wide surface: 3.28 columns fit.
fn layout(count: usize) -> ColumnLayout {
    ColumnLayout::new(px(1000.0), px(300.0), px(4.0), count)
}

#[test]
fn bands_are_laid_out_left_to_right_with_the_gap_between_them() {
    let l = layout(3);
    assert_eq!(l.band(0).unwrap().x, 0);
    assert_eq!(l.band(1).unwrap().x, px(304.0));
    assert_eq!(l.band(2).unwrap().x, px(608.0));
    assert_eq!(l.band(3), None);
    assert_eq!(l.content_width(), px(908.0));
}

#[test]
fn everything_fitting_means_nothing_scrolls() {
    let l = layout(3);
    assert_eq!(l.max_scroll(), 0);
    assert_eq!(l.clamp_scroll(px(500.0)), 0);
    assert_eq!(l.scroll_to_show(2, 0), 0, "a visible column moved");
}

#[test]
fn scrolling_follows_focus_minimally_rather_than_recentring() {
    let l = layout(6);
    let last = l.band(5).unwrap();
    let scroll = l.scroll_to_show(5, 0);
    assert_eq!(scroll, last.right() - l.surface_width);
    assert_eq!(scroll, l.max_scroll(), "the last column pins to the end");

    assert_eq!(l.scroll_to_show(4, scroll), scroll);
}

#[test]
fn scrolling_back_to_a_column_off_the_left_edge_shows_its_left_edge() {
    let l = layout(6);
    let scroll = l.max_scroll();
    let back = l.scroll_to_show(0, scroll);
    assert_eq!(back, 0);
    assert_eq!(l.band(0).unwrap().x, back, "column 0 is not flush left");
}

#[test]
fn a_column_wider_than_the_surface_is_clamped_so_it_can_always_be_shown() {
    let l = ColumnLayout::new(px(400.0), px(900.0), px(4.0), 3);
    assert_eq!(l.column_width, px(400.0));
    let scroll = l.scroll_to_show(2, 0);
    assert!(scroll <= l.max_scroll());
    assert_eq!(l.scroll_to_show(2, scroll), scroll, "it did not settle");
}

#[test]
fn a_half_visible_column_is_still_laid_out() {
    let l = layout(6);
    let visible = l.visible(0);
    assert_eq!(visible.start, 0);
    assert!(
        visible.end >= 4,
        "the column straddling the right edge was dropped: {visible:?}"
    );
}

#[test]
fn hit_testing_returns_the_column_under_the_point() {
    let l = layout(3);
    assert_eq!(l.column_at(0, 0), Some(0));
    assert_eq!(l.column_at(px(299.0), 0), Some(0));
    assert_eq!(l.column_at(px(304.0), 0), Some(1));
    assert_eq!(l.column_at(px(907.0), 0), Some(2));
}

#[test]
fn a_click_in_the_gap_belongs_to_neither_column() {
    let l = layout(3);
    assert_eq!(l.column_at(px(301.0), 0), None, "the gap answered");
    assert_eq!(l.column_at(px(303.0), 0), None);
}

#[test]
fn hit_testing_accounts_for_the_scroll_exactly_once() {
    let l = layout(6);
    let scroll = px(304.0);
    assert_eq!(l.column_at(0, scroll), Some(1));
    assert_eq!(l.column_at(px(304.0), scroll), Some(2));
}

#[test]
fn hit_testing_outside_the_surface_answers_nothing() {
    let l = layout(3);
    assert_eq!(l.column_at(px(-1.0), 0), None);
    assert_eq!(l.column_at(px(1000.0), 0), None);
}

#[test]
fn viewport_x_and_column_at_are_inverses_for_every_visible_column() {
    let l = layout(6);
    for scroll in [0, px(100.0), px(304.0), l.max_scroll()] {
        for index in l.visible(scroll) {
            let Some(x) = l.viewport_x(index, scroll) else {
                continue;
            };
            let probe = (x + px(1.0)).clamp(0, l.surface_width - px(1.0));
            if probe >= x && probe < x + l.column_width {
                assert_eq!(
                    l.column_at(probe, scroll),
                    Some(index),
                    "column {index} at {x}, probed at {probe} (scroll {scroll})"
                );
            }
        }
    }
}

#[test]
fn an_empty_stack_lays_out_nothing_rather_than_dividing_by_zero() {
    let l = layout(0);
    assert_eq!(l.content_width(), 0);
    assert_eq!(l.visible(0), 0..0);
    assert_eq!(l.column_at(px(10.0), 0), None);
    assert_eq!(l.band(0), None);
}

#[test]
fn a_column_scrolled_into_its_gap_is_no_longer_visible() {
    let l = layout(6);
    assert_eq!(l.visible(px(299.0)), 0..5);
    assert_eq!(l.visible(px(300.0)), 1..5);
    assert_eq!(l.visible(px(302.0)), 1..5);
    assert_eq!(l.visible(px(304.0)), 1..5);
}

#[test]
fn a_viewport_inside_a_gap_meets_no_column() {
    let l = ColumnLayout::new(px(100.0), px(80.0), px(500.0), 4);
    assert_eq!(l.visible(0), 0..1);
    assert_eq!(l.visible(px(100.0)), 1..1);
    assert_eq!(l.visible(px(700.0)), 2..2);
    assert_eq!(l.visible(px(550.0)), 1..2);
}
