use qs_ui::density::Density;
use qs_ui::fenwick::{Fenwick, Heights};
use qs_ui::recycler::{Recycler, ViewportLayout};
use qs_ui::row_source::StubbornSource;
use qs_ui::scroll::visible_range;
use qs_ui::units::{Micros, MICRO};
use std::sync::Arc;

fn px(x: f64) -> Micros {
    (x * 1e6).round() as Micros
}

fn layout_for(rows: u64, height: u32, row_height: u32, scroll: f64) -> ViewportLayout {
    let source = StubbornSource { count: rows };
    let heights = Heights::Uniform(row_height);
    Recycler::new().layout(
        &source,
        &heights,
        1920,
        height,
        px(1.0),
        px(1.0),
        Density::Default,
        row_height,
        px(scroll),
    )
}

#[test]
fn the_bound_holds_at_a_million_rows() {
    let layout = layout_for(1_000_000, 1080, 28, 0.0);
    assert!(layout.visible.count <= layout.virtualization_bound() + 1);
    assert!(
        layout.visible.count < 50,
        "laid out {} rows",
        layout.visible.count
    );
}

#[test]
fn the_bound_holds_at_the_very_bottom() {
    let content = 1_000_000u64 * 28;
    let layout = layout_for(1_000_000, 1080, 28, (content - 1080) as f64);
    assert!(layout.visible.count <= layout.virtualization_bound() + 1);
    assert!(layout.visible.end() <= 1_000_000);
}

#[test]
fn row_tops_stay_in_viewport_space_even_at_the_bottom_of_the_corpus() {
    let content = 1_000_000u64 * 28;
    let layout = layout_for(1_000_000, 1080, 28, (content - 1080) as f64 + 0.5);

    for slot in 0..layout.visible.count {
        let top = layout.row_top(slot);
        assert!(
            top > px(-100.0) && top < px(2000.0),
            "row {slot} top {top} is not in viewport space"
        );
    }
    assert!(
        (layout.first_row_offset % MICRO - px(0.5)).abs() < 1,
        "the sub-pixel scroll was lost: first_row_offset = {}",
        layout.first_row_offset
    );
}

#[test]
fn a_source_shorter_than_the_viewport_lays_out_only_what_exists() {
    let layout = layout_for(3, 1080, 28, 0.0);
    assert_eq!(layout.visible.count, 3);
    assert_eq!(layout.content_height, 84);
}

#[test]
fn an_empty_source_lays_out_nothing() {
    let layout = layout_for(0, 1080, 28, 0.0);
    assert_eq!(layout.visible.count, 0);
    assert_eq!(layout.content_height, 0);
}

#[test]
fn filling_asks_the_source_for_exactly_the_visible_range() {
    let source = StubbornSource { count: 1_000_000 };
    let heights = Heights::Uniform(28);
    let mut recycler = Recycler::new();
    let layout = recycler.layout(
        &source,
        &heights,
        1920,
        1080,
        px(1.0),
        px(1.0),
        Density::Default,
        28,
        px(100_000.0),
    );
    let buf = recycler.fill(&source, &layout);

    assert_eq!(buf.len() as u32, layout.visible.count);
    assert_eq!(buf.rows()[0].id.0, layout.visible.first);
}

#[test]
fn refilling_reuses_the_buffer_rather_than_reallocating() {
    let source = StubbornSource { count: 1_000_000 };
    let heights = Heights::Uniform(28);
    let mut recycler = Recycler::new();

    let layout = recycler.layout(
        &source,
        &heights,
        1920,
        1080,
        px(1.0),
        px(1.0),
        Density::Default,
        28,
        0,
    );
    recycler.fill(&source, &layout);
    let capacity = recycler.rows().rows().len();

    for scroll in [100.0, 5000.0, 999_999.0] {
        let layout = recycler.layout(
            &source,
            &heights,
            1920,
            1080,
            px(1.0),
            px(1.0),
            Density::Default,
            28,
            px(scroll),
        );
        recycler.fill(&source, &layout);
    }
    assert!(recycler.rows().rows().len() <= capacity + 2);
}

#[test]
fn staleness_tracks_the_source_version_not_the_frame() {
    let source = StubbornSource { count: 100 };
    let heights = Heights::Uniform(28);
    let mut recycler = Recycler::new();
    let layout = recycler.layout(
        &source,
        &heights,
        1920,
        1080,
        px(1.0),
        px(1.0),
        Density::Default,
        28,
        0,
    );
    recycler.fill(&source, &layout);
    assert!(!recycler.is_stale(&source));
}

#[test]
fn a_layout_owns_the_whole_window_until_it_is_told_otherwise() {
    let layout = layout_for(1000, 1080, 28, 0.0);
    assert_eq!((layout.origin_x, layout.origin_y), (0, 0));
    assert_eq!(layout.row_top(0), 0);
}

#[test]
fn an_origin_moves_every_row_by_exactly_the_chrome_height() {
    let bare = layout_for(1000, 1080, 28, 0.0);
    let inset = layout_for(1000, 1080, 28, 0.0).at(px(240.0), px(96.0));
    for slot in 0..10 {
        assert_eq!(
            inset.row_top(slot),
            bare.row_top(slot) + px(96.0),
            "slot {slot}"
        );
    }
}

#[test]
fn hit_testing_inverts_the_row_placement_it_was_drawn_from() {
    for scroll in [0.0, 13.0, 27.0, 5_000.5] {
        let layout = layout_for(1000, 1080, 28, scroll).at(px(240.0), px(96.0));
        for slot in 0..layout.visible.count.min(20) {
            let index = layout.visible.first + u64::from(slot);
            let top = layout.row_top(slot);
            for probe in [0.5, 14.0, 27.4] {
                let y = top + px(probe);
                if y < layout.origin_y {
                    continue;
                }
                assert_eq!(
                    layout.row_at(y),
                    Some(index),
                    "scroll {scroll} slot {slot} at +{probe}"
                );
            }
        }
    }
}

#[test]
fn a_pointer_in_the_chrome_is_over_no_row_at_all() {
    let layout = layout_for(1000, 1080, 28, 0.0).at(0, px(96.0));
    assert_eq!(layout.row_at(0), None);
    assert_eq!(layout.row_at(px(95.9)), None);
    assert_eq!(layout.row_at(px(96.0)), Some(0));
}

#[test]
fn nothing_is_hit_below_the_last_visible_row() {
    let layout = layout_for(3, 1080, 28, 0.0).at(0, px(96.0));
    assert_eq!(layout.row_at(px(96.0 + 28.0 * 2.5)), Some(2));
    assert_eq!(layout.row_at(px(96.0 + 28.0 * 3.5)), None);
}

#[test]
fn an_empty_directory_is_hit_nowhere() {
    let layout = layout_for(0, 1080, 28, 0.0).at(0, px(96.0));
    assert_eq!(layout.row_at(px(500.0)), None);
}

fn grid_for(entries: u64, columns: u32, cell: u32, height: u32, scroll: f64) -> ViewportLayout {
    let source = StubbornSource { count: entries };
    Recycler::new().layout_grid(
        &source,
        columns,
        cell,
        1920,
        height,
        px(1.0),
        px(1.0),
        Density::Default,
        px(scroll),
    )
}

#[test]
fn a_grid_reports_the_entry_count_not_the_row_count() {
    let grid = grid_for(1000, 4, 120, 720, 0.0);
    assert_eq!(grid.row_count, 1000);
    assert_eq!(grid.content_height, 250 * 120);
}

#[test]
fn the_grid_lays_out_entries_and_stays_inside_the_bound() {
    for columns in [2u32, 3, 5, 8] {
        for cell in [80u32, 120, 200, 320] {
            for height in [200u32, 720, 1440, 2160] {
                for scroll in [0.0, 137.0, 100_000.0] {
                    let grid = grid_for(1_000_000, columns, cell, height, scroll);
                    assert!(
                        grid.visible.count <= grid.virtualization_bound() + columns,
                        "{columns}x{cell} in {height}px at {scroll}: laid out {} entries, \
                         bound {}",
                        grid.visible.count,
                        grid.virtualization_bound()
                    );
                    assert!(grid.visible.end() <= grid.row_count);
                }
            }
        }
    }
}

#[test]
fn a_grid_never_asks_the_source_for_entries_past_the_corpus() {
    let grid = grid_for(10, 4, 120, 2000, 0.0);
    assert_eq!(grid.visible.first, 0);
    assert_eq!(u64::from(grid.visible.count), 10);
}

#[test]
fn grid_hit_testing_inverts_the_cell_it_was_drawn_from() {
    for scroll in [0.0, 60.0, 121.0, 9_000.0] {
        let grid = grid_for(1000, 4, 120, 720, scroll).at(px(40.0), px(96.0));
        for slot in 0..grid.visible.count {
            let (x, y, w, h) = grid.cell_rect(slot);
            let index = grid.visible.first + u64::from(slot);
            for (dx, dy) in [
                (px(1.0), px(1.0)),
                (w - px(1.0), px(1.0)),
                (px(1.0), h - px(1.0)),
                (w / 2, h / 2),
            ] {
                let (at_x, at_y) = (x + dx, y + dy);
                if at_y < grid.origin_y {
                    continue;
                }
                assert_eq!(
                    grid.entry_at(at_x, at_y),
                    Some(index),
                    "scroll {scroll} slot {slot} at (+{dx}, +{dy})"
                );
            }
        }
    }
}

#[test]
fn the_empty_tail_of_a_short_final_row_is_not_the_entry_before_it() {
    let grid = grid_for(6, 4, 120, 2000, 0.0);
    let (x, y, w, h) = grid.cell_rect(5);
    assert_eq!(grid.entry_at(x + w / 2, y + h / 2), Some(5));
    assert_eq!(grid.entry_at(x + w * 3 / 2, y + h / 2), None, "slot 6");
    assert_eq!(grid.entry_at(x + w * 5 / 2, y + h / 2), None, "slot 7");
}

#[test]
fn a_pointer_past_the_last_column_is_outside_the_grid() {
    let grid = grid_for(1000, 4, 120, 720, 0.0);
    let width = grid.cell_width();
    assert_eq!(grid.entry_at(width * 7 / 2, px(10.0)), Some(3));
    assert_eq!(grid.entry_at(width * 4 + px(1.0), px(10.0)), None);
    assert_eq!(grid.entry_at(px(-1.0), px(10.0)), None);
}

#[test]
fn nothing_is_hit_beside_a_list() {
    let layout = layout_for(1000, 1080, 28, 0.0).at(px(240.0), px(96.0));
    assert_eq!(layout.entry_at(px(239.0), px(100.0)), None);
    assert_eq!(layout.entry_at(px(240.0), px(100.0)), Some(0));
    assert_eq!(layout.entry_at(px(2159.0), px(100.0)), Some(0));
    assert_eq!(layout.entry_at(px(2160.0), px(100.0)), None);
}

#[test]
fn rows_of_their_own_heights_stay_inside_the_bound() {
    let source = StubbornSource { count: 100 };
    let heights = Heights::Variable(Arc::new(Fenwick::from_heights(&[28u32; 100])));
    for (scroll, seen, laid_out) in [
        (0.0, 41, 41),
        (12.0, 41, 41),
        (13.0, 42, 41),
        (27.0, 42, 41),
        (27.5, 42, 41),
        (1008.0, 41, 41),
        (2000.0, 29, 29),
    ] {
        assert_eq!(visible_range(px(scroll), 1080, 100, &heights).0.count, seen);
        let layout = Recycler::new().layout(
            &source,
            &heights,
            1920,
            1080,
            px(1.0),
            px(1.0),
            Density::Default,
            28,
            px(scroll),
        );
        assert!(
            layout.visible.count <= layout.virtualization_bound() + 1,
            "scroll {scroll}: {} rows",
            layout.visible.count
        );
        assert_eq!(layout.visible.count, laid_out, "scroll {scroll}");
    }
}

#[test]
fn a_one_column_grid_places_and_hit_tests_exactly_like_the_list() {
    let list = layout_for(1000, 720, 120, 240.0);
    let grid = grid_for(1000, 1, 120, 720, 240.0);
    assert_eq!(grid.visible, list.visible);
    assert_eq!(grid.content_height, list.content_height);
    for slot in 0..grid.visible.count {
        assert_eq!(grid.row_top(slot), list.row_top(slot), "slot {slot}");
    }
    for y in [0.0, 1.0, 119.0, 120.0, 500.0] {
        assert_eq!(grid.entry_at(0, px(y)), list.row_at(px(y)), "y {y}");
    }
}

#[test]
fn an_empty_folder_in_a_grid_is_hit_nowhere_and_has_no_height() {
    let grid = grid_for(0, 4, 120, 720, 0.0);
    assert_eq!(grid.visible.count, 0);
    assert_eq!(grid.content_height, 0);
    assert_eq!(grid.entry_at(px(10.0), px(10.0)), None);
}

#[test]
fn the_bound_holds_across_every_plausible_viewport_and_density() {
    for height in [64u32, 200, 480, 720, 1080, 1440, 2160, 4320] {
        for row_height in [12u32, 24, 28, 42, 56, 84] {
            for scroll in [0.0, 1.0, 999.0, 27_000_000.0] {
                let layout = layout_for(1_000_000, height, row_height, scroll);
                assert!(
                    layout.visible.count <= layout.virtualization_bound() + 1,
                    "viewport {height} row {row_height} scroll {scroll}: {} rows > bound {}",
                    layout.visible.count,
                    layout.virtualization_bound()
                );
            }
        }
    }
}

#[test]
fn nothing_is_asked_of_a_source_when_nothing_is_visible() {
    let source = StubbornSource { count: 9 };
    let layout = layout_for(9, 0, 28, 0.0);
    let mut recycler = Recycler::new();
    assert_eq!(recycler.fill(&source, &layout).len(), 0);

    let layout = layout_for(9, 56, 28, 28.0);
    let rows = recycler.fill(&source, &layout);
    let ids: Vec<u64> = rows.rows().iter().map(|r| r.id.0).collect();
    assert_eq!(ids, vec![1, 2, 3, 4]);
    assert_eq!(recycler.rows().len(), 4);
}
