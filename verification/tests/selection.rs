use qs_ui::selection::Selection;

#[test]
fn a_range_runs_from_the_anchor_and_a_toggle_splits_it() {
    let mut selection = Selection::new();
    assert!(selection.is_empty());
    selection.select_only(4);
    selection.range_to(8);
    assert_eq!(selection.len(), 5);
    selection.toggle(6);
    assert_eq!(selection.iter_in(0..100), vec![4, 5, 7, 8]);
    assert!(selection.contains(7) && !selection.contains(6));
}

#[test]
fn selecting_everything_costs_one_run_and_lists_only_what_is_asked() {
    let mut selection = Selection::new();
    selection.select_all(1_000_000);
    assert_eq!(selection.len(), 1_000_000);
    assert_eq!(selection.iter_in(10..13), vec![10, 11, 12]);
    assert_eq!(selection.morph_target(), None);
    selection.select_only(3);
    assert_eq!(selection.morph_target(), Some(3));
}

#[test]
fn listing_a_huge_range_walks_the_runs_and_not_the_rows() {
    let mut selection = Selection::new();
    selection.toggle(7);
    selection.toggle(1 << 60);
    selection.toggle(u64::MAX - 1);
    assert_eq!(
        selection.iter_in(0..u64::MAX),
        vec![7, 1 << 60, u64::MAX - 1]
    );
    assert_eq!(selection.iter_in(8..1 << 60), Vec::<u64>::new());
    assert_eq!(selection.iter_in(1 << 60..u64::MAX), vec![1 << 60, u64::MAX - 1]);
}

#[test]
fn a_range_from_nothing_starts_at_the_first_row() {
    let mut selection = Selection::default();
    selection.range_to(2);
    assert_eq!(selection.iter_in(0..10), vec![0, 1, 2]);
}
