use qs_ui::row_source::{
    EmptySource, LoadState, RowBuf, RowFlags, RowId, RowSource, RowView, StubbornSource,
};

#[test]
fn flags_compose_and_test() {
    let f = RowFlags::dir() | RowFlags::selected();
    assert!(f.contains(RowFlags::dir()));
    assert!(f.contains(RowFlags::selected()));
    assert!(!f.contains(RowFlags::hidden()));
    assert!(f.without(RowFlags::dir()).contains(RowFlags::selected()));
    assert!(RowFlags::empty().is_empty());
}

#[test]
fn names_are_stored_in_the_arena_not_per_row() {
    let mut buf = RowBuf::new();
    buf.push(RowView::default(), b"alpha.txt");
    buf.push(RowView::default(), b"beta.rs");

    assert_eq!(buf.len(), 2);
    assert_eq!(buf.name(&buf.rows()[0]), "alpha.txt");
    assert_eq!(buf.name(&buf.rows()[1]), "beta.rs");
    assert_eq!(buf.arena_len(), 16);
}

#[test]
fn clearing_keeps_capacity_so_a_scroll_does_not_allocate() {
    let mut buf = RowBuf::new();
    for i in 0..100 {
        buf.push(RowView::default(), format!("file-{i}.txt").as_bytes());
    }
    let before = buf.capacity();
    buf.clear();
    assert!(buf.is_empty());
    assert_eq!(buf.capacity(), before);
}

#[test]
fn an_invalid_utf8_name_still_renders() {
    let mut buf = RowBuf::new();
    buf.push(RowView::default(), &[0x66, 0x6f, 0xff, 0x6f]);
    let name = buf.name(&buf.rows()[0]);
    assert!(name.contains('\u{FFFD}'));
    assert_eq!(buf.name_bytes(&buf.rows()[0]).len(), 4);
}

#[test]
fn the_stubborn_source_fills_the_whole_range() {
    let source = StubbornSource { count: 1000 };
    let mut buf = RowBuf::new();
    source.rows(100..140, &mut buf);
    assert_eq!(buf.len(), 40);
    assert!(buf.rows().iter().all(|r| r.state == LoadState::Stub));
    assert_eq!(buf.rows()[0].id, RowId(100));
}

#[test]
fn a_range_past_the_end_is_truncated_not_padded_with_garbage() {
    let source = StubbornSource { count: 10 };
    let mut buf = RowBuf::new();
    source.rows(5..50, &mut buf);
    assert_eq!(buf.len(), 5);
}

#[test]
fn the_empty_source_is_usable_as_a_starting_state() {
    let source = EmptySource;
    let mut buf = RowBuf::new();
    source.rows(0..10, &mut buf);
    assert!(source.is_empty());
    assert!(buf.is_empty());
}

#[test]
fn a_buffer_has_room_for_what_it_holds() {
    let mut buf = RowBuf::new();
    for _ in 0..9 {
        buf.push(RowView::default(), b"module.rs");
    }
    let (rows, names) = buf.capacity();
    assert!(rows >= 9);
    assert!(names >= 81);
}

#[test]
fn a_pushed_name_reads_back_whatever_is_pushed_after_it() {
    let mut buf = RowBuf::new();
    let mut names: Vec<String> = Vec::new();
    for i in 0..50 {
        let name = "n".repeat(i);
        buf.push(RowView::default(), name.as_bytes());
        names.push(name);
        for (row, name) in buf.rows().iter().zip(&names) {
            assert_eq!(buf.name(row), *name);
        }
    }
    buf.clear();
    buf.push(RowView::default(), b"again");
    assert_eq!(buf.name(&buf.rows()[0]), "again");
}
