use qs_ui::mark::{no_marks, SessionMark, SessionMarks};

#[test]
fn a_directory_with_no_sessions_has_no_mark_at_all() {
    assert!(SessionMark::new(0, false, None).is_none());
    assert!(SessionMark::new(0, true, Some("rail/conflict")).is_none());
    assert!(SessionMark::new(1, false, None).is_some());
}

#[test]
fn the_count_is_singular_at_one_and_plural_after() {
    assert_eq!(
        SessionMark::new(1, false, None).unwrap().words(),
        "1 session"
    );
    assert_eq!(
        SessionMark::new(2, false, None).unwrap().words(),
        "2 sessions"
    );
}

#[test]
fn an_inherited_folder_and_a_vouched_one_say_different_things_out_loud() {
    let inherited = SessionMark::new(2, false, None).unwrap();
    let vouched = SessionMark::new(2, true, None).unwrap();
    assert_ne!(inherited.spoken(), vouched.spoken());
    assert!(inherited.spoken().contains("2 sessions"));
    assert!(vouched.spoken().contains("2 sessions"));
}

#[test]
fn the_drawn_words_are_short_enough_for_the_slot_they_go_in() {
    for count in [1usize, 9, 10, 99] {
        let mark = SessionMark::new(count, true, None).unwrap();
        assert!(
            mark.words().chars().count() <= 11,
            "{:?} will be ellipsized in the size column",
            mark.words()
        );
    }
}

#[test]
fn marks_answer_for_the_index_they_were_filed_under_and_no_other() {
    let mut marks = SessionMarks::new();
    marks.insert(7, SessionMark::new(3, true, Some("rail/conflict")).unwrap());
    assert_eq!(marks.get(7).map(SessionMark::count), Some(3));
    assert_eq!(marks.get(6), None);
    assert_eq!(marks.get(8), None);
    assert_eq!(marks.len(), 1);

    marks.clear();
    assert!(marks.is_empty());
    assert_eq!(marks.get(7), None);
}

#[test]
fn the_empty_marks_const_is_empty() {
    assert!(no_marks().is_empty());
    assert_eq!(no_marks().get(0), None);
}

#[test]
fn an_arrival_fades_out_to_nothing() {
    let mark = SessionMark::new(1, true, None).unwrap();
    assert_eq!(mark.arrival(), None);
    let mark = mark.with_arrival(Some(400_000));
    assert_eq!(mark.arrival(), Some(400_000));
    let mark = mark.with_arrival(Some(0));
    assert_eq!(mark.arrival(), None);
}
