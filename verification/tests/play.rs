use taiko::{
    select_next, select_prev, AutoPlayer, GameSource, Hit, TJACourse, TaikoNote, TaikoNoteType,
    TaikoNoteVariant,
};

const MS: i64 = 1_000_000;
const SEC: i64 = 1_000_000_000;

fn note(variant: TaikoNoteVariant, start: i64, duration: i64) -> TaikoNote {
    TaikoNote { start, duration, volume: 1, variant, note_type: TaikoNoteType::Small, speed: 120_000 }
}

#[test]
fn the_cursor_goes_round() {
    assert_eq!(select_next(Some(0), 3), 1);
    assert_eq!(select_next(Some(2), 3), 0);
    assert_eq!(select_next(None, 3), 1);
    assert_eq!(select_next(Some(usize::MAX), 3), 1);
    assert_eq!(select_prev(Some(0), 3), 2);
    assert_eq!(select_prev(Some(2), 3), 1);
    assert_eq!(select_prev(None, 3), 2);
    assert_eq!(select_prev(Some(0), 1), 0);
}

#[test]
fn a_course_is_made_ready() {
    let course = TJACourse {
        course: 3,
        level: Some(8),
        scoreinit: Some(450),
        scorediff: Some(110),
        notes: vec![note(TaikoNoteVariant::Don, SEC, 0), note(TaikoNoteVariant::Both, 2 * SEC, SEC)],
    };
    let src = GameSource::from_course(&course, -250 * MS).unwrap();
    assert_eq!(
        src,
        GameSource {
            difficulty: 3,
            level: 8,
            scoreinit: Some(450),
            scorediff: Some(110),
            notes: vec![
                note(TaikoNoteVariant::Don, 750 * MS, 0),
                note(TaikoNoteVariant::Both, 1_750 * MS, SEC)
            ],
        }
    );
    let plain = TJACourse { level: None, ..course.clone() };
    assert_eq!(GameSource::from_course(&plain, 0).unwrap().level, 0);
}

#[test]
fn a_course_that_cannot_be_made_ready() {
    let course = TJACourse {
        course: 3,
        level: Some(8),
        scoreinit: None,
        scorediff: None,
        notes: vec![note(TaikoNoteVariant::Don, SEC, 0)],
    };
    assert!(GameSource::from_course(&TJACourse { course: -1, ..course.clone() }, 0).is_none());
    assert!(GameSource::from_course(&TJACourse { course: 256, ..course.clone() }, 0).is_none());
    assert!(GameSource::from_course(&TJACourse { level: Some(300), ..course.clone() }, 0).is_none());
    assert!(GameSource::from_course(&course, i64::MAX).is_none());
    assert!(GameSource::from_course(&course, 2_000_000_000_000_000_000).is_none());
    assert!(GameSource::from_course(&course, 1_000_000_000_000_000_000).is_some());
}

#[test]
fn the_player_that_plays_by_itself() {
    let notes = vec![
        note(TaikoNoteVariant::Invisible, 0, 0),
        note(TaikoNoteVariant::Don, SEC, 0),
        note(TaikoNoteVariant::Kat, 2 * SEC, 0),
        note(TaikoNoteVariant::Both, 3 * SEC, SEC),
        note(TaikoNoteVariant::Don, 5 * SEC, 0),
    ];
    let mut auto = AutoPlayer::new(notes);
    assert_eq!(auto.remaining(), 5);
    // too early: the marker at the front is passed over, the stroke waits
    assert_eq!(auto.turn(1, 100), None);
    assert_eq!(auto.remaining(), 4);
    assert_eq!(auto.turn(SEC - 20 * MS, 100), None);
    assert_eq!(auto.turn(SEC - 20 * MS + 1, 100), Some(Hit::Don));
    assert_eq!(auto.remaining(), 3);
    assert_eq!(auto.turn(SEC, 100), None);
    // a stroke that is late is passed over unstruck
    assert_eq!(auto.turn(2 * SEC + 1, 100), None);
    assert_eq!(auto.remaining(), 2);
    // a roll is struck every fifth turn at a hundred turns a second
    assert_eq!(auto.turn(3 * SEC, 100), None);
    let strokes: Vec<Option<Hit>> = (1..=12).map(|i| auto.turn(3 * SEC + i * 10 * MS, 100)).collect();
    let mut expected = vec![None; 12];
    expected[0] = Some(Hit::Don);
    expected[6] = Some(Hit::Don);
    assert_eq!(strokes, expected);
    assert_eq!(auto.remaining(), 2);
    assert_eq!(auto.turn(5 * SEC, 100), Some(Hit::Don));
    assert_eq!(auto.remaining(), 0);
    assert_eq!(auto.turn(6 * SEC, 100), None);
}

#[test]
fn two_strokes_due_in_one_turn_leave_the_later() {
    let mut auto = AutoPlayer::new(vec![
        note(TaikoNoteVariant::Don, SEC, 0),
        note(TaikoNoteVariant::Kat, SEC + 5 * MS, 0),
    ]);
    assert_eq!(auto.turn(SEC - MS, 100), Some(Hit::Kat));
    assert_eq!(auto.remaining(), 0);
}
