use std::cmp::Ordering;
use taiko::note::{covers, ends_before, note_cmp, precedes};
use taiko::rhythm::sorted_copy;
use taiko::{Note, Rhythm, SimpleNote, TaikoNote, TaikoNoteType, TaikoNoteVariant};

fn taiko_note(variant: TaikoNoteVariant) -> TaikoNote {
    TaikoNote {
        start: 10,
        duration: 5,
        volume: 2,
        variant,
        note_type: TaikoNoteType::Small,
        speed: 120_000,
    }
}

#[test]
fn notes_are_ordered_by_start_then_end_then_variant() {
    let a = SimpleNote::new(10, 5, 1, 2);
    assert_eq!(note_cmp(&a, &SimpleNote::new(11, 0, 1, 0)), Ordering::Less);
    assert_eq!(note_cmp(&a, &SimpleNote::new(9, 50, 1, 9)), Ordering::Greater);
    assert_eq!(note_cmp(&a, &SimpleNote::new(10, 6, 1, 0)), Ordering::Less);
    assert_eq!(note_cmp(&a, &SimpleNote::new(10, 4, 1, 9)), Ordering::Greater);
    assert_eq!(note_cmp(&a, &SimpleNote::new(10, 5, 1, 3)), Ordering::Less);
    assert_eq!(note_cmp(&a, &SimpleNote::new(10, 5, 1, 1)), Ordering::Greater);
    assert_eq!(note_cmp(&a, &SimpleNote::new(10, 5, 7, 2)), Ordering::Equal);
    assert!(precedes(&a, &SimpleNote::new(10, 5, 1, 3)));
    assert!(!precedes(&a, &a));
}

#[test]
fn windows_include_both_ends() {
    let a = SimpleNote::new(10, 5, 1, 0);
    assert!(!covers(&a, 9));
    assert!(covers(&a, 10));
    assert!(covers(&a, 15));
    assert!(!covers(&a, 16));
    assert!(!ends_before(&a, 15));
    assert!(ends_before(&a, 16));
    let far = SimpleNote::new(i64::MAX, i64::MAX, 1, 0);
    assert!(covers(&far, i64::MAX));
    assert!(!ends_before(&far, i64::MAX));
}

#[test]
fn sorting_is_stable() {
    let notes = vec![
        SimpleNote::new(30, 1, 1, 0),
        SimpleNote::new(10, 1, 5, 0),
        SimpleNote::new(20, 1, 1, 0),
        SimpleNote::new(10, 1, 6, 0),
        SimpleNote::new(10, 0, 7, 9),
    ];
    assert_eq!(
        sorted_copy(&notes),
        vec![
            SimpleNote::new(10, 0, 7, 9),
            SimpleNote::new(10, 1, 5, 0),
            SimpleNote::new(10, 1, 6, 0),
            SimpleNote::new(20, 1, 1, 0),
            SimpleNote::new(30, 1, 1, 0),
        ]
    );
}

#[test]
fn the_engine_keeps_the_notes_as_given_and_the_available_ones_sorted() {
    let notes = vec![SimpleNote::new(20, 1, 1, 0), SimpleNote::new(10, 1, 1, 0)];
    let rhythm = Rhythm::new(notes.clone());
    assert_eq!(rhythm.notes(), &notes);
    assert_eq!(
        rhythm.availables(),
        &vec![SimpleNote::new(10, 1, 1, 0), SimpleNote::new(20, 1, 1, 0)]
    );
    assert!(!rhythm.finished());
    assert!(Rhythm::<SimpleNote>::new(vec![]).finished());
}

#[test]
fn set_time_starts_over() {
    let notes = vec![
        SimpleNote::new(20, 5, 1, 0),
        SimpleNote::new(10, 5, 1, 0),
        SimpleNote::new(30, 5, 0, 0),
    ];
    let mut rhythm = Rhythm::new(notes);
    rhythm.forward(22);
    assert_eq!(rhythm.hit(0), Some((SimpleNote::new(20, 5, 0, 0), 2)));
    rhythm.forward(100);
    assert!(rhythm.finished());
    rhythm.set_time(12);
    assert_eq!(rhythm.current_time(), 12);
    assert_eq!(
        rhythm.availables(),
        &vec![SimpleNote::new(10, 5, 1, 0), SimpleNote::new(20, 5, 1, 0)]
    );
    rhythm.set_time(26);
    assert!(rhythm.finished());
}

#[test]
fn a_note_is_kept_at_its_last_instant() {
    let mut rhythm = Rhythm::new(vec![SimpleNote::new(10, 5, 1, 0)]);
    assert_eq!(rhythm.advance_to(15), vec![]);
    assert!(!rhythm.finished());
    assert_eq!(rhythm.advance_to(16), vec![SimpleNote::new(10, 5, 1, 0)]);
    assert!(rhythm.finished());
}

#[test]
fn a_note_that_was_hit_out_leaves_unreported() {
    let mut rhythm = Rhythm::new(vec![SimpleNote::new(10, 5, 1, 0)]);
    rhythm.forward(10);
    assert_eq!(rhythm.hit_at(0), Some((0, 0)));
    assert!(!rhythm.finished());
    assert_eq!(rhythm.forward(0), vec![]);
    assert!(rhythm.finished());
}

#[test]
fn the_earlier_of_two_notes_is_hit() {
    let mut rhythm = Rhythm::new(vec![
        SimpleNote::new(12, 10, 1, 0),
        SimpleNote::new(10, 10, 1, 0),
    ]);
    rhythm.forward(15);
    assert_eq!(rhythm.hit(0), Some((SimpleNote::new(10, 10, 0, 0), 5)));
    assert_eq!(rhythm.hit(0), Some((SimpleNote::new(12, 10, 0, 0), 3)));
    assert_eq!(rhythm.hit(0), None);
}

#[test]
fn amend_replaces_a_note() {
    let mut rhythm = Rhythm::new(vec![SimpleNote::new(10, 10, 1, 0)]);
    rhythm.amend(0, SimpleNote::new(10, 10, 9, 0));
    assert_eq!(rhythm.availables(), &vec![SimpleNote::new(10, 10, 9, 0)]);
}

#[test]
fn setters_set() {
    let mut n = SimpleNote::new(1, 2, 3, 4);
    n.set_start(5);
    n.set_duration(6);
    n.set_volume(7);
    n.set_variant(8);
    assert_eq!(n, SimpleNote::new(5, 6, 7, 8));
    assert_eq!((n.start(), n.duration(), n.volume(), n.variant()), (5, 6, 7, 8));
    assert!(n.matches_variant(8));
    assert!(!n.matches_variant(4));
}

#[test]
fn variant_codes() {
    for v in [
        TaikoNoteVariant::Don,
        TaikoNoteVariant::Kat,
        TaikoNoteVariant::Both,
        TaikoNoteVariant::Invisible,
        TaikoNoteVariant::Unknown,
    ] {
        assert_eq!(TaikoNoteVariant::from_code(v.code()), v);
        assert_eq!(TaikoNoteVariant::from(u16::from(v)), v);
    }
    assert_eq!(TaikoNoteVariant::Don.code(), 1);
    assert_eq!(TaikoNoteVariant::Kat.code(), 2);
    assert_eq!(TaikoNoteVariant::Both.code(), 3);
    assert_eq!(TaikoNoteVariant::Invisible.code(), 127);
    assert_eq!(TaikoNoteVariant::Unknown.code(), 0);
    assert_eq!(TaikoNoteVariant::from_code(4), TaikoNoteVariant::Unknown);
    assert!(TaikoNoteVariant::Don.is_drum());
    assert!(!TaikoNoteVariant::Both.is_drum());
}

#[test]
fn a_roll_takes_either_stroke() {
    let don = taiko_note(TaikoNoteVariant::Don);
    let kat = taiko_note(TaikoNoteVariant::Kat);
    let both = taiko_note(TaikoNoteVariant::Both);
    let marker = taiko_note(TaikoNoteVariant::Invisible);
    assert!(don.matches_variant(1) && !don.matches_variant(2));
    assert!(kat.matches_variant(2) && !kat.matches_variant(1));
    assert!(both.matches_variant(1) && both.matches_variant(2));
    assert!(!both.matches_variant(3) && !both.matches_variant(0));
    assert!(!marker.matches_variant(1) && !marker.matches_variant(127));
    let mut n = don;
    n.set_variant(2);
    assert_eq!(n.variant, TaikoNoteVariant::Kat);
    n.set_variant(99);
    assert_eq!(n.variant, TaikoNoteVariant::Unknown);
    assert_eq!(n.variant(), 0);
}
