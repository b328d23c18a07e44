use taiko::taiko::engine::judge_timing;
use taiko::{
    CalculatedNote, DefaultTaikoEngine, Final, GameSource, GaugeRule, Hit, InputState, Judgement,
    Note, OutputState, Ratio, Rules, TaikoEngine, TaikoNote, TaikoNoteType, TaikoNoteVariant,
};

const MS: i64 = 1_000_000;
const SEC: i64 = 1_000_000_000;

fn rules() -> Rules {
    Rules {
        range_great: 25 * MS,
        range_ok: 75 * MS,
        range_miss: 108 * MS,
        gauge: vec![
            vec![GaugeRule { full: 500_000, pass: 300_000, miss: 500_000 }; 3],
            vec![GaugeRule { full: 600_000, pass: 400_000, miss: 1_000_000 }; 3],
            vec![GaugeRule { full: 700_000, pass: 500_000, miss: 1_250_000 }; 3],
            vec![GaugeRule { full: 800_000, pass: 600_000, miss: 2_000_000 }; 3],
        ],
    }
}

fn don(start: i64) -> TaikoNote {
    TaikoNote {
        start,
        duration: 0,
        volume: 1,
        variant: TaikoNoteVariant::Don,
        note_type: TaikoNoteType::Small,
        speed: 120_000,
    }
}

fn kat(start: i64) -> TaikoNote {
    TaikoNote { variant: TaikoNoteVariant::Kat, ..don(start) }
}

fn roll(start: i64, duration: i64, volume: u16) -> TaikoNote {
    TaikoNote {
        start,
        duration,
        volume,
        variant: TaikoNoteVariant::Both,
        note_type: TaikoNoteType::Balloon,
        speed: 120_000,
    }
}

fn source(difficulty: u8, notes: Vec<TaikoNote>) -> GameSource {
    GameSource { difficulty, level: 1, scoreinit: Some(1000), scorediff: None, notes }
}

fn engine(difficulty: u8, notes: Vec<TaikoNote>) -> DefaultTaikoEngine {
    DefaultTaikoEngine::try_new(source(difficulty, notes), &rules()).unwrap()
}

fn at(time: i64) -> InputState<Hit> {
    InputState { time, hit: None }
}

fn hit(time: i64, hit: Hit) -> InputState<Hit> {
    InputState { time, hit: Some(hit) }
}

#[test]
fn timing_is_judged_from_the_middle() {
    let d = 216 * MS;
    assert_eq!(judge_timing(108 * MS, d, 25 * MS, 75 * MS), Judgement::Great);
    assert_eq!(judge_timing(108 * MS - 25 * MS + 1, d, 25 * MS, 75 * MS), Judgement::Great);
    assert_eq!(judge_timing(108 * MS - 25 * MS, d, 25 * MS, 75 * MS), Judgement::Good);
    assert_eq!(judge_timing(108 * MS + 25 * MS, d, 25 * MS, 75 * MS), Judgement::Good);
    assert_eq!(judge_timing(108 * MS + 75 * MS - 1, d, 25 * MS, 75 * MS), Judgement::Good);
    assert_eq!(judge_timing(108 * MS + 75 * MS, d, 25 * MS, 75 * MS), Judgement::Miss);
    assert_eq!(judge_timing(0, d, 25 * MS, 75 * MS), Judgement::Miss);
    assert_eq!(judge_timing(d, d, 25 * MS, 75 * MS), Judgement::Miss);
}

#[test]
fn a_stroke_can_be_hit_for_twice_the_miss_range() {
    let n = CalculatedNote::calculate(&don(SEC), 3, 108 * MS);
    assert_eq!(n.inner.start, SEC - 108 * MS);
    assert_eq!(n.inner.duration, 216 * MS);
    assert_eq!(n.idx, 3);
    assert_eq!(n.hit_count, 0);
    // four and a half beats at 120 BPM are 2.25 s, half a beat is 0.25 s
    assert_eq!(n.visible_start, SEC - 2_250 * MS);
    assert_eq!(n.visible_end, SEC + 250 * MS);
    assert!(n.visible_end > n.visible_start);
}

#[test]
fn a_roll_is_taken_as_it_is_and_a_marker_is_never_shown() {
    let r = CalculatedNote::calculate(&roll(SEC, 2 * SEC, 10), 0, 108 * MS);
    assert_eq!(r.inner, roll(SEC, 2 * SEC, 10));
    assert_eq!(r.visible_start, SEC - 2_250 * MS);
    assert_eq!(r.visible_end, 3 * SEC + 250 * MS);
    let m = TaikoNote { variant: TaikoNoteVariant::Invisible, ..don(SEC) };
    let c = CalculatedNote::calculate(&m, 0, 108 * MS);
    assert_eq!(c.inner, m);
    assert_eq!((c.visible_start, c.visible_end), (0, 0));
    assert!(!c.visible(0));
    assert!(!c.visible(SEC));
}

#[test]
fn a_note_that_does_not_move_is_always_in_view() {
    let n = CalculatedNote::calculate(&TaikoNote { speed: 0, ..don(SEC) }, 0, 108 * MS);
    assert_eq!((n.visible_start, n.visible_end), (i64::MIN, i64::MAX));
    assert!(n.visible(0));
}

#[test]
fn a_note_that_scrolls_backwards_has_its_window_turned() {
    let n = CalculatedNote::calculate(&TaikoNote { speed: -120_000, ..don(SEC) }, 0, 108 * MS);
    assert_eq!(n.visible_start, SEC + 2_250 * MS);
    assert_eq!(n.visible_end, SEC - 250 * MS);
    assert!(!n.visible(SEC));
}

#[test]
fn visibility_and_position() {
    let n = CalculatedNote::calculate(&don(SEC), 0, 108 * MS);
    assert!(!n.visible(SEC - 2_250 * MS));
    assert!(n.visible(SEC - 2_250 * MS + 1));
    assert!(n.visible(SEC + 250 * MS - 1));
    assert!(!n.visible(SEC + 250 * MS));
    assert_eq!(n.position(SEC + 250 * MS), None);
    let (head, tail) = n.position(SEC).unwrap();
    assert_eq!(head, Ratio { num: (250 * MS) as i128, den: (2_500 * MS) as i128 });
    assert_eq!(head, tail);
    let gone = CalculatedNote { inner: TaikoNote { volume: 0, ..n.inner }, ..n };
    assert!(!gone.visible(SEC));

    let r = CalculatedNote::calculate(&roll(SEC, SEC, 10), 0, 108 * MS);
    let (head, tail) = r.position(SEC).unwrap();
    // 2.25 s after it came into view, at 120 BPM: 300e12 - 2.25e9 * 120e3
    assert_eq!(head, Ratio { num: 30_000_000_000_000, den: 300_000_000_000_000 });
    assert_eq!(tail, Ratio { num: 150_000_000_000_000, den: 300_000_000_000_000 });
}

#[test]
fn a_great_hit() {
    let mut e = engine(3, vec![don(SEC), don(2 * SEC)]);
    let out = e.forward(hit(SEC + 10 * MS, Hit::Don));
    assert_eq!(out.judgement, Some(Judgement::Great));
    assert_eq!(out.score, 1000);
    assert_eq!(out.current_combo, 1);
    assert_eq!(out.max_combo, 1);
    // one of two notes, full at 0.8: 4e6 of 4 * 2 * 8e5
    assert_eq!(out.gauge, Ratio { num: 4_000_000, den: 6_400_000 });
    assert!(!out.finished);
    // the note that was hit is shown no more, the next one is
    assert_eq!(out.display.len(), 1);
    assert_eq!(out.display[0].idx, 1);
}

#[test]
fn a_good_hit_counts_half() {
    let mut e = engine(3, vec![don(SEC), don(2 * SEC)]);
    let out = e.forward(hit(SEC - 50 * MS, Hit::Don));
    assert_eq!(out.judgement, Some(Judgement::Good));
    assert_eq!(out.score, 500);
    assert_eq!(out.current_combo, 1);
    assert_eq!(out.gauge, Ratio { num: 2_000_000, den: 6_400_000 });
    let mut easy = engine(2, vec![don(SEC), don(2 * SEC)]);
    let out = easy.forward(hit(SEC + 50 * MS, Hit::Don));
    assert_eq!(out.judgement, Some(Judgement::Good));
    assert_eq!(out.gauge, Ratio { num: 3_000_000, den: 5_600_000 });
}

#[test]
fn a_hit_at_the_edge_is_a_miss() {
    let mut e = engine(0, vec![don(SEC), don(2 * SEC), don(3 * SEC)]);
    assert_eq!(e.forward(hit(SEC, Hit::Don)).judgement, Some(Judgement::Great));
    // the miss factor of a half takes 2e6 of the 4e6 away
    let out = e.forward(hit(2 * SEC + 100 * MS, Hit::Don));
    assert_eq!(out.judgement, Some(Judgement::Miss));
    assert_eq!(out.score, 1000);
    assert_eq!(out.current_combo, 0);
    assert_eq!(out.max_combo, 1);
    assert_eq!(out.gauge, Ratio { num: 2_000_000, den: 6_000_000 });
}

#[test]
fn a_stroke_on_nothing() {
    let mut e = engine(3, vec![don(SEC)]);
    let out = e.forward(hit(0, Hit::Don));
    assert_eq!(out.judgement, Some(Judgement::Nothing));
    assert_eq!((out.score, out.current_combo), (0, 0));
    assert_eq!(out.gauge, Ratio { num: 0, den: 3_200_000 });
    // the wrong stroke lands on nothing too
    let out = e.forward(hit(SEC, Hit::Kat));
    assert_eq!(out.judgement, Some(Judgement::Nothing));
    let out = e.forward(at(SEC));
    assert_eq!(out.judgement, None);
}

#[test]
fn a_note_that_leaves_unhit_ends_the_combo() {
    let mut e = engine(1, vec![don(SEC), don(2 * SEC), don(3 * SEC)]);
    e.forward(hit(SEC, Hit::Don));
    let out = e.forward(at(2 * SEC + 108 * MS));
    assert_eq!(out.current_combo, 1);
    assert_eq!(out.gauge.num, 4_000_000);
    let out = e.forward(at(2 * SEC + 108 * MS + 1));
    assert_eq!(out.judgement, None);
    assert_eq!(out.current_combo, 0);
    assert_eq!(out.max_combo, 1);
    // the miss factor of one takes the whole gain away
    assert_eq!(out.gauge.num, 0);
    // the note that was missed is shown until it has left the view
    assert_eq!(out.display.iter().map(|n| n.idx).collect::<Vec<_>>(), vec![1, 2]);
    let out = e.forward(at(2 * SEC + 250 * MS));
    assert_eq!(out.display.iter().map(|n| n.idx).collect::<Vec<_>>(), vec![2]);
    let end = e.finalize();
    assert_eq!((end.greats, end.goods, end.misses), (1, 0, 1));
}

#[test]
fn a_hit_in_the_instant_of_a_miss_starts_a_new_combo() {
    let mut e = engine(1, vec![don(SEC), don(2 * SEC), don(3 * SEC)]);
    e.forward(hit(SEC, Hit::Don));
    let out = e.forward(hit(3 * SEC, Hit::Don));
    assert_eq!(out.judgement, Some(Judgement::Great));
    assert_eq!(out.current_combo, 1);
    assert_eq!(out.max_combo, 1);
    assert!(!out.finished);
    assert!(e.forward(at(4 * SEC)).finished);
}

#[test]
fn the_gauge_stays_between_empty_and_full() {
    let notes: Vec<TaikoNote> = (1..=10).map(|i| don(i * SEC)).collect();
    let mut e = engine(3, notes.clone());
    for i in 1..=10 {
        let out = e.forward(hit(i * SEC, Hit::Don));
        assert!(0 <= out.gauge.num && out.gauge.num <= out.gauge.den);
    }
    // ten great hits of ten, full at 0.8
    let end = e.finalize();
    assert_eq!(end.gauge, Ratio { num: 32_000_000, den: 32_000_000 });
    assert_eq!(end.max_combo, 10);
    assert!(end.passed);

    let mut e = engine(3, notes);
    let out = e.forward(at(100 * SEC));
    assert_eq!(out.gauge, Ratio { num: 0, den: 32_000_000 });
    assert!(out.finished);
    let end = e.finalize();
    assert_eq!(end.misses, 10);
    assert!(!end.passed);
}

#[test]
fn passing_takes_the_pass_mark() {
    // four notes, pass at 0.6 of 0.8: three great hits are enough, two are not
    let notes: Vec<TaikoNote> = (1..=4).map(|i| don(i * SEC)).collect();
    let mut e = engine(3, notes.clone());
    e.forward(hit(SEC, Hit::Don));
    e.forward(hit(2 * SEC, Hit::Don));
    assert!(!e.finalize().passed);
    e.forward(hit(3 * SEC, Hit::Don));
    assert_eq!(e.finalize().gauge, Ratio { num: 12_000_000, den: 12_800_000 });
    assert!(e.finalize().passed);
}

#[test]
fn a_roll_counts_its_hits() {
    let mut e = engine(3, vec![roll(SEC, SEC, 3), don(5 * SEC)]);
    let mut last = None;
    for i in 0..3 {
        let out = e.forward(hit(SEC + i * 100 * MS, if i == 1 { Hit::Kat } else { Hit::Don }));
        assert_eq!(out.judgement, Some(Judgement::ComboHit));
        assert_eq!(out.score, 100 * (i as u32 + 1));
        assert_eq!(out.current_combo, 0);
        assert_eq!(out.gauge.num, 0);
        last = Some(out);
    }
    // the balloon has burst: it is shown no more
    assert!(last.unwrap().display.iter().all(|n| n.idx != 0));
    let out = e.forward(hit(SEC + 400 * MS, Hit::Don));
    assert_eq!(out.judgement, Some(Judgement::Nothing));
    let end = e.finalize();
    assert_eq!(end.max_hit, 3);
    assert_eq!(end.score, 300);
    assert_eq!((end.greats, end.goods, end.misses), (0, 0, 0));
}

#[test]
fn a_roll_that_ends_is_no_miss() {
    let mut e = engine(3, vec![roll(SEC, SEC, 3), don(5 * SEC)]);
    e.forward(hit(5 * SEC, Hit::Don));
    let out = e.forward(at(5 * SEC));
    assert_eq!(out.current_combo, 1);
    assert_eq!(e.finalize().misses, 0);
}

#[test]
fn the_default_score_of_a_great_hit() {
    let build = |n: i64| {
        let notes: Vec<TaikoNote> = (1..=n).map(|i| don(i * SEC)).collect();
        let src = GameSource { difficulty: 0, level: 0, scoreinit: None, scorediff: None, notes };
        DefaultTaikoEngine::try_new(src, &rules()).unwrap()
    };
    // a million over three, rounded up, and up to tens
    let mut e = build(3);
    assert_eq!(e.forward(hit(SEC, Hit::Don)).score, 333_340);
    let mut e = build(1);
    assert_eq!(e.forward(hit(SEC, Hit::Don)).score, 1_000_000);
    let mut e = build(7);
    assert_eq!(e.forward(hit(SEC, Hit::Don)).score, 142_860);
}

#[test]
fn a_course_without_strokes_counts_as_one() {
    let src = GameSource {
        difficulty: 3,
        level: 0,
        scoreinit: None,
        scorediff: None,
        notes: vec![roll(SEC, SEC, 2)],
    };
    let mut e = DefaultTaikoEngine::try_new(src, &rules()).unwrap();
    let out = e.forward(at(0));
    assert_eq!(out.gauge, Ratio { num: 0, den: 3_200_000 });
    assert!(!out.finished);
    let empty = GameSource { difficulty: 3, level: 0, scoreinit: None, scorediff: None, notes: vec![] };
    let mut e = DefaultTaikoEngine::try_new(empty, &rules()).unwrap();
    assert!(e.forward(at(0)).finished);
}

#[test]
fn a_negative_score_scores_nothing() {
    let src = GameSource {
        difficulty: 3,
        level: 0,
        scoreinit: Some(-50),
        scorediff: None,
        notes: vec![don(SEC)],
    };
    let mut e = DefaultTaikoEngine::try_new(src, &rules()).unwrap();
    assert_eq!(e.forward(hit(SEC, Hit::Don)).score, 0);
}

#[test]
fn the_score_stops_at_the_greatest_value() {
    let src = GameSource {
        difficulty: 3,
        level: 0,
        scoreinit: Some(i32::MAX),
        scorediff: None,
        notes: vec![don(SEC), don(2 * SEC), don(3 * SEC)],
    };
    let mut e = DefaultTaikoEngine::try_new(src, &rules()).unwrap();
    e.forward(hit(SEC, Hit::Don));
    e.forward(hit(2 * SEC, Hit::Don));
    assert_eq!(e.forward(hit(3 * SEC, Hit::Don)).score, u32::MAX);
}

#[test]
fn what_cannot_be_built_on() {
    let far = TaikoNote { start: 3_000_000_000_000_000_000, ..don(0) };
    assert!(DefaultTaikoEngine::try_new(source(3, vec![far]), &rules()).is_none());
    assert!(DefaultTaikoEngine::try_new(source(4, vec![]), &rules()).is_none());
    let src = GameSource { level: 3, ..source(0, vec![]) };
    assert!(DefaultTaikoEngine::try_new(src, &rules()).is_none());
    let mut bad = rules();
    bad.gauge[0][0].full = 0;
    assert!(!bad.is_valid());
    assert!(DefaultTaikoEngine::try_new(source(1, vec![]), &bad).is_none());
    let mut bad = rules();
    bad.range_miss = -1;
    assert!(DefaultTaikoEngine::try_new(source(1, vec![]), &bad).is_none());
    assert!(rules().is_valid());
    assert_eq!(rules().rule(1, 2), Some(GaugeRule { full: 600_000, pass: 400_000, miss: 1_000_000 }));
    assert_eq!(rules().rule(1, 3), None);
}

#[test]
fn the_same_inputs_give_the_same_outputs() {
    let notes = vec![don(SEC), kat(2 * SEC), roll(3 * SEC, SEC, 4), don(5 * SEC)];
    let inputs = vec![
        at(0),
        hit(SEC - 60 * MS, Hit::Don),
        hit(2 * SEC, Hit::Don),
        hit(2 * SEC + 10 * MS, Hit::Kat),
        hit(3 * SEC, Hit::Kat),
        hit(3 * SEC + 1, Hit::Don),
        at(4 * SEC + 500 * MS),
        hit(5 * SEC + 107 * MS, Hit::Don),
        at(9 * SEC),
    ];
    let mut a = engine(3, notes.clone());
    let mut b = engine(3, notes);
    let outs_a: Vec<OutputState> = inputs.iter().map(|i| a.forward(*i)).collect();
    let outs_b = b.replay(&inputs);
    assert_eq!(outs_a, outs_b);
    assert_eq!(a.finalize(), b.finalize());
    assert_eq!(
        outs_a.iter().map(|o| o.judgement).collect::<Vec<_>>(),
        vec![
            None,
            Some(Judgement::Good),
            Some(Judgement::Nothing),
            Some(Judgement::Great),
            Some(Judgement::ComboHit),
            Some(Judgement::ComboHit),
            None,
            Some(Judgement::Miss),
            None,
        ]
    );
    assert_eq!(
        a.finalize(),
        Final {
            score: 1000 + 500 + 200,
            max_combo: 2,
            gauge: Ratio { num: 0, den: 9_600_000 },
            greats: 1,
            goods: 1,
            misses: 1,
            max_hit: 2,
            passed: false,
        }
    );
    assert!(outs_a.last().unwrap().finished);
    for pair in outs_a.windows(2) {
        assert!(pair[0].max_combo <= pair[1].max_combo);
    }
}

#[test]
fn the_engine_holds_notes_as_notes() {
    let mut n = CalculatedNote::calculate(&don(SEC), 0, 108 * MS);
    assert_eq!(n.start(), SEC - 108 * MS);
    assert_eq!(n.duration(), 216 * MS);
    assert_eq!(n.volume(), 1);
    assert_eq!(n.variant(), 1);
    assert!(n.matches_variant(1));
    n.set_volume(0);
    n.set_start(1);
    n.set_duration(2);
    n.set_variant(3);
    assert_eq!(
        n.inner,
        TaikoNote { start: 1, duration: 2, volume: 0, variant: TaikoNoteVariant::Both, ..don(SEC) }
    );
    assert!(n.matches_variant(2));
    assert_eq!(Hit::Don.code(), 1);
    assert_eq!(Hit::Kat.code(), 2);
}
