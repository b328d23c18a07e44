//! What the engine does, stated on plain values: the state it keeps, and
//! what one instant of play makes of it.

use crate::ratio::Ratio;
use crate::rhythm::{after_hit, first_hit, keeps_at, missed_at};
use crate::taiko::calculated::CalculatedNote;
use crate::taiko::rules::{GaugeRule, GAUGE_UNIT};
use crate::taiko::state::{Final, Hit, InputState, Judgement, OutputView};
use crate::tja::note::TaikoNoteVariant;
use vstd::prelude::*;

verus! {

/// The score of a stroke on a roll or a balloon.
pub const COMBO_HIT_SCORE: u32 = 100;

/// The state of an engine.
pub struct EngineView {
    /// The notes of the course as the engine holds them, in their order.
    pub notes: Seq<CalculatedNote>,
    /// The notes that can still be hit, in the default order.
    pub availables: Seq<CalculatedNote>,
    /// The instant of the last input, in nanoseconds.
    pub time: i64,
    pub difficulty: u8,
    pub level: u8,
    /// The score of a great stroke.
    pub scoreinit: i32,
    pub score: u32,
    pub current_combo: u32,
    pub max_combo: u32,
    /// The gauge, in parts of [`gauge_whole`].
    pub gauge: int,
    /// How many strokes the course asks for; one where it asks for none.
    pub total_notes: nat,
    pub rule: GaugeRule,
    pub range_great: i64,
    pub range_ok: i64,
    /// The missed notes that are still shown.
    pub passed_display: Seq<CalculatedNote>,
    /// Every judgement so far, in order.
    pub judgements: Seq<Judgement>,
    /// The most hits that one roll or balloon took.
    pub max_hit_count: u32,
}

/// The full gauge: a great stroke adds four times [`GAUGE_UNIT`] parts.
pub open spec fn gauge_whole(total_notes: nat, rule: GaugeRule) -> int {
    4 * total_notes * rule.full
}

/// The gauge that passes.
pub open spec fn gauge_pass(total_notes: nat, rule: GaugeRule) -> int {
    4 * total_notes * rule.pass
}

/// The predicate "is a single stroke".
pub open spec fn strokes() -> spec_fn(CalculatedNote) -> bool {
    |n: CalculatedNote| n.inner.variant.spec_is_drum()
}

/// The predicate "is in view at `time`".
pub open spec fn visible_at(time: i64) -> spec_fn(CalculatedNote) -> bool {
    |n: CalculatedNote| n.spec_visible(time)
}

/// The predicate "is the judgement `kind`".
pub open spec fn is_kind(kind: Judgement) -> spec_fn(Judgement) -> bool {
    |j: Judgement| j == kind
}

/// How a stroke is judged that came `offset` after the start of a note that
/// can be hit for `duration`: by how far it is from the middle.
pub open spec fn judge(offset: int, duration: int, great: int, ok: int) -> Judgement {
    let twice = if 2 * offset - duration < 0 {
        duration - 2 * offset
    } else {
        2 * offset - duration
    };
    if twice < 2 * great {
        Judgement::Great
    } else if twice < 2 * ok {
        Judgement::Good
    } else {
        Judgement::Miss
    }
}

/// What a stroke makes of the notes.
pub struct Landing {
    pub availables: Seq<CalculatedNote>,
    pub judgement: Option<Judgement>,
    /// The hits that the roll or balloon has taken on which the stroke
    /// landed; zero where it landed on none.
    pub hits: u32,
}

/// What the stroke `hit` at `time` makes of the available notes. It lands on
/// the first note that it can land on. A roll or a balloon counts the hit;
/// a single stroke is judged by its timing.
pub open spec fn land(
    availables: Seq<CalculatedNote>,
    time: i64,
    hit: Option<Hit>,
    great: i64,
    ok: i64,
) -> Landing {
    match hit {
        None => Landing { availables, judgement: None, hits: 0 },
        Some(h) => match first_hit(availables, time as int, h.spec_code()) {
            None => Landing { availables, judgement: Some(Judgement::Nothing), hits: 0 },
            Some(i) => {
                let struck = after_hit(availables, i);
                if availables[i].inner.variant == TaikoNoteVariant::Both {
                    let hits = (availables[i].hit_count + 1) as u32;
                    Landing {
                        availables: struck.update(
                            i,
                            CalculatedNote { hit_count: hits, ..struck[i] },
                        ),
                        judgement: Some(Judgement::ComboHit),
                        hits,
                    }
                } else {
                    Landing {
                        availables: struck,
                        judgement: Some(
                            judge(
                                time - availables[i].inner.start,
                                availables[i].inner.duration as int,
                                great as int,
                                ok as int,
                            ),
                        ),
                        hits: 0,
                    }
                }
            },
        },
    }
}

/// A count as a `u32`; what is beyond the type is its greatest value.
pub open spec fn capped(x: int) -> u32 {
    if x > u32::MAX {
        u32::MAX
    } else if x < 0 {
        0
    } else {
        x as u32
    }
}

/// What a great stroke scores: `scoreinit`, or nothing where that is
/// negative.
pub open spec fn gain(scoreinit: i32) -> int {
    if scoreinit > 0 {
        scoreinit as int
    } else {
        0
    }
}

/// The score after a judgement.
pub open spec fn score_after(score: u32, scoreinit: i32, judgement: Option<Judgement>) -> u32 {
    match judgement {
        Some(Judgement::Great) => capped(score + gain(scoreinit)),
        Some(Judgement::Good) => capped(score + gain(scoreinit) / 2),
        Some(Judgement::ComboHit) => capped(score + COMBO_HIT_SCORE),
        _ => score,
    }
}

/// The combo after `lost` missed strokes and a judgement.
pub open spec fn combo_after(combo: u32, lost: nat, judgement: Option<Judgement>) -> u32 {
    let kept = if lost > 0 {
        0
    } else {
        combo
    };
    match judgement {
        Some(Judgement::Great) | Some(Judgement::Good) => capped(kept + 1),
        Some(Judgement::Miss) => 0,
        _ => kept,
    }
}

/// The longest combo after a judgement that left the combo at `combo`.
pub open spec fn max_combo_after(max_combo: u32, combo: u32, judgement: Option<Judgement>) -> u32 {
    match judgement {
        Some(Judgement::Great) | Some(Judgement::Good) => if combo > max_combo {
            combo
        } else {
            max_combo
        },
        _ => max_combo,
    }
}

/// What a judgement adds to the gauge, in parts of [`gauge_whole`].
pub open spec fn gauge_gain(difficulty: u8, rule: GaugeRule, judgement: Option<Judgement>) -> int {
    match judgement {
        Some(Judgement::Great) => 4 * GAUGE_UNIT,
        Some(Judgement::Good) => if difficulty >= 3 {
            2 * GAUGE_UNIT
        } else {
            3 * GAUGE_UNIT
        },
        Some(Judgement::Miss) => -4 * rule.miss,
        _ => 0,
    }
}

/// `x`, but no less than `low` and no more than `high`.
pub open spec fn clamp(x: int, low: int, high: int) -> int {
    if x < low {
        low
    } else if x > high {
        high
    } else {
        x
    }
}

/// `lost` times the judgement of a missed stroke.
pub open spec fn misses(lost: nat) -> Seq<Judgement> {
    Seq::new(lost, |i: int| Judgement::Miss)
}

/// The judgement as a sequence: empty where there is none.
pub open spec fn judged(judgement: Option<Judgement>) -> Seq<Judgement> {
    match judgement {
        Some(j) => seq![j],
        None => Seq::empty(),
    }
}

/// The state and the output after one instant of play.
pub struct Tick {
    pub engine: EngineView,
    pub out: OutputView,
}

/// One instant of play. The clock moves to the instant of the input, and
/// the notes that are not kept there leave. The stroke, if there is one,
/// lands and is judged. Every stroke that left unhit ends the combo, counts
/// as a miss and takes from the gauge. Then the judgement is scored, and
/// the gauge is kept between empty and full. Shown are the missed notes
/// that are still in view, and behind them the available ones that are.
pub open spec fn tick(e: EngineView, input: InputState<Hit>) -> Tick {
    let time = input.time;
    let gone = e.availables.filter(missed_at(time as int));
    let kept = e.availables.filter(keeps_at(time as int));
    let landing = land(kept, time, input.hit, e.range_great, e.range_ok);
    let lost = gone.filter(strokes()).len();
    let judgement = landing.judgement;
    let combo = combo_after(e.current_combo, lost, judgement);
    let whole = gauge_whole(e.total_notes, e.rule);
    let gauge = clamp(
        e.gauge - lost * (4 * e.rule.miss) + gauge_gain(e.difficulty, e.rule, judgement),
        0,
        whole,
    );
    let passed_display = (e.passed_display + gone).filter(visible_at(time));
    let engine = EngineView {
        availables: landing.availables,
        time,
        score: score_after(e.score, e.scoreinit, judgement),
        current_combo: combo,
        max_combo: max_combo_after(e.max_combo, combo, judgement),
        gauge,
        passed_display,
        judgements: e.judgements + misses(lost) + judged(judgement),
        max_hit_count: if landing.hits > e.max_hit_count {
            landing.hits
        } else {
            e.max_hit_count
        },
        ..e
    };
    Tick {
        engine,
        out: OutputView {
            finished: engine.availables.len() == 0,
            score: engine.score,
            current_combo: engine.current_combo,
            max_combo: engine.max_combo,
            gauge: Ratio { num: gauge as i128, den: whole as i128 },
            judgement,
            display: passed_display + engine.availables.filter(visible_at(time)),
        },
    }
}

/// The outputs of a run of inputs, one after the other.
pub open spec fn replay(e: EngineView, inputs: Seq<InputState<Hit>>) -> Seq<OutputView>
    decreases inputs.len(),
{
    if inputs.len() == 0 {
        Seq::empty()
    } else {
        seq![tick(e, inputs[0]).out] + replay(tick(e, inputs[0]).engine, inputs.drop_first())
    }
}

/// The state after a run of inputs.
pub open spec fn after_all(e: EngineView, inputs: Seq<InputState<Hit>>) -> EngineView
    decreases inputs.len(),
{
    if inputs.len() == 0 {
        e
    } else {
        after_all(tick(e, inputs[0]).engine, inputs.drop_first())
    }
}

/// How the game ends where it stands.
pub open spec fn summary(e: EngineView) -> Final {
    Final {
        score: e.score,
        max_combo: e.max_combo,
        gauge: Ratio {
            num: e.gauge as i128,
            den: gauge_whole(e.total_notes, e.rule) as i128,
        },
        greats: capped(e.judgements.filter(is_kind(Judgement::Great)).len() as int),
        goods: capped(e.judgements.filter(is_kind(Judgement::Good)).len() as int),
        misses: capped(e.judgements.filter(is_kind(Judgement::Miss)).len() as int),
        max_hit: e.max_hit_count,
        passed: e.gauge >= gauge_pass(e.total_notes, e.rule),
    }
}

} // verus!
