//! What holds of the engine whatever is played.

use crate::note::{note_end, Note};
use crate::rhythm::{
    first_hit, keeps_at, lemma_first_hit, lemma_none_kept_iff_all_passed, missed_at, struck_by,
};
use crate::taiko::calculated::{calculated, shown, signed_div, CalculatedNote, LEAD_IN, LEAD_OUT};
use crate::taiko::engine::{all_wf, built, engine_ok, lemma_filter_all_wf};
use crate::taiko::model::{
    after_all, gauge_whole, land, replay, strokes, tick, visible_at, EngineView,
};
use crate::taiko::rules::{Rules, RANGE_LIMIT};
use crate::taiko::state::{Hit, InputState, Judgement};
use crate::tja::note::{playable, TaikoNote, TaikoNoteVariant};
use crate::track::{lemma_tracks_forward, lemma_tracks_hit, tracks};
use vstd::prelude::*;

verus! {

/// A single stroke can be hit for exactly twice the miss range, and the
/// middle of that time is the instant the course gives it.
pub proof fn lemma_stroke_window(note: TaikoNote, idx: usize, range_miss: i64)
    requires
        playable(note),
        note.variant.spec_is_drum(),
        0 <= range_miss <= RANGE_LIMIT,
    ensures
        calculated(note, idx, range_miss).inner.duration == 2 * range_miss,
        calculated(note, idx, range_miss).inner.start + range_miss == note.start,
{
}

/// A note that is shown, lasts no negative time and scrolls forwards, no
/// faster than to come into view a nanosecond before it starts, leaves the
/// view after it has come into it.
pub proof fn lemma_shown_window(note: TaikoNote, idx: usize, range_miss: i64)
    requires
        playable(note),
        shown(note.variant),
        note.duration >= 0,
        0 <= note.speed <= LEAD_IN,
    ensures
        calculated(note, idx, range_miss).visible_end > calculated(
            note,
            idx,
            range_miss,
        ).visible_start,
{
    if note.speed != 0 {
        let s = note.speed as int;
        vstd::arithmetic::div_mod::lemma_div_is_ordered(s, LEAD_IN as int, s);
        vstd::arithmetic::div_mod::lemma_div_by_self(s);
        vstd::arithmetic::div_mod::lemma_div_pos_is_pos(LEAD_OUT as int, s);
        vstd::arithmetic::div_mod::lemma_div_is_ordered_by_denominator(LEAD_IN as int, 1, s);
        vstd::arithmetic::div_mod::lemma_div_is_ordered_by_denominator(LEAD_OUT as int, 1, s);
        assert(1 <= signed_div(LEAD_IN as int, s) <= LEAD_IN);
        assert(0 <= signed_div(LEAD_OUT as int, s) <= LEAD_OUT);
    }
}

/// The notes of an engine that has just been built are those of the course,
/// each made ready as [`calculated`] says, in the order of the course.
pub proof fn lemma_built_notes(
    difficulty: u8,
    level: u8,
    scoreinit: Option<i32>,
    notes: Seq<TaikoNote>,
    rules: Rules,
    i: int,
)
    requires
        0 <= i < notes.len(),
    ensures
        built(difficulty, level, scoreinit, notes, rules).notes.len() == notes.len(),
        built(difficulty, level, scoreinit, notes, rules).notes[i] == calculated(
            notes[i],
            i as usize,
            rules.range_miss,
        ),
{
}

/// The same inputs on the same state give the same outputs and leave the
/// same state.
pub proof fn lemma_replay_deterministic(
    a: EngineView,
    b: EngineView,
    xs: Seq<InputState<Hit>>,
    ys: Seq<InputState<Hit>>,
)
    requires
        a == b,
        xs == ys,
    ensures
        replay(a, xs) == replay(b, ys),
        after_all(a, xs) == after_all(b, ys),
{
}

/// A stroke changes no note but the one it lands on, and leaves every note
/// well formed.
pub proof fn lemma_land_keeps_wf(
    availables: Seq<CalculatedNote>,
    time: i64,
    hit: Option<Hit>,
    great: i64,
    ok: i64,
)
    requires
        all_wf(availables),
    ensures
        all_wf(land(availables, time, hit, great, ok).availables),
        land(availables, time, hit, great, ok).availables.len() == availables.len(),
{
    let landing = land(availables, time, hit, great, ok);
    match hit {
        Some(h) => {
            lemma_first_hit(availables, time as int, h.spec_code());
        },
        None => {},
    }
    assert forall|k: int| 0 <= k < landing.availables.len() implies (
    #[trigger] landing.availables[k]).wf() by {
        assert(availables[k].wf());
    }
}

/// One instant of play keeps what every engine keeps, and with it the
/// gauge between empty and full.
pub proof fn lemma_tick_keeps_ok(e: EngineView, input: InputState<Hit>)
    requires
        engine_ok(e),
    ensures
        engine_ok(tick(e, input).engine),
        tick(e, input).out.gauge.is_unit(),
        0 <= tick(e, input).engine.gauge <= gauge_whole(e.total_notes, e.rule),
{
    let time = input.time;
    let gone = e.availables.filter(missed_at(time as int));
    let kept = e.availables.filter(keeps_at(time as int));
    lemma_filter_all_wf(e.availables, keeps_at(time as int));
    lemma_filter_all_wf(e.availables, missed_at(time as int));
    lemma_land_keeps_wf(kept, time, input.hit, e.range_great, e.range_ok);
    assert(all_wf(e.passed_display + gone)) by {
        assert forall|k: int| 0 <= k < (e.passed_display + gone).len() implies (#[trigger] (
        e.passed_display + gone)[k]).wf() by {
            if k < e.passed_display.len() {
                assert(e.passed_display[k].wf());
            } else {
                assert(gone[k - e.passed_display.len()].wf());
            }
        }
    }
    lemma_filter_all_wf(e.passed_display + gone, visible_at(time));
    assert(4 * e.total_notes * e.rule.full > 0) by (nonlinear_arith)
        requires
            e.total_notes >= 1,
            e.rule.full >= 1,
    ;
    assert(4 * e.total_notes * e.rule.full <= 4 * 0xffff_ffff_ffff_ffff * 0xffff_ffff)
        by (nonlinear_arith)
        requires
            e.total_notes <= 0xffff_ffff_ffff_ffff,
            e.rule.full <= 0xffff_ffff,
    ;
}

/// The gauge of every output of a run lies between zero and one.
pub proof fn lemma_replay_gauge(e: EngineView, inputs: Seq<InputState<Hit>>, i: int)
    requires
        engine_ok(e),
        0 <= i < inputs.len(),
    ensures
        replay(e, inputs).len() == inputs.len(),
        replay(e, inputs)[i].gauge.is_unit(),
    decreases inputs.len(),
{
    lemma_tick_keeps_ok(e, inputs[0]);
    lemma_replay_len(tick(e, inputs[0]).engine, inputs.drop_first());
    if i > 0 {
        lemma_replay_gauge(tick(e, inputs[0]).engine, inputs.drop_first(), i - 1);
    }
}

/// A run gives one output for each input.
pub proof fn lemma_replay_len(e: EngineView, inputs: Seq<InputState<Hit>>)
    ensures
        replay(e, inputs).len() == inputs.len(),
    decreases inputs.len(),
{
    if inputs.len() > 0 {
        lemma_replay_len(tick(e, inputs[0]).engine, inputs.drop_first());
    }
}

/// The longest combo never gets shorter and is never shorter than the
/// combo. A stroke judged a miss leaves no combo; and where a stroke of the
/// course left unhit, the combo is what the stroke of this instant made
/// anew: one where it was great or good, else none.
pub proof fn lemma_tick_combo(e: EngineView, input: InputState<Hit>)
    requires
        e.current_combo <= e.max_combo,
    ensures
        tick(e, input).engine.max_combo >= e.max_combo,
        tick(e, input).engine.current_combo <= tick(e, input).engine.max_combo,
        tick(e, input).out.judgement == Some(Judgement::Miss) ==> tick(
            e,
            input,
        ).out.current_combo == 0,
        e.availables.filter(missed_at(input.time as int)).filter(strokes()).len() > 0 ==> tick(
            e,
            input,
        ).out.current_combo == (if tick(e, input).out.judgement == Some(Judgement::Great) || tick(
            e,
            input,
        ).out.judgement == Some(Judgement::Good) {
            1u32
        } else {
            0u32
        }),
{
}

/// The longest combo of the outputs of a run never gets shorter.
pub proof fn lemma_replay_max_combo(e: EngineView, inputs: Seq<InputState<Hit>>, i: int, j: int)
    requires
        e.current_combo <= e.max_combo,
        0 <= i <= j < inputs.len(),
    ensures
        replay(e, inputs).len() == inputs.len(),
        e.max_combo <= replay(e, inputs)[i].max_combo <= replay(e, inputs)[j].max_combo,
    decreases inputs.len(),
{
    lemma_tick_combo(e, inputs[0]);
    let next = tick(e, inputs[0]).engine;
    lemma_replay_len(next, inputs.drop_first());
    if i > 0 {
        lemma_replay_max_combo(next, inputs.drop_first(), i - 1, j - 1);
    } else if j > 0 {
        lemma_replay_max_combo(next, inputs.drop_first(), 0, j - 1);
    }
}

/// An instant of play ends with no note left exactly when every note that
/// was available has ended before the instant or has no hit left.
pub proof fn lemma_tick_finished(e: EngineView, input: InputState<Hit>)
    ensures
        tick(e, input).out.finished <==> (forall|i: int|
            0 <= i < e.availables.len() ==> note_end(#[trigger] e.availables[i]) < input.time
                || e.availables[i].inner.volume == 0),
{
    let time = input.time;
    let kept = e.availables.filter(keeps_at(time as int));
    lemma_none_kept_iff_all_passed(e.availables, time as int);
    match input.hit {
        Some(h) => {
            lemma_first_hit(kept, time as int, h.spec_code());
        },
        None => {},
    }
}

/// The available notes never get more, so a game that has finished stays
/// finished.
pub proof fn lemma_tick_never_grows(e: EngineView, input: InputState<Hit>)
    ensures
        tick(e, input).engine.availables.len() <= e.availables.len(),
        e.availables.len() == 0 ==> tick(e, input).out.finished,
{
    let time = input.time;
    let kept = e.availables.filter(keeps_at(time as int));
    e.availables.lemma_filter_len(keeps_at(time as int));
    match input.hit {
        Some(h) => {
            lemma_first_hit(kept, time as int, h.spec_code());
        },
        None => {},
    }
}

/// What a stroke does to the note it lands on: it takes one from its
/// volume, and a roll or a balloon counts the hit.
pub open spec fn counted() -> spec_fn(CalculatedNote) -> CalculatedNote {
    |n: CalculatedNote|
        {
            let spent = n.with_volume((n.inner.volume - 1) as u16);
            if n.inner.variant == TaikoNoteVariant::Both {
                CalculatedNote { hit_count: (n.hit_count + 1) as u32, ..spent }
            } else {
                spent
            }
        }
}

/// The notes after the stroke of an instant, if there was one.
pub open spec fn landed(s: Seq<CalculatedNote>, time: i64, hit: Option<Hit>) -> Seq<CalculatedNote> {
    match hit {
        Some(h) => struck_by(s, time as int, h.spec_code(), counted()),
        None => s,
    }
}

/// The notes of a course after a run of inputs: each with the hits that
/// landed on it, whether it is still available or not.
pub open spec fn course_after(live: Seq<CalculatedNote>, inputs: Seq<InputState<Hit>>) -> Seq<
    CalculatedNote,
>
    decreases inputs.len(),
{
    if inputs.len() == 0 {
        live
    } else {
        course_after(landed(live, inputs[0].time, inputs[0].hit), inputs.drop_first())
    }
}

/// No input comes before an earlier one.
pub open spec fn in_time(inputs: Seq<InputState<Hit>>) -> bool {
    forall|i: int, j: int| 0 <= i <= j < inputs.len() ==> inputs[i].time <= inputs[j].time
}

/// What a stroke makes of the available notes is what [`landed`] says.
pub proof fn lemma_land_is_landed(
    availables: Seq<CalculatedNote>,
    time: i64,
    hit: Option<Hit>,
    great: i64,
    ok: i64,
)
    ensures
        land(availables, time, hit, great, ok).availables == landed(availables, time, hit),
{
    match hit {
        Some(h) => {
            lemma_first_hit(availables, time as int, h.spec_code());
            match first_hit(availables, time as int, h.spec_code()) {
                Some(i) => {
                    assert(land(availables, time, hit, great, ok).availables =~= landed(
                        availables,
                        time,
                        hit,
                    ));
                },
                None => {},
            }
        },
        None => {},
    }
}

proof fn lemma_replay_tracks(
    e: EngineView,
    live: Seq<CalculatedNote>,
    t0: int,
    inputs: Seq<InputState<Hit>>,
    n: int,
)
    requires
        tracks(e.availables, live, t0),
        0 <= n < inputs.len(),
        t0 <= inputs[0].time,
        in_time(inputs),
    ensures
        replay(e, inputs).len() == inputs.len(),
        replay(e, inputs)[n].finished <==> (forall|i: int|
            0 <= i < course_after(live, inputs.take(n)).len() ==> note_end(
                #[trigger] course_after(live, inputs.take(n))[i],
            ) < inputs[n].time || course_after(live, inputs.take(n))[i].inner.volume == 0),
    decreases inputs.len(),
{
    let first = inputs[0];
    let time = first.time;
    let kept = e.availables.filter(keeps_at(time as int));
    let next = tick(e, first).engine;
    lemma_replay_len(next, inputs.drop_first());
    lemma_tracks_forward(e.availables, live, t0, time as int);
    lemma_land_is_landed(kept, time, first.hit, e.range_great, e.range_ok);
    if n == 0 {
        assert(inputs.take(0) =~= Seq::empty());
        lemma_tick_finished(e, first);
        lemma_none_kept_iff_all_passed(e.availables, time as int);
        lemma_none_kept_iff_all_passed(live, time as int);
    } else {
        let after = landed(live, time, first.hit);
        match first.hit {
            Some(h) => {
                lemma_tracks_hit(kept, live, time as int, h.spec_code(), counted());
            },
            None => {},
        }
        let rest = inputs.drop_first();
        assert(rest[0] == inputs[1]);
        assert forall|i: int, j: int| 0 <= i <= j < rest.len() implies rest[i].time
            <= rest[j].time by {
            assert(inputs[i + 1].time <= inputs[j + 1].time);
        }
        assert(inputs.take(n)[0] == first);
        assert(inputs.take(n).drop_first() =~= rest.take(n - 1));
        assert(rest[n - 1] == inputs[n]);
        lemma_replay_tracks(next, after, time as int, rest, n - 1);
    }
}

/// Over a run in which no input comes before an earlier one, the game is
/// finished after an input exactly when every note that was available at
/// the start of the run has ended before the instant of that input or has
/// no hit left, with the hits counted that landed on it before.
pub proof fn lemma_replay_finished(e: EngineView, inputs: Seq<InputState<Hit>>, n: int)
    requires
        0 <= n < inputs.len(),
        in_time(inputs),
    ensures
        replay(e, inputs).len() == inputs.len(),
        replay(e, inputs)[n].finished <==> (forall|i: int|
            0 <= i < course_after(e.availables, inputs.take(n)).len() ==> note_end(
                #[trigger] course_after(e.availables, inputs.take(n))[i],
            ) < inputs[n].time || course_after(e.availables, inputs.take(n))[i].inner.volume
                == 0),
{
    lemma_replay_tracks(e, e.availables, inputs[0].time as int, inputs, n);
}

} // verus!
