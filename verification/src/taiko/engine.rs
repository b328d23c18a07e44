//! The judgement engine.

use crate::note::Note;
use crate::ratio::Ratio;
use crate::rhythm::{keeps_at, lemma_first_hit, missed_at, sort_notes, Rhythm};
use crate::taiko::calculated::{calculated, calculated_all, CalculatedNote};
use crate::taiko::model::{
    after_all, capped, gauge_whole, is_kind, judge, judged, land, misses, replay, strokes, summary,
    tick, visible_at, EngineView, COMBO_HIT_SCORE,
};
use crate::taiko::rules::{GaugeRule, Rules, GAUGE_UNIT, RANGE_LIMIT};
use crate::taiko::state::{Final, GameSource, Hit, InputState, Judgement, OutputState, OutputView};
use crate::tja::note::{playable, TaikoNote, TaikoNoteVariant};
use vstd::prelude::*;

verus! {

/// Every note of `s` is well formed.
pub open spec fn all_wf(s: Seq<CalculatedNote>) -> bool {
    forall|i: int| 0 <= i < s.len() ==> (#[trigger] s[i]).wf()
}

/// What every engine keeps: there is a stroke to count by, the gauge is
/// between empty and full, no combo is longer than the longest, and the
/// notes are well formed.
pub open spec fn engine_ok(e: EngineView) -> bool {
    &&& 1 <= e.total_notes <= usize::MAX
    &&& e.rule.full > 0
    &&& 0 <= e.gauge <= gauge_whole(e.total_notes, e.rule)
    &&& e.current_combo <= e.max_combo
    &&& 0 <= e.range_great <= RANGE_LIMIT
    &&& 0 <= e.range_ok <= RANGE_LIMIT
    &&& all_wf(e.availables)
    &&& all_wf(e.passed_display)
}

/// The predicate "is a single stroke", on the notes of a course.
pub open spec fn stroke_notes() -> spec_fn(TaikoNote) -> bool {
    |n: TaikoNote| n.variant.spec_is_drum()
}

/// How many strokes a course asks for; one where it asks for none.
pub open spec fn stroke_count(notes: Seq<TaikoNote>) -> nat {
    let n = notes.filter(stroke_notes()).len();
    if n == 0 {
        1
    } else {
        n
    }
}

/// The score of a great stroke where the course gives none: a million
/// split over the strokes, rounded up, and rounded up again to tens.
pub open spec fn default_scoreinit(total: nat) -> i32 {
    ((((1_000_000 + total - 1) / total as int) + 9) / 10 * 10) as i32
}

/// The state of an engine that has just been built on a course.
pub open spec fn built(
    difficulty: u8,
    level: u8,
    scoreinit: Option<i32>,
    notes: Seq<TaikoNote>,
    rules: Rules,
) -> EngineView {
    let all = calculated_all(notes, rules.range_miss);
    EngineView {
        notes: all,
        availables: sort_notes(all),
        time: 0,
        difficulty,
        level,
        scoreinit: match scoreinit {
            Some(s) => s,
            None => default_scoreinit(stroke_count(notes)),
        },
        score: 0,
        current_combo: 0,
        max_combo: 0,
        gauge: 0,
        total_notes: stroke_count(notes),
        rule: rules.spec_rule(difficulty, level),
        range_great: rules.range_great,
        range_ok: rules.range_ok,
        passed_display: Seq::empty(),
        judgements: Seq::empty(),
        max_hit_count: 0,
    }
}

/// What an engine can be built on under the rules: the rules are well
/// formed and have a gauge rule for the difficulty and level, and every note
/// is within the limits.
pub open spec fn buildable(src: GameSource, rules: Rules) -> bool {
    &&& rules.wf()
    &&& rules.covers(src.difficulty, src.level)
    &&& forall|i: int| 0 <= i < src.notes@.len() ==> playable(#[trigger] src.notes@[i])
}

/// A filter keeps well-formed notes well formed.
pub proof fn lemma_filter_all_wf(s: Seq<CalculatedNote>, p: spec_fn(CalculatedNote) -> bool)
    requires
        all_wf(s),
    ensures
        all_wf(s.filter(p)),
    decreases s.len(),
{
    reveal(Seq::filter);
    if s.len() > 0 {
        assert forall|i: int| 0 <= i < s.drop_last().len() implies (#[trigger] s.drop_last()[i]).wf() by {
            assert(s.drop_last()[i] == s[i]);
        }
        lemma_filter_all_wf(s.drop_last(), p);
        assert(s.last() == s[s.len() - 1]);
    }
}

/// An engine that judges the strokes of a player on the notes of a course.
pub trait TaikoEngine<H>: Sized {
    /// Whether an engine can be built on `src` under `rules`.
    spec fn accepts(src: GameSource, rules: Rules) -> bool;

    /// What the engine keeps from one call to the next.
    spec fn wf(&self) -> bool;

    fn new(src: GameSource, rules: &Rules) -> (r: Self)
        requires
            Self::accepts(src, *rules),
        ensures
            r.wf(),
    ;

    fn forward(&mut self, input: InputState<H>) -> (out: OutputState)
        requires
            old(self).wf(),
        ensures
            final(self).wf(),
            out.gauge.is_unit(),
    ;

    fn finalize(&self) -> (r: Final)
        requires
            self.wf(),
        ensures
            r.gauge.is_unit(),
    ;
}

/// The engine of the game as it is played.
pub struct DefaultTaikoEngine {
    rhythm: Rhythm<CalculatedNote>,
    difficulty: u8,
    level: u8,
    scoreinit: i32,
    score: u32,
    current_combo: u32,
    max_combo: u32,
    gauge: i128,
    whole: i128,
    total_notes: usize,
    rule: GaugeRule,
    range_great: i64,
    range_ok: i64,
    passed_display: Vec<CalculatedNote>,
    judgements: Vec<Judgement>,
    max_hit_count: u32,
}

impl View for DefaultTaikoEngine {
    type V = EngineView;

    closed spec fn view(&self) -> EngineView {
        EngineView {
            notes: self.rhythm.spec_notes(),
            availables: self.rhythm.spec_availables(),
            time: self.rhythm.spec_time(),
            difficulty: self.difficulty,
            level: self.level,
            scoreinit: self.scoreinit,
            score: self.score,
            current_combo: self.current_combo,
            max_combo: self.max_combo,
            gauge: self.gauge as int,
            total_notes: self.total_notes as nat,
            rule: self.rule,
            range_great: self.range_great,
            range_ok: self.range_ok,
            passed_display: self.passed_display@,
            judgements: self.judgements@,
            max_hit_count: self.max_hit_count,
        }
    }
}

/// How a stroke is judged by its timing; see [`judge`].
pub fn judge_timing(offset: i64, duration: i64, great: i64, ok: i64) -> (r: Judgement)
    ensures
        r == judge(offset as int, duration as int, great as int, ok as int),
{
    let d: i128 = 2 * (offset as i128) - (duration as i128);
    let twice: i128 = if d < 0 {
        -d
    } else {
        d
    };
    if twice < 2 * (great as i128) {
        Judgement::Great
    } else if twice < 2 * (ok as i128) {
        Judgement::Good
    } else {
        Judgement::Miss
    }
}

/// The notes of `v` that are in view at `time`.
fn visible_notes(v: &Vec<CalculatedNote>, time: i64) -> (r: Vec<CalculatedNote>)
    ensures
        r@ == v@.filter(visible_at(time)),
{
    let mut r: Vec<CalculatedNote> = Vec::new();
    let n: usize = v.len();
    let mut i: usize = 0;
    proof {
        reveal(Seq::filter);
        assert(v@.subrange(0, 0).len() == 0);
    }
    while i < n
        invariant
            n == v.len(),
            i <= n,
            r@ == v@.subrange(0, i as int).filter(visible_at(time)),
        decreases n - i,
    {
        let note: CalculatedNote = v[i];
        proof {
            let head = v@.subrange(0, i as int);
            assert(v@.subrange(0, i + 1) == head.push(note));
            head.lemma_filter_push(note, visible_at(time));
        }
        if note.visible(time) {
            r.push(note);
        }
        i += 1;
    }
    proof {
        assert(v@.subrange(0, n as int) == v@);
    }
    r
}

/// The notes of `a` and behind them those of `b`.
fn joined(a: &Vec<CalculatedNote>, b: &Vec<CalculatedNote>) -> (r: Vec<CalculatedNote>)
    ensures
        r@ == a@ + b@,
{
    let mut r: Vec<CalculatedNote> = Vec::new();
    let mut i: usize = 0;
    while i < a.len()
        invariant
            i <= a.len(),
            r@ == a@.subrange(0, i as int),
        decreases a.len() - i,
    {
        r.push(a[i]);
        proof {
            assert(a@.subrange(0, i + 1) == a@.subrange(0, i as int).push(a@[i as int]));
        }
        i += 1;
    }
    proof {
        assert(a@.subrange(0, a.len() as int) == a@);
    }
    let mut j: usize = 0;
    while j < b.len()
        invariant
            j <= b.len(),
            r@ == a@ + b@.subrange(0, j as int),
        decreases b.len() - j,
    {
        r.push(b[j]);
        proof {
            assert(a@ + b@.subrange(0, j + 1) == (a@ + b@.subrange(0, j as int)).push(b@[j as int]));
        }
        j += 1;
    }
    proof {
        assert(b@.subrange(0, b.len() as int) == b@);
    }
    r
}

/// How many single strokes are among the notes.
fn count_strokes(v: &Vec<CalculatedNote>) -> (r: usize)
    ensures
        r == v@.filter(strokes()).len(),
{
    let n: usize = v.len();
    let mut r: usize = 0;
    let mut i: usize = 0;
    proof {
        reveal(Seq::filter);
        assert(v@.subrange(0, 0).len() == 0);
    }
    while i < n
        invariant
            n == v.len(),
            i <= n,
            r <= i,
            r == v@.subrange(0, i as int).filter(strokes()).len(),
        decreases n - i,
    {
        proof {
            let head = v@.subrange(0, i as int);
            assert(v@.subrange(0, i + 1) == head.push(v@[i as int]));
            head.lemma_filter_push(v@[i as int], strokes());
        }
        if v[i].inner.variant.is_drum() {
            r += 1;
        }
        i += 1;
    }
    proof {
        assert(v@.subrange(0, n as int) == v@);
    }
    r
}

/// How often `kind` is among the judgements, as far as a `u32` counts.
fn count_kind(v: &Vec<Judgement>, kind: Judgement) -> (r: u32)
    ensures
        r == capped(v@.filter(is_kind(kind)).len() as int),
{
    let n: usize = v.len();
    let mut r: u32 = 0;
    let mut i: usize = 0;
    proof {
        reveal(Seq::filter);
        assert(v@.subrange(0, 0).len() == 0);
    }
    while i < n
        invariant
            n == v.len(),
            i <= n,
            r == capped(v@.subrange(0, i as int).filter(is_kind(kind)).len() as int),
        decreases n - i,
    {
        proof {
            let head = v@.subrange(0, i as int);
            assert(v@.subrange(0, i + 1) == head.push(v@[i as int]));
            head.lemma_filter_push(v@[i as int], is_kind(kind));
        }
        if v[i] == kind && r < u32::MAX {
            r += 1;
        }
        i += 1;
    }
    proof {
        assert(v@.subrange(0, n as int) == v@);
    }
    r
}

/// One more on a counter that stops at the greatest `u32`.
fn one_more(x: u32) -> (r: u32)
    ensures
        r == capped(x + 1),
{
    if x < u32::MAX {
        x + 1
    } else {
        x
    }
}

/// The sum as far as a `u32` counts.
fn capped_sum(x: u32, y: u32) -> (r: u32)
    ensures
        r == capped(x + y),
{
    let s: u64 = (x as u64) + (y as u64);
    if s > u32::MAX as u64 {
        u32::MAX
    } else {
        s as u32
    }
}

/// Sorting keeps well-formed notes well formed.
pub proof fn lemma_sort_all_wf(s: Seq<CalculatedNote>)
    requires
        all_wf(s),
    ensures
        all_wf(sort_notes(s)),
{
    let sorted = sort_notes(s);
    crate::rhythm::lemma_sort_notes(s);
    assert forall|i: int| 0 <= i < sorted.len() implies (#[trigger] sorted[i]).wf() by {
        assert(sorted.contains(sorted[i]));
        vstd::seq_lib::to_multiset_contains(s, sorted[i]);
        vstd::seq_lib::to_multiset_contains(sorted, sorted[i]);
        let k = choose|k: int| 0 <= k < s.len() && s[k] == sorted[i];
        assert(s[k].wf());
    }
}

impl DefaultTaikoEngine {
    /// An engine on `src`, where one can be built on it under `rules`.
    pub fn try_new(src: GameSource, rules: &Rules) -> (r: Option<Self>)
        ensures
            r is Some == buildable(src, *rules),
            r matches Some(e) ==> e.wf() && e@ == built(
                src.difficulty,
                src.level,
                src.scoreinit,
                src.notes@,
                *rules,
            ),
    {
        if !rules.is_valid() {
            return None;
        }
        if rules.rule(src.difficulty, src.level).is_none() {
            return None;
        }
        let n: usize = src.notes.len();
        let mut i: usize = 0;
        while i < n
            invariant
                n == src.notes@.len(),
                i <= n,
                forall|j: int| 0 <= j < i ==> playable(#[trigger] src.notes@[j]),
            decreases n - i,
        {
            if !src.notes[i].is_playable() {
                return None;
            }
            i += 1;
        }
        Some(<DefaultTaikoEngine as TaikoEngine<Hit>>::new(src, rules))
    }
}

/// What the outputs hold, in order.
pub open spec fn output_views(outs: Seq<OutputState>) -> Seq<OutputView> {
    outs.map_values(|o: OutputState| o@)
}

impl DefaultTaikoEngine {
    /// Plays the inputs one after the other and returns the output of each.
    pub fn replay(&mut self, inputs: &Vec<InputState<Hit>>) -> (outs: Vec<OutputState>)
        requires
            old(self).wf(),
        ensures
            final(self).wf(),
            final(self)@ == after_all(old(self)@, inputs@),
            output_views(outs@) == replay(old(self)@, inputs@),
    {
        let n: usize = inputs.len();
        let mut outs: Vec<OutputState> = Vec::new();
        let mut i: usize = 0;
        proof {
            assert(inputs@.subrange(0, n as int) == inputs@);
            assert(output_views(outs@) =~= Seq::empty());
        }
        while i < n
            invariant
                n == inputs.len(),
                i <= n,
                self.wf(),
                after_all(old(self)@, inputs@) == after_all(
                    self@,
                    inputs@.subrange(i as int, n as int),
                ),
                replay(old(self)@, inputs@) == output_views(outs@) + replay(
                    self@,
                    inputs@.subrange(i as int, n as int),
                ),
            decreases n - i,
        {
            let ghost before = self@;
            let ghost rest = inputs@.subrange(i as int, n as int);
            let out = self.forward(inputs[i]);
            proof {
                assert(rest[0] == inputs@[i as int]);
                assert(rest.drop_first() == inputs@.subrange(i + 1, n as int));
                assert(output_views(outs@.push(out)) =~= output_views(outs@).push(out@));
                assert(output_views(outs@) + (seq![out@] + replay(self@, rest.drop_first()))
                    =~= output_views(outs@).push(out@) + replay(self@, rest.drop_first()));
            }
            outs.push(out);
            i += 1;
        }
        proof {
            assert(output_views(outs@) + Seq::<OutputView>::empty() =~= output_views(outs@));
        }
        outs
    }
}

impl TaikoEngine<Hit> for DefaultTaikoEngine {
    open spec fn accepts(src: GameSource, rules: Rules) -> bool {
        buildable(src, rules)
    }

    closed spec fn wf(&self) -> bool {
        &&& engine_ok(self@)
        &&& self.rhythm.wf()
        &&& self.whole == gauge_whole(self.total_notes as nat, self.rule)
    }

    /// Builds the engine at the instant zero, with every note available, an
    /// empty gauge and no score.
    fn new(src: GameSource, rules: &Rules) -> (r: Self)
        ensures
            r@ == built(src.difficulty, src.level, src.scoreinit, src.notes@, *rules),
    {
        let rule: GaugeRule = rules.gauge[src.difficulty as usize][src.level as usize];
        let range_miss: i64 = rules.range_miss;
        let n: usize = src.notes.len();
        let mut notes: Vec<CalculatedNote> = Vec::new();
        let mut strokes: usize = 0;
        let mut i: usize = 0;
        proof {
            reveal(Seq::filter);
            assert(src.notes@.subrange(0, 0).len() == 0);
        }
        while i < n
            invariant
                n == src.notes@.len(),
                i <= n,
                0 <= range_miss <= RANGE_LIMIT,
                forall|j: int| 0 <= j < n ==> playable(#[trigger] src.notes@[j]),
                notes.len() == i,
                forall|j: int|
                    0 <= j < i ==> #[trigger] notes@[j] == calculated(
                        src.notes@[j],
                        j as usize,
                        range_miss,
                    ),
                all_wf(notes@),
                strokes <= i,
                strokes == src.notes@.subrange(0, i as int).filter(stroke_notes()).len(),
            decreases n - i,
        {
            let note: TaikoNote = src.notes[i];
            proof {
                let head = src.notes@.subrange(0, i as int);
                assert(src.notes@.subrange(0, i + 1) == head.push(note));
                head.lemma_filter_push(note, stroke_notes());
                assert(playable(src.notes@[i as int]));
            }
            if note.variant.is_drum() {
                strokes += 1;
            }
            notes.push(CalculatedNote::calculate(&note, i, range_miss));
            i += 1;
        }
        proof {
            assert(src.notes@.subrange(0, n as int) == src.notes@);
            assert(notes@ =~= calculated_all(src.notes@, range_miss));
            lemma_sort_all_wf(notes@);
        }
        let total_notes: usize = if strokes == 0 {
            1
        } else {
            strokes
        };
        let scoreinit: i32 = match src.scoreinit {
            Some(s) => s,
            None => {
                let t: u128 = total_notes as u128;
                proof {
                    vstd::arithmetic::div_mod::lemma_div_is_ordered_by_denominator(
                        1_000_000 + t - 1,
                        1,
                        t as int,
                    );
                    vstd::arithmetic::div_mod::lemma_div_pos_is_pos(1_000_000 + t - 1, t as int);
                    let q = (1_000_000 + t - 1) / (t as int);
                    vstd::arithmetic::div_mod::lemma_fundamental_div_mod(1_000_000 + t - 1, t as int);
                    vstd::arithmetic::div_mod::lemma_mod_pos_bound(1_000_000 + t - 1, t as int);
                    assert(q <= 1_000_000) by (nonlinear_arith)
                        requires
                            t >= 1,
                            q >= 0,
                            t * q <= 1_000_000 + t - 1,
                    ;
                }
                let share: u128 = (1_000_000 + t - 1) / t;
                ((share + 9) / 10 * 10) as i32
            },
        };
        proof {
            assert(0 <= 4 * (total_notes as int) * (rule.full as int) <= 4 * 0xffff_ffff_ffff_ffff
                * 0xffff_ffff) by (nonlinear_arith)
                requires
                    0 <= total_notes <= 0xffff_ffff_ffff_ffff,
                    0 <= rule.full <= 0xffff_ffff,
            ;
        }
        let whole: i128 = 4 * (total_notes as i128) * (rule.full as i128);
        let rhythm = Rhythm::new(notes);
        DefaultTaikoEngine {
            rhythm,
            difficulty: src.difficulty,
            level: src.level,
            scoreinit,
            score: 0,
            current_combo: 0,
            max_combo: 0,
            gauge: 0,
            whole,
            total_notes,
            rule,
            range_great: rules.range_great,
            range_ok: rules.range_ok,
            passed_display: Vec::new(),
            judgements: Vec::new(),
            max_hit_count: 0,
        }
    }

    /// One instant of play; see [`tick`].
    fn forward(&mut self, input: InputState<Hit>) -> (out: OutputState)
        ensures
            final(self)@ == tick(old(self)@, input).engine,
            out@ == tick(old(self)@, input).out,
            forall|i: int| 0 <= i < out.display@.len() ==> (#[trigger] out.display@[i]).wf(),
    {
        let ghost e0 = self@;
        let time: i64 = input.time;
        let gone = self.rhythm.advance_to(time);
        let ghost kept = self.rhythm.spec_availables();
        proof {
            lemma_filter_all_wf(e0.availables, keeps_at(time as int));
            lemma_filter_all_wf(e0.availables, missed_at(time as int));
        }
        let mut judgement: Option<Judgement> = None;
        let mut hits: u32 = 0;
        match input.hit {
            Some(h) => {
                proof {
                    lemma_first_hit(kept, time as int, h.spec_code());
                }
                match self.rhythm.hit_at(h.code()) {
                    Some((i, offset)) => {
                        let note: CalculatedNote = self.rhythm.availables()[i];
                        proof {
                            kept[i as int].lemma_with_volume((kept[i as int].inner.volume - 1) as u16);
                            assert(kept[i as int].wf());
                        }
                        match note.inner.variant {
                            TaikoNoteVariant::Both => {
                                let counted = CalculatedNote {
                                    hit_count: note.hit_count + 1,
                                    ..note
                                };
                                self.rhythm.amend(i, counted);
                                hits = counted.hit_count;
                                judgement = Some(Judgement::ComboHit);
                            },
                            _ => {
                                judgement = Some(
                                    judge_timing(
                                        offset,
                                        note.inner.duration,
                                        self.range_great,
                                        self.range_ok,
                                    ),
                                );
                            },
                        }
                    },
                    None => {
                        judgement = Some(Judgement::Nothing);
                    },
                }
            },
            None => {},
        }
        let ghost landing = land(kept, time, input.hit, e0.range_great, e0.range_ok);
        proof {
            assert(self.rhythm.spec_availables() == landing.availables);
            assert(judgement == landing.judgement);
            assert(hits == landing.hits);
            assert(all_wf(landing.availables)) by {
                assert forall|k: int| 0 <= k < landing.availables.len() implies (
                #[trigger] landing.availables[k]).wf() by {
                    assert(kept[k].wf());
                }
            }
        }
        if hits > self.max_hit_count {
            self.max_hit_count = hits;
        }
        // the strokes that left unhit

        let lost: usize = count_strokes(&gone);
        let mut k: usize = 0;
        while k < lost
            invariant
                k <= lost,
                self.judgements@ == e0.judgements + misses(k as nat),
                self.rhythm.spec_availables() == landing.availables,
                self.rhythm.spec_notes() == e0.notes,
                self.rhythm.spec_time() == time,
                self.rhythm.wf(),
                self.passed_display@ == e0.passed_display,
                self.max_hit_count == if landing.hits > e0.max_hit_count {
                    landing.hits
                } else {
                    e0.max_hit_count
                },
                self.difficulty == old(self).difficulty,
                self.level == old(self).level,
                self.scoreinit == old(self).scoreinit,
                self.score == old(self).score,
                self.current_combo == old(self).current_combo,
                self.max_combo == old(self).max_combo,
                self.gauge == old(self).gauge,
                self.whole == old(self).whole,
                self.total_notes == old(self).total_notes,
                self.rule == old(self).rule,
                self.range_great == old(self).range_great,
                self.range_ok == old(self).range_ok,
            decreases lost - k,
        {
            self.judgements.push(Judgement::Miss);
            proof {
                assert(e0.judgements + misses((k + 1) as nat) =~= (e0.judgements + misses(
                    k as nat,
                )).push(Judgement::Miss));
            }
            k += 1;
        }
        if lost > 0 {
            self.current_combo = 0;
        }
        proof {
            assert(0 <= (lost as int) * (4 * (self.rule.miss as int)) <= 0xffff_ffff_ffff_ffff * (4
                * 0xffff_ffff)) by (nonlinear_arith)
                requires
                    0 <= lost <= 0xffff_ffff_ffff_ffff,
                    0 <= self.rule.miss <= 0xffff_ffff,
            ;
            assert(0 <= 4 * (self.total_notes as int) * (self.rule.full as int) <= 4
                * 0xffff_ffff_ffff_ffff * 0xffff_ffff) by (nonlinear_arith)
                requires
                    0 <= self.total_notes <= 0xffff_ffff_ffff_ffff,
                    0 <= self.rule.full <= 0xffff_ffff,
            ;
        }
        let mut gauge: i128 = self.gauge - (lost as i128) * (4 * (self.rule.miss as i128));
        // the judgement

        match judgement {
            Some(Judgement::Great) => {
                let plus: u32 = if self.scoreinit > 0 {
                    self.scoreinit as u32
                } else {
                    0
                };
                self.score = capped_sum(self.score, plus);
                self.current_combo = one_more(self.current_combo);
                if self.current_combo > self.max_combo {
                    self.max_combo = self.current_combo;
                }
                gauge = gauge + 4 * (GAUGE_UNIT as i128);
            },
            Some(Judgement::Good) => {
                let plus: u32 = if self.scoreinit > 0 {
                    (self.scoreinit as u32) / 2
                } else {
                    0
                };
                self.score = capped_sum(self.score, plus);
                self.current_combo = one_more(self.current_combo);
                if self.current_combo > self.max_combo {
                    self.max_combo = self.current_combo;
                }
                gauge = gauge + (if self.difficulty >= 3 {
                    2 * (GAUGE_UNIT as i128)
                } else {
                    3 * (GAUGE_UNIT as i128)
                });
            },
            Some(Judgement::Miss) => {
                self.current_combo = 0;
                gauge = gauge - 4 * (self.rule.miss as i128);
            },
            Some(Judgement::ComboHit) => {
                self.score = capped_sum(self.score, COMBO_HIT_SCORE);
            },
            _ => {},
        }
        match judgement {
            Some(j) => {
                self.judgements.push(j);
            },
            None => {},
        }
        proof {
            assert(self.judgements@ =~= e0.judgements + misses(lost as nat) + judged(judgement));
        }
        self.gauge = if gauge < 0 {
            0
        } else if gauge > self.whole {
            self.whole
        } else {
            gauge
        };
        // what is shown

        let still = visible_notes(&self.passed_display, time);
        let newly = visible_notes(&gone, time);
        let passed = joined(&still, &newly);
        proof {
            Seq::filter_distributes_over_add(e0.passed_display, gone@, visible_at(time));
            lemma_filter_all_wf(e0.passed_display + gone@, visible_at(time));
            lemma_filter_all_wf(landing.availables, visible_at(time));
        }
        proof {
            assert(4 * (self.total_notes as int) * (self.rule.full as int) > 0) by (nonlinear_arith)
                requires
                    self.total_notes >= 1,
                    self.rule.full >= 1,
            ;
        }
        let ahead = visible_notes(self.rhythm.availables(), time);
        let display = joined(&passed, &ahead);
        self.passed_display = passed;
        OutputState {
            finished: self.rhythm.finished(),
            score: self.score,
            current_combo: self.current_combo,
            max_combo: self.max_combo,
            gauge: Ratio { num: self.gauge, den: self.whole },
            judgement,
            display,
        }
    }

    /// How the game ends where it stands; see [`summary`].
    fn finalize(&self) -> (r: Final)
        ensures
            r == summary(self@),
    {
        proof {
            assert(0 <= 4 * (self.total_notes as int) * (self.rule.pass as int) <= 4
                * 0xffff_ffff_ffff_ffff * 0xffff_ffff) by (nonlinear_arith)
                requires
                    0 <= self.total_notes <= 0xffff_ffff_ffff_ffff,
                    0 <= self.rule.pass <= 0xffff_ffff,
            ;
        }
        proof {
            assert(4 * (self.total_notes as int) * (self.rule.full as int) > 0) by (nonlinear_arith)
                requires
                    self.total_notes >= 1,
                    self.rule.full >= 1,
            ;
        }
        let pass: i128 = 4 * (self.total_notes as i128) * (self.rule.pass as i128);
        Final {
            score: self.score,
            max_combo: self.max_combo,
            gauge: Ratio { num: self.gauge, den: self.whole },
            greats: count_kind(&self.judgements, Judgement::Great),
            goods: count_kind(&self.judgements, Judgement::Good),
            misses: count_kind(&self.judgements, Judgement::Miss),
            max_hit: self.max_hit_count,
            passed: self.gauge >= pass,
        }
    }
}

} // verus!
