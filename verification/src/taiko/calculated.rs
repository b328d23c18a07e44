//! A note as the engine holds it: the note to be hit, and when it is shown.

use crate::note::Note;
use crate::ratio::Ratio;
use crate::tja::grammar::trunc_div;
use crate::tja::note::{playable, TaikoNote, TaikoNoteVariant, SPEED_LIMIT, TIME_LIMIT};
use vstd::prelude::*;

verus! {

/// How long before its start a note comes into view, at one thousandth of a
/// beat per minute: four and a half beats, in nanoseconds.
pub const LEAD_IN: i128 = 270_000_000_000_000;

/// How long after its end a note stays in view, at one thousandth of a beat
/// per minute: half a beat, in nanoseconds.
pub const LEAD_OUT: i128 = 30_000_000_000_000;

/// How long a note takes across the screen, at one thousandth of a beat per
/// minute: five beats, in nanoseconds.
pub const SCROLL_SPAN: i128 = 300_000_000_000_000;

/// A note with its place in the course, the time it is in view, and the hits
/// it has taken.
#[derive(Clone, Copy, Debug, PartialEq, Eq, Structural)]
pub struct CalculatedNote {
    pub inner: TaikoNote,
    pub idx: usize,
    pub visible_start: i64,
    pub visible_end: i64,
    pub hit_count: u32,
}

/// The quotient of `a` by `b`, which is not zero, rounded towards zero.
pub open spec fn signed_div(a: int, b: int) -> int {
    if b > 0 {
        trunc_div(a, b)
    } else {
        -trunc_div(a, -b)
    }
}

/// Whether a note of this variant is ever shown.
pub open spec fn shown(variant: TaikoNoteVariant) -> bool {
    variant == TaikoNoteVariant::Don || variant == TaikoNoteVariant::Kat || variant
        == TaikoNoteVariant::Both
}

/// When a note comes into view: four and a half beats of its speed before
/// it starts. A note that does not move is in view from the first instant.
pub open spec fn window_start(note: TaikoNote) -> i64 {
    if note.speed == 0 {
        i64::MIN
    } else {
        (note.start - signed_div(LEAD_IN as int, note.speed as int)) as i64
    }
}

/// When a note leaves the view: half a beat of its speed after it ends. A
/// note that does not move is in view to the last instant.
pub open spec fn window_end(note: TaikoNote) -> i64 {
    if note.speed == 0 {
        i64::MAX
    } else {
        (note.start + note.duration + signed_div(LEAD_OUT as int, note.speed as int)) as i64
    }
}

/// The note to be hit for a note of the course: a stroke can be hit from
/// `range_miss` before its instant to `range_miss` after it; any other note
/// is taken as it is.
pub open spec fn widened(note: TaikoNote, range_miss: i64) -> TaikoNote {
    if note.variant.spec_is_drum() {
        TaikoNote {
            start: (note.start - range_miss) as i64,
            duration: (2 * range_miss) as i64,
            ..note
        }
    } else {
        note
    }
}

/// What the engine holds for the note at `idx` of the course.
pub open spec fn calculated(note: TaikoNote, idx: usize, range_miss: i64) -> CalculatedNote {
    CalculatedNote {
        inner: widened(note, range_miss),
        idx,
        visible_start: if shown(note.variant) {
            window_start(note)
        } else {
            0
        },
        visible_end: if shown(note.variant) {
            window_end(note)
        } else {
            0
        },
        hit_count: 0,
    }
}

/// What the engine holds for the notes of a course, in their order.
pub open spec fn calculated_all(notes: Seq<TaikoNote>, range_miss: i64) -> Seq<CalculatedNote> {
    Seq::new(notes.len(), |i: int| calculated(notes[i], i as usize, range_miss))
}

impl CalculatedNote {
    /// The numbers of the note are within the limits, and the hits it has
    /// taken and the hits it can still take are no more than a note can
    /// take.
    pub open spec fn wf(self) -> bool {
        &&& -2 * TIME_LIMIT <= self.inner.start <= 2 * TIME_LIMIT
        &&& -2 * TIME_LIMIT <= self.inner.duration <= 2 * TIME_LIMIT
        &&& -SPEED_LIMIT <= self.inner.speed <= SPEED_LIMIT
        &&& self.hit_count + self.inner.volume <= u16::MAX
    }

    /// Whether the note is in view at `time`: it can still take a hit, is of
    /// a variant that is shown, and `time` is within the time it is shown.
    pub open spec fn spec_visible(self, time: i64) -> bool {
        &&& self.inner.volume != 0
        &&& self.inner.variant != TaikoNoteVariant::Invisible
        &&& self.inner.variant != TaikoNoteVariant::Unknown
        &&& self.visible_start < time < self.visible_end
    }

    /// Where the note is at `time`, if it is in view: one is where it comes
    /// into view, zero where it is to be hit. A stroke is a point; any other
    /// note reaches from its head to its tail.
    pub open spec fn spec_position(self, time: i64) -> Option<(Ratio, Ratio)> {
        if !self.spec_visible(time) {
            None
        } else if self.inner.variant.spec_is_drum() {
            let at = Ratio {
                num: (self.visible_end - time) as i128,
                den: (self.visible_end - self.visible_start) as i128,
            };
            Some((at, at))
        } else {
            let since = time - self.visible_start;
            Some(
                (
                    Ratio {
                        num: (SCROLL_SPAN - since * self.inner.speed) as i128,
                        den: SCROLL_SPAN,
                    },
                    Ratio {
                        num: (SCROLL_SPAN - (since - self.inner.duration) * self.inner.speed) as i128,
                        den: SCROLL_SPAN,
                    },
                ),
            )
        }
    }

    pub fn visible(&self, time: i64) -> (r: bool)
        ensures
            r == self.spec_visible(time),
    {
        if self.inner.volume == 0 {
            return false;
        }
        match self.inner.variant {
            TaikoNoteVariant::Invisible | TaikoNoteVariant::Unknown => false,
            _ => time > self.visible_start && time < self.visible_end,
        }
    }

    pub fn position(&self, time: i64) -> (r: Option<(Ratio, Ratio)>)
        requires
            self.wf(),
        ensures
            r == self.spec_position(time),
            r matches Some((head, tail)) ==> head.wf() && tail.wf(),
    {
        if !self.visible(time) {
            return None;
        }
        if self.inner.variant.is_drum() {
            let at = Ratio {
                num: (self.visible_end as i128) - (time as i128),
                den: (self.visible_end as i128) - (self.visible_start as i128),
            };
            Some((at, at))
        } else {
            let since: i128 = (time as i128) - (self.visible_start as i128);
            let speed: i128 = self.inner.speed as i128;
            let past: i128 = since - (self.inner.duration as i128);
            proof {
                assert(-18_446_744_073_709_551_616 * 1_000_000_000_000_000_000 <= since * speed
                    <= 18_446_744_073_709_551_616 * 1_000_000_000_000_000_000)
                    by (nonlinear_arith)
                    requires
                        0 <= since <= 18_446_744_073_709_551_616,
                        -1_000_000_000_000_000_000 <= speed <= 1_000_000_000_000_000_000,
                ;
                assert(-22_446_744_073_709_551_616 * 1_000_000_000_000_000_000 <= past * speed
                    <= 22_446_744_073_709_551_616 * 1_000_000_000_000_000_000)
                    by (nonlinear_arith)
                    requires
                        -22_446_744_073_709_551_616 <= past <= 22_446_744_073_709_551_616,
                        -1_000_000_000_000_000_000 <= speed <= 1_000_000_000_000_000_000,
                ;
            }
            Some(
                (
                    Ratio { num: SCROLL_SPAN - since * speed, den: SCROLL_SPAN },
                    Ratio { num: SCROLL_SPAN - past * speed, den: SCROLL_SPAN },
                ),
            )
        }
    }

    /// What the engine holds for the note at `idx` of the course.
    pub fn calculate(note: &TaikoNote, idx: usize, range_miss: i64) -> (r: Self)
        requires
            playable(*note),
            0 <= range_miss <= TIME_LIMIT,
        ensures
            r == calculated(*note, idx, range_miss),
            r.wf(),
    {
        let drum: bool = note.variant.is_drum();
        let both: bool = match note.variant {
            TaikoNoteVariant::Both => true,
            _ => false,
        };
        let (visible_start, visible_end): (i64, i64) = if drum || both {
            if note.speed == 0 {
                (i64::MIN, i64::MAX)
            } else {
                let lead: i128 = quotient(LEAD_IN, note.speed);
                let trail: i128 = quotient(LEAD_OUT, note.speed);
                (
                    ((note.start as i128) - lead) as i64,
                    ((note.start as i128) + (note.duration as i128) + trail) as i64,
                )
            }
        } else {
            (0, 0)
        };
        let inner = if drum {
            TaikoNote { start: note.start - range_miss, duration: 2 * range_miss, ..*note }
        } else {
            *note
        };
        CalculatedNote { inner, idx, visible_start, visible_end, hit_count: 0 }
    }
}

/// The quotient of a span by a speed that is not zero, rounded towards zero.
fn quotient(span: i128, speed: i64) -> (r: i128)
    requires
        0 <= span <= SCROLL_SPAN,
        speed != 0,
    ensures
        r == signed_div(span as int, speed as int),
        -SCROLL_SPAN <= r <= SCROLL_SPAN,
{
    let s: i128 = speed as i128;
    if s > 0 {
        proof {
            vstd::arithmetic::div_mod::lemma_div_pos_is_pos(span as int, s as int);
            vstd::arithmetic::div_mod::lemma_div_is_ordered_by_denominator(span as int, 1, s as int);
        }
        span / s
    } else {
        proof {
            vstd::arithmetic::div_mod::lemma_div_pos_is_pos(span as int, -s as int);
            vstd::arithmetic::div_mod::lemma_div_is_ordered_by_denominator(
                span as int,
                1,
                -s as int,
            );
        }
        -(span / (-s))
    }
}

impl Note for CalculatedNote {
    open spec fn spec_start(&self) -> i64 {
        self.inner.start
    }

    open spec fn spec_duration(&self) -> i64 {
        self.inner.duration
    }

    open spec fn spec_volume(&self) -> u16 {
        self.inner.volume
    }

    open spec fn spec_variant(&self) -> u16 {
        self.inner.variant.spec_code()
    }

    open spec fn spec_matches(&self, variant: u16) -> bool {
        self.inner.spec_matches(variant)
    }

    open spec fn with_start(self, start: i64) -> Self {
        CalculatedNote { inner: self.inner.with_start(start), ..self }
    }

    open spec fn with_duration(self, duration: i64) -> Self {
        CalculatedNote { inner: self.inner.with_duration(duration), ..self }
    }

    open spec fn with_volume(self, volume: u16) -> Self {
        CalculatedNote { inner: self.inner.with_volume(volume), ..self }
    }

    open spec fn with_variant(self, variant: u16) -> Self {
        CalculatedNote { inner: self.inner.with_variant(variant), ..self }
    }

    proof fn lemma_with_start(self, start: i64) {
    }

    proof fn lemma_with_duration(self, duration: i64) {
    }

    proof fn lemma_with_variant(self, variant: u16) {
    }

    proof fn lemma_with_volume(self, volume: u16) {
    }

    fn start(&self) -> (r: i64) {
        self.inner.start
    }

    fn duration(&self) -> (r: i64) {
        self.inner.duration
    }

    fn volume(&self) -> (r: u16) {
        self.inner.volume
    }

    fn variant(&self) -> (r: u16) {
        self.inner.variant.code()
    }

    fn set_start(&mut self, start: i64) {
        self.inner.start = start;
    }

    fn set_duration(&mut self, duration: i64) {
        self.inner.duration = duration;
    }

    fn set_volume(&mut self, volume: u16) {
        self.inner.volume = volume;
    }

    fn set_variant(&mut self, variant: u16) {
        self.inner.variant = TaikoNoteVariant::from_code(variant);
    }

    fn matches_variant(&self, variant: u16) -> (r: bool) {
        self.inner.matches_variant(variant)
    }
}

} // verus!
