//! The notes of a taiko chart.

use crate::note::Note;
use vstd::prelude::*;
use vstd::std_specs::convert::FromSpecImpl;

verus! {

/// Which drum stroke a note asks for.
#[derive(Clone, Copy, Debug, PartialEq, Eq, Structural)]
pub enum TaikoNoteVariant {
    /// A stroke on the drum head.
    Don,
    /// A stroke on the rim.
    Kat,
    /// Either stroke: a roll or a balloon.
    Both,
    /// A marker that is never hit nor shown.
    Invisible,
    Unknown,
}

impl TaikoNoteVariant {
    /// The stable code of the variant.
    pub open spec fn spec_code(self) -> u16 {
        match self {
            TaikoNoteVariant::Don => 1,
            TaikoNoteVariant::Kat => 2,
            TaikoNoteVariant::Both => 3,
            TaikoNoteVariant::Invisible => 127,
            TaikoNoteVariant::Unknown => 0,
        }
    }

    /// The variant that a code stands for; a code that stands for none is
    /// `Unknown`.
    pub open spec fn spec_from_code(code: u16) -> Self {
        if code == 1 {
            TaikoNoteVariant::Don
        } else if code == 2 {
            TaikoNoteVariant::Kat
        } else if code == 3 {
            TaikoNoteVariant::Both
        } else if code == 127 {
            TaikoNoteVariant::Invisible
        } else {
            TaikoNoteVariant::Unknown
        }
    }

    /// A hit of this variant may land on a note of variant `on`.
    pub open spec fn spec_lands_on(self, on: Self) -> bool {
        match self {
            TaikoNoteVariant::Don => on == TaikoNoteVariant::Don || on == TaikoNoteVariant::Both,
            TaikoNoteVariant::Kat => on == TaikoNoteVariant::Kat || on == TaikoNoteVariant::Both,
            _ => false,
        }
    }

    /// Whether a note of this variant is one that the drum is struck for.
    pub open spec fn spec_is_drum(self) -> bool {
        self == TaikoNoteVariant::Don || self == TaikoNoteVariant::Kat
    }

    pub fn code(self) -> (r: u16)
        ensures
            r == self.spec_code(),
    {
        match self {
            TaikoNoteVariant::Don => 1,
            TaikoNoteVariant::Kat => 2,
            TaikoNoteVariant::Both => 3,
            TaikoNoteVariant::Invisible => 127,
            TaikoNoteVariant::Unknown => 0,
        }
    }

    pub fn from_code(code: u16) -> (r: Self)
        ensures
            r == Self::spec_from_code(code),
    {
        match code {
            1 => TaikoNoteVariant::Don,
            2 => TaikoNoteVariant::Kat,
            3 => TaikoNoteVariant::Both,
            127 => TaikoNoteVariant::Invisible,
            _ => TaikoNoteVariant::Unknown,
        }
    }

    pub fn is_drum(self) -> (r: bool)
        ensures
            r == self.spec_is_drum(),
    {
        match self {
            TaikoNoteVariant::Don | TaikoNoteVariant::Kat => true,
            _ => false,
        }
    }
}

/// Every variant is the one that its code stands for.
pub proof fn lemma_code_round_trip(v: TaikoNoteVariant)
    ensures
        TaikoNoteVariant::spec_from_code(v.spec_code()) == v,
{
}

impl From<u16> for TaikoNoteVariant {
    fn from(value: u16) -> (r: Self) {
        TaikoNoteVariant::from_code(value)
    }
}

impl FromSpecImpl<u16> for TaikoNoteVariant {
    open spec fn obeys_from_spec() -> bool {
        true
    }

    open spec fn from_spec(value: u16) -> Self {
        TaikoNoteVariant::spec_from_code(value)
    }
}

impl From<TaikoNoteVariant> for u16 {
    fn from(val: TaikoNoteVariant) -> (r: Self) {
        val.code()
    }
}

impl FromSpecImpl<TaikoNoteVariant> for u16 {
    open spec fn obeys_from_spec() -> bool {
        true
    }

    open spec fn from_spec(val: TaikoNoteVariant) -> Self {
        val.spec_code()
    }
}

/// What a note is drawn and scored as.
#[derive(Clone, Copy, Debug, PartialEq, Eq, Structural)]
pub enum TaikoNoteType {
    Small,
    Big,
    SmallCombo,
    BigCombo,
    Balloon,
    Yam,
    GogoStart,
    GogoEnd,
    BarLine,
}

/// No note of a chart starts further than this from the instant zero, in
/// nanoseconds; and none lasts longer than twice this.
pub const TIME_LIMIT: i64 = 2_000_000_000_000_000_000;

/// No note scrolls faster than this, in thousandths of a beat per minute.
pub const SPEED_LIMIT: i64 = 1_000_000_000_000_000_000;

/// A note of a taiko chart.
#[derive(Clone, Copy, Debug, PartialEq, Eq, Structural)]
pub struct TaikoNote {
    /// In nanoseconds.
    pub start: i64,
    /// In nanoseconds.
    pub duration: i64,
    pub volume: u16,
    pub variant: TaikoNoteVariant,
    pub note_type: TaikoNoteType,
    /// The tempo times the scroll factor when the note was written, in
    /// thousandths of a beat per minute.
    pub speed: i64,
}

/// A note that can be played: its start, its duration and its speed are
/// within the limits.
pub open spec fn playable(note: TaikoNote) -> bool {
    &&& -TIME_LIMIT <= note.start <= TIME_LIMIT
    &&& -2 * TIME_LIMIT <= note.duration <= 2 * TIME_LIMIT
    &&& -SPEED_LIMIT <= note.speed <= SPEED_LIMIT
}

/// Every note of `s` can be played.
pub open spec fn all_playable(s: Seq<TaikoNote>) -> bool {
    forall|i: int| 0 <= i < s.len() ==> playable(#[trigger] s[i])
}

impl TaikoNote {
    /// Whether the note can be played.
    pub fn is_playable(&self) -> (r: bool)
        ensures
            r == playable(*self),
    {
        -TIME_LIMIT <= self.start && self.start <= TIME_LIMIT && -2 * TIME_LIMIT <= self.duration
            && self.duration <= 2 * TIME_LIMIT && -SPEED_LIMIT <= self.speed && self.speed
            <= SPEED_LIMIT
    }
}

impl Note for TaikoNote {
    open spec fn spec_start(&self) -> i64 {
        self.start
    }

    open spec fn spec_duration(&self) -> i64 {
        self.duration
    }

    open spec fn spec_volume(&self) -> u16 {
        self.volume
    }

    open spec fn spec_variant(&self) -> u16 {
        self.variant.spec_code()
    }

    open spec fn spec_matches(&self, variant: u16) -> bool {
        TaikoNoteVariant::spec_from_code(variant).spec_lands_on(self.variant)
    }

    open spec fn with_start(self, start: i64) -> Self {
        TaikoNote { start, ..self }
    }

    open spec fn with_duration(self, duration: i64) -> Self {
        TaikoNote { duration, ..self }
    }

    open spec fn with_volume(self, volume: u16) -> Self {
        TaikoNote { volume, ..self }
    }

    open spec fn with_variant(self, variant: u16) -> Self {
        TaikoNote { variant: TaikoNoteVariant::spec_from_code(variant), ..self }
    }

    proof fn lemma_with_start(self, start: i64) {
    }

    proof fn lemma_with_duration(self, duration: i64) {
    }

    proof fn lemma_with_variant(self, variant: u16) {
    }

    proof fn lemma_with_volume(self, volume: u16) {
    }

    fn start(&self) -> (r: i64) {
        self.start
    }

    fn duration(&self) -> (r: i64) {
        self.duration
    }

    fn volume(&self) -> (r: u16) {
        self.volume
    }

    fn variant(&self) -> (r: u16) {
        self.variant.code()
    }

    fn set_start(&mut self, start: i64) {
        self.start = start;
    }

    fn set_duration(&mut self, duration: i64) {
        self.duration = duration;
    }

    fn set_volume(&mut self, volume: u16) {
        self.volume = volume;
    }

    fn set_variant(&mut self, variant: u16) {
        self.variant = TaikoNoteVariant::from_code(variant);
    }

    fn matches_variant(&self, variant: u16) -> (r: bool) {
        match TaikoNoteVariant::from_code(variant) {
            TaikoNoteVariant::Don => {
                self.variant == TaikoNoteVariant::Don || self.variant == TaikoNoteVariant::Both
            },
            TaikoNoteVariant::Kat => {
                self.variant == TaikoNoteVariant::Kat || self.variant == TaikoNoteVariant::Both
            },
            _ => false,
        }
    }
}

} // verus!
