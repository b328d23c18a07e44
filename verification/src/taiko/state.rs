//! What goes into the engine and what comes out of it.

use crate::ratio::Ratio;
use crate::taiko::calculated::CalculatedNote;
use crate::tja::note::TaikoNote;
use vstd::prelude::*;

verus! {

/// A stroke of the player.
#[derive(Clone, Copy, PartialEq, Eq, PartialOrd, Hash, Debug, Structural)]
pub enum Hit {
    Don,
    Kat,
}

impl Hit {
    /// The code of the note variant that the stroke is meant for.
    pub open spec fn spec_code(self) -> u16 {
        match self {
            Hit::Don => 1,
            Hit::Kat => 2,
        }
    }

    pub fn code(self) -> (r: u16)
        ensures
            r == self.spec_code(),
    {
        match self {
            Hit::Don => 1,
            Hit::Kat => 2,
        }
    }
}

/// How a stroke was judged.
#[derive(Clone, Copy, PartialEq, Eq, PartialOrd, Ord, Hash, Debug, Structural)]
pub enum Judgement {
    Great,
    Good,
    Miss,
    /// The stroke landed on a roll or a balloon.
    ComboHit,
    /// The stroke landed on no note.
    Nothing,
}

/// What an engine is built on: a course and how it scores.
#[derive(Clone, PartialEq, Eq, Debug)]
pub struct GameSource {
    pub difficulty: u8,
    pub level: u8,
    pub scoreinit: Option<i32>,
    pub scorediff: Option<i32>,
    pub notes: Vec<TaikoNote>,
}

/// What the player did up to an instant.
#[derive(Clone, Copy, PartialEq, Eq, Debug)]
pub struct InputState<H> {
    /// The instant in the music, in nanoseconds.
    pub time: i64,
    /// The stroke since the instant before, if there was one.
    pub hit: Option<H>,
}

/// Where the game stands after an instant.
#[derive(Clone, PartialEq, Eq, Debug)]
pub struct OutputState {
    /// Whether no note is left.
    pub finished: bool,
    pub score: u32,
    pub current_combo: u32,
    pub max_combo: u32,
    /// The gauge, from zero to one.
    pub gauge: Ratio,
    /// How the stroke of this instant was judged, if there was one.
    pub judgement: Option<Judgement>,
    /// The notes to be shown.
    pub display: Vec<CalculatedNote>,
}

/// What an [`OutputState`] holds.
pub struct OutputView {
    pub finished: bool,
    pub score: u32,
    pub current_combo: u32,
    pub max_combo: u32,
    pub gauge: Ratio,
    pub judgement: Option<Judgement>,
    pub display: Seq<CalculatedNote>,
}

impl View for OutputState {
    type V = OutputView;

    open spec fn view(&self) -> OutputView {
        OutputView {
            finished: self.finished,
            score: self.score,
            current_combo: self.current_combo,
            max_combo: self.max_combo,
            gauge: self.gauge,
            judgement: self.judgement,
            display: self.display@,
        }
    }
}

/// How a game ended.
#[derive(Clone, Copy, PartialEq, Eq, Debug, Structural)]
pub struct Final {
    pub score: u32,
    pub max_combo: u32,
    pub gauge: Ratio,
    pub greats: u32,
    pub goods: u32,
    pub misses: u32,
    /// The most hits that one roll or balloon took.
    pub max_hit: u32,
    pub passed: bool,
}

} // verus!
