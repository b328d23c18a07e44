//! The constants of judging: the timing ranges, and for each difficulty and
//! level what the gauge asks for.

use vstd::prelude::*;

verus! {

/// The gauge table is written in this many parts of one.
pub const GAUGE_UNIT: u32 = 1_000_000;

/// No timing range is longer than this, in nanoseconds.
pub const RANGE_LIMIT: i64 = 1_000_000_000_000_000_000;

/// What the gauge asks for at one difficulty and level, in parts of
/// [`GAUGE_UNIT`].
#[derive(Clone, Copy, Debug, PartialEq, Eq, Structural)]
pub struct GaugeRule {
    /// How much of a chart must be hit well for a full gauge.
    pub full: u32,
    /// How much of it must be hit well to pass.
    pub pass: u32,
    /// How much a missed note takes away, as a multiple of what a well hit
    /// note adds.
    pub miss: u32,
}

/// The rules of judging. They belong to whoever builds an engine.
#[derive(Clone, Debug, PartialEq, Eq)]
pub struct Rules {
    /// A hit no further than this from a note, in nanoseconds, is great.
    pub range_great: i64,
    /// A hit no further than this from a note is good enough.
    pub range_ok: i64,
    /// A hit no further than this from a note lands on it at all.
    pub range_miss: i64,
    /// The gauge rule of each difficulty, by level.
    pub gauge: Vec<Vec<GaugeRule>>,
}

impl Rules {
    /// The ranges are not negative nor beyond the limit, and no gauge rule
    /// takes nothing for a full gauge.
    pub open spec fn wf(&self) -> bool {
        &&& 0 <= self.range_great <= RANGE_LIMIT
        &&& 0 <= self.range_ok <= RANGE_LIMIT
        &&& 0 <= self.range_miss <= RANGE_LIMIT
        &&& forall|d: int, l: int|
            0 <= d < self.gauge@.len() && 0 <= l < self.gauge@[d]@.len() ==> (
            #[trigger] self.gauge@[d]@[l]).full > 0
    }

    /// The table has a rule for this difficulty and level.
    pub open spec fn covers(&self, difficulty: u8, level: u8) -> bool {
        difficulty < self.gauge@.len() && level < self.gauge@[difficulty as int]@.len()
    }

    /// The rule for a difficulty and level.
    pub open spec fn spec_rule(&self, difficulty: u8, level: u8) -> GaugeRule {
        self.gauge@[difficulty as int]@[level as int]
    }

    /// Whether the rules are well formed.
    pub fn is_valid(&self) -> (r: bool)
        ensures
            r == self.wf(),
    {
        if !(0 <= self.range_great && self.range_great <= RANGE_LIMIT && 0 <= self.range_ok
            && self.range_ok <= RANGE_LIMIT && 0 <= self.range_miss && self.range_miss
            <= RANGE_LIMIT) {
            return false;
        }
        let mut d: usize = 0;
        while d < self.gauge.len()
            invariant
                d <= self.gauge@.len(),
                forall|a: int, l: int|
                    0 <= a < d && 0 <= l < self.gauge@[a]@.len() ==> (
                    #[trigger] self.gauge@[a]@[l]).full > 0,
            decreases self.gauge@.len() - d,
        {
            let row = &self.gauge[d];
            let mut l: usize = 0;
            while l < row.len()
                invariant
                    d < self.gauge@.len(),
                    row@ == self.gauge@[d as int]@,
                    l <= row@.len(),
                    forall|b: int| 0 <= b < l ==> (#[trigger] row@[b]).full > 0,
                decreases row@.len() - l,
            {
                if row[l].full == 0 {
                    return false;
                }
                l += 1;
            }
            d += 1;
        }
        true
    }

    /// The rule for a difficulty and level, where the table has one.
    pub fn rule(&self, difficulty: u8, level: u8) -> (r: Option<GaugeRule>)
        ensures
            r == if self.covers(difficulty, level) {
                Some(self.spec_rule(difficulty, level))
            } else {
                None
            },
    {
        if (difficulty as usize) < self.gauge.len() {
            let row = &self.gauge[difficulty as usize];
            if (level as usize) < row.len() {
                return Some(row[level as usize]);
            }
        }
        None
    }
}

} // verus!
