//! Around a game: the course made ready to be played, a player that plays
//! by itself, and the cursor of a menu.

use crate::taiko::state::{GameSource, Hit};
use crate::tja::chart::{CourseView, TJACourse};
use crate::tja::note::{all_playable, playable, TaikoNote, TaikoNoteVariant, TIME_LIMIT};
use vstd::prelude::*;

verus! {

/// The player that plays by itself strikes a note no earlier than this
/// before its instant, in nanoseconds.
pub const AUTO_LEAD: i64 = 20_000_000;

/// The player that plays by itself strikes a note no later than this after
/// its instant, in nanoseconds.
pub const AUTO_LAG: i64 = 50_000_000;

/// The entry of a list after the selected one; the first follows the last.
/// With nothing selected, the first counts as selected.
pub open spec fn next_entry(selected: Option<usize>, len: usize) -> int {
    (match selected {
        Some(i) => i as int,
        None => 0,
    } + 1) % (len as int)
}

/// The entry of a list before the selected one; the last precedes the
/// first. With nothing selected, the first counts as selected.
pub open spec fn prev_entry(selected: Option<usize>, len: usize) -> int {
    (match selected {
        Some(i) => i as int,
        None => 0,
    } + len - 1) % (len as int)
}

/// The entry to select after `selected` in a list of `len` entries.
pub fn select_next(selected: Option<usize>, len: usize) -> (r: usize)
    requires
        len > 0,
    ensures
        r == next_entry(selected, len),
        r < len,
{
    let at: u128 = match selected {
        Some(i) => i as u128,
        None => 0,
    };
    ((at + 1) % (len as u128)) as usize
}

/// The entry to select before `selected` in a list of `len` entries.
pub fn select_prev(selected: Option<usize>, len: usize) -> (r: usize)
    requires
        len > 0,
    ensures
        r == prev_entry(selected, len),
        r < len,
{
    let at: u128 = match selected {
        Some(i) => i as u128,
        None => 0,
    };
    ((at + (len as u128) - 1) % (len as u128)) as usize
}

/// A note moved by `by` nanoseconds.
pub open spec fn moved(note: TaikoNote, by: i64) -> TaikoNote {
    TaikoNote { start: (note.start + by) as i64, ..note }
}

/// The notes moved by `by` nanoseconds.
pub open spec fn moved_all(notes: Seq<TaikoNote>, by: i64) -> Seq<TaikoNote> {
    Seq::new(notes.len(), |i: int| moved(notes[i], by))
}

/// Whether a course can be made ready: its number and its level, where it
/// has one, are numbers that a source holds, and every note can be played
/// where it is moved to.
pub open spec fn can_be_played(course: CourseView, by: i64) -> bool {
    &&& 0 <= course.course <= u8::MAX
    &&& (course.level matches Some(l) ==> 0 <= l <= u8::MAX)
    &&& all_playable(moved_all(course.notes, by))
    &&& forall|i: int|
        0 <= i < course.notes.len() ==> i64::MIN <= (#[trigger] course.notes[i]).start + by
            <= i64::MAX
}

impl GameSource {
    /// What the engine is built on for a course whose notes are moved by
    /// `by` nanoseconds: by what the chart sets them off from the music and
    /// by what the player asks for. A course without a level has level zero.
    pub fn from_course(course: &TJACourse, by: i64) -> (r: Option<Self>)
        ensures
            r is Some == can_be_played(course@, by),
            r matches Some(src) ==> {
                &&& src.difficulty == course.course
                &&& src.level == match course.level {
                    Some(l) => l,
                    None => 0,
                }
                &&& src.scoreinit == course.scoreinit
                &&& src.scorediff == course.scorediff
                &&& src.notes@ == moved_all(course.notes@, by)
                &&& all_playable(src.notes@)
            },
    {
        if course.course < 0 || course.course > 255 {
            return None;
        }
        let level: u8 = match course.level {
            Some(l) => {
                if l < 0 || l > 255 {
                    return None;
                }
                l as u8
            },
            None => 0,
        };
        let n: usize = course.notes.len();
        let mut notes: Vec<TaikoNote> = Vec::new();
        let mut i: usize = 0;
        while i < n
            invariant
                n == course.notes@.len(),
                i <= n,
                notes.len() == i,
                forall|j: int| 0 <= j < i ==> #[trigger] notes@[j] == moved(course.notes@[j], by),
                forall|j: int| 0 <= j < i ==> playable(#[trigger] notes@[j]),
                forall|j: int|
                    0 <= j < i ==> i64::MIN <= (#[trigger] course.notes@[j]).start + by
                        <= i64::MAX,
            decreases n - i,
        {
            let note: TaikoNote = course.notes[i];
            let start: i128 = (note.start as i128) + (by as i128);
            if start < -(TIME_LIMIT as i128) || start > TIME_LIMIT as i128 {
                proof {
                    assert(!playable(moved_all(course.notes@, by)[i as int]) || !(i64::MIN
                        <= course.notes@[i as int].start + by <= i64::MAX));
                }
                return None;
            }
            let there = TaikoNote { start: start as i64, ..note };
            if !there.is_playable() {
                proof {
                    assert(moved_all(course.notes@, by)[i as int] == there);
                }
                return None;
            }
            notes.push(there);
            i += 1;
        }
        proof {
            assert(notes@ =~= moved_all(course.notes@, by));
        }
        Some(
            GameSource {
                difficulty: course.course as u8,
                level,
                scoreinit: course.scoreinit,
                scorediff: course.scorediff,
                notes,
            },
        )
    }
}

/// What the player that plays by itself has before it.
pub struct AutoView {
    /// The notes that are still to come, in the order of the course.
    pub queue: Seq<TaikoNote>,
    /// How many turns it rests before the next stroke on a roll.
    pub rest: u64,
}

/// What a turn of the player that plays by itself comes to.
pub struct AutoTurn {
    pub state: AutoView,
    pub hit: Option<Hit>,
}

/// A turn of the player that plays by itself at the instant `time`, in a
/// game of `tps` turns a second, with `hit` struck so far in this turn. It
/// goes through the notes to come. A note that has ended is passed over. A
/// single stroke that is due is struck and passed over; one that is not yet
/// due ends the turn. A roll that has started is struck with every
/// twentieth of `tps` turns, and ends the turn as one that has not started
/// does. Any other note is passed over.
pub open spec fn auto_turn(queue: Seq<TaikoNote>, rest: u64, time: i64, tps: u64, hit: Option<
    Hit,
>) -> AutoTurn
    decreases queue.len(),
{
    if queue.len() == 0 {
        AutoTurn { state: AutoView { queue, rest }, hit }
    } else {
        let note = queue[0];
        if time > note.start + note.duration {
            auto_turn(queue.drop_first(), rest, time, tps, hit)
        } else if note.variant == TaikoNoteVariant::Don || note.variant == TaikoNoteVariant::Kat {
            if note.start - time < AUTO_LEAD && time - note.start < AUTO_LAG {
                auto_turn(
                    queue.drop_first(),
                    rest,
                    time,
                    tps,
                    Some(
                        if note.variant == TaikoNoteVariant::Don {
                            Hit::Don
                        } else {
                            Hit::Kat
                        },
                    ),
                )
            } else {
                AutoTurn { state: AutoView { queue, rest }, hit }
            }
        } else if note.variant == TaikoNoteVariant::Both {
            if time > note.start {
                if rest == 0 {
                    AutoTurn { state: AutoView { queue, rest: tps / 20 }, hit: Some(Hit::Don) }
                } else {
                    AutoTurn { state: AutoView { queue, rest: (rest - 1) as u64 }, hit }
                }
            } else {
                AutoTurn { state: AutoView { queue, rest }, hit }
            }
        } else {
            auto_turn(queue.drop_first(), rest, time, tps, hit)
        }
    }
}

/// A player that plays a course by itself.
pub struct AutoPlayer {
    notes: Vec<TaikoNote>,
    next: usize,
    rest: u64,
}

impl View for AutoPlayer {
    type V = AutoView;

    closed spec fn view(&self) -> AutoView {
        AutoView {
            queue: if self.next <= self.notes@.len() {
                self.notes@.subrange(self.next as int, self.notes@.len() as int)
            } else {
                Seq::empty()
            },
            rest: self.rest,
        }
    }
}

impl AutoPlayer {
    /// A player with all of `notes` before it.
    pub fn new(notes: Vec<TaikoNote>) -> (r: Self)
        ensures
            r@ == (AutoView { queue: notes@, rest: 0 }),
    {
        proof {
            assert(notes@.subrange(0, notes@.len() as int) == notes@);
        }
        AutoPlayer { notes, next: 0, rest: 0 }
    }

    /// How many notes are still to come.
    pub fn remaining(&self) -> (r: usize)
        ensures
            r == self@.queue.len(),
    {
        if self.next <= self.notes.len() {
            self.notes.len() - self.next
        } else {
            0
        }
    }

    /// The stroke of this turn, if there is one; see [`auto_turn`].
    pub fn turn(&mut self, time: i64, tps: u64) -> (hit: Option<Hit>)
        ensures
            final(self)@ == auto_turn(old(self)@.queue, old(self)@.rest, time, tps, None).state,
            hit == auto_turn(old(self)@.queue, old(self)@.rest, time, tps, None).hit,
    {
        let n: usize = self.notes.len();
        let mut hit: Option<Hit> = None;
        if self.next > n {
            return None;
        }
        while self.next < n
            invariant
                n == self.notes@.len(),
                self.next <= n,
                self.notes@ == old(self).notes@,
                auto_turn(old(self)@.queue, old(self)@.rest, time, tps, None) == auto_turn(
                    self@.queue,
                    self.rest,
                    time,
                    tps,
                    hit,
                ),
            decreases n - self.next,
        {
            let note: TaikoNote = self.notes[self.next];
            proof {
                let queue = self@.queue;
                assert(queue[0] == note);
                assert(queue.drop_first() == self.notes@.subrange(self.next + 1, n as int));
            }
            if (time as i128) > (note.start as i128) + (note.duration as i128) {
                self.next += 1;
            } else {
                match note.variant {
                    TaikoNoteVariant::Don | TaikoNoteVariant::Kat => {
                        if (note.start as i128) - (time as i128) < AUTO_LEAD as i128 && (
                        time as i128) - (note.start as i128) < AUTO_LAG as i128 {
                            hit = Some(
                                match note.variant {
                                    TaikoNoteVariant::Don => Hit::Don,
                                    _ => Hit::Kat,
                                },
                            );
                            self.next += 1;
                        } else {
                            return hit;
                        }
                    },
                    TaikoNoteVariant::Both => {
                        if time > note.start {
                            if self.rest == 0 {
                                self.rest = tps / 20;
                                return Some(Hit::Don);
                            } else {
                                self.rest -= 1;
                                return hit;
                            }
                        } else {
                            return hit;
                        }
                    },
                    _ => {
                        self.next += 1;
                    },
                }
            }
        }
        hit
    }
}

} // verus!
