//! The capability every timed note offers, the order notes are kept in, and
//! the plainest note there is.

use std::cmp::Ordering;
use vstd::prelude::*;

verus! {

/// A timed note. A sustained note is one note whose volume is above one.
pub trait Note: Copy {
    /// When the note starts.
    spec fn spec_start(&self) -> i64;

    /// How long the note lasts.
    spec fn spec_duration(&self) -> i64;

    /// How many hits the note can still take.
    spec fn spec_volume(&self) -> u16;

    /// The code of the note's variant.
    spec fn spec_variant(&self) -> u16;

    /// Whether a hit of variant `variant` may land on this note.
    spec fn spec_matches(&self, variant: u16) -> bool;

    /// The note with another start.
    spec fn with_start(self, start: i64) -> Self;

    /// The note with another duration.
    spec fn with_duration(self, duration: i64) -> Self;

    /// The note with another volume.
    spec fn with_volume(self, volume: u16) -> Self;

    /// The note with the variant that `variant` stands for.
    spec fn with_variant(self, variant: u16) -> Self;

    /// Changing the start changes neither the duration, nor the volume, nor
    /// the variant.
    proof fn lemma_with_start(self, start: i64)
        ensures
            self.with_start(start).spec_start() == start,
            self.with_start(start).spec_duration() == self.spec_duration(),
            self.with_start(start).spec_volume() == self.spec_volume(),
            self.with_start(start).spec_variant() == self.spec_variant(),
    ;

    /// Changing the duration changes neither the start, nor the volume, nor
    /// the variant.
    proof fn lemma_with_duration(self, duration: i64)
        ensures
            self.with_duration(duration).spec_duration() == duration,
            self.with_duration(duration).spec_start() == self.spec_start(),
            self.with_duration(duration).spec_volume() == self.spec_volume(),
            self.with_duration(duration).spec_variant() == self.spec_variant(),
    ;

    /// Changing the variant changes neither the start, nor the duration,
    /// nor the volume.
    proof fn lemma_with_variant(self, variant: u16)
        ensures
            self.with_variant(variant).spec_start() == self.spec_start(),
            self.with_variant(variant).spec_duration() == self.spec_duration(),
            self.with_variant(variant).spec_volume() == self.spec_volume(),
    ;

    /// Changing the volume changes nothing else that the engine looks at.
    proof fn lemma_with_volume(self, volume: u16)
        ensures
            self.with_volume(volume).spec_volume() == volume,
            self.with_volume(volume).spec_start() == self.spec_start(),
            self.with_volume(volume).spec_duration() == self.spec_duration(),
            self.with_volume(volume).spec_variant() == self.spec_variant(),
            forall|v: u16| self.with_volume(volume).spec_matches(v) == self.spec_matches(v),
    ;

    fn start(&self) -> (r: i64)
        ensures
            r == self.spec_start(),
    ;

    fn duration(&self) -> (r: i64)
        ensures
            r == self.spec_duration(),
    ;

    fn volume(&self) -> (r: u16)
        ensures
            r == self.spec_volume(),
    ;

    fn variant(&self) -> (r: u16)
        ensures
            r == self.spec_variant(),
    ;

    fn set_start(&mut self, start: i64)
        ensures
            *final(self) == old(self).with_start(start),
    ;

    fn set_duration(&mut self, duration: i64)
        ensures
            *final(self) == old(self).with_duration(duration),
    ;

    fn set_volume(&mut self, volume: u16)
        ensures
            *final(self) == old(self).with_volume(volume),
    ;

    fn set_variant(&mut self, variant: u16)
        ensures
            *final(self) == old(self).with_variant(variant),
    ;

    fn matches_variant(&self, variant: u16) -> (r: bool)
        ensures
            r == self.spec_matches(variant),
    ;
}

/// The instant at which a note ends.
pub open spec fn note_end<T: Note>(n: T) -> int {
    n.spec_start() + n.spec_duration()
}

/// `a` comes strictly before `b`: by start, then by end, then by variant.
pub open spec fn note_lt<T: Note>(a: T, b: T) -> bool {
    ||| a.spec_start() < b.spec_start()
    ||| a.spec_start() == b.spec_start() && note_end(a) < note_end(b)
    ||| a.spec_start() == b.spec_start() && note_end(a) == note_end(b) && a.spec_variant()
        < b.spec_variant()
}

/// Neither note comes before the other.
pub open spec fn note_tie<T: Note>(a: T, b: T) -> bool {
    &&& a.spec_start() == b.spec_start()
    &&& a.spec_duration() == b.spec_duration()
    &&& a.spec_variant() == b.spec_variant()
}

/// `a` does not come after `b`.
pub open spec fn note_le<T: Note>(a: T, b: T) -> bool {
    !note_lt(b, a)
}

/// The default order of notes: by start, ties broken by end, then by variant.
pub fn note_cmp<T: Note>(a: &T, b: &T) -> (o: Ordering)
    ensures
        (o == Ordering::Less) == note_lt(*a, *b),
        (o == Ordering::Equal) == note_tie(*a, *b),
        (o == Ordering::Greater) == note_lt(*b, *a),
{
    let (sa, sb): (i64, i64) = (a.start(), b.start());
    if sa < sb {
        Ordering::Less
    } else if sa > sb {
        Ordering::Greater
    } else {
        // equal starts: the ends compare as the durations do
        let (da, db): (i64, i64) = (a.duration(), b.duration());
        if da < db {
            Ordering::Less
        } else if da > db {
            Ordering::Greater
        } else {
            let (va, vb): (u16, u16) = (a.variant(), b.variant());
            if va < vb {
                Ordering::Less
            } else if va > vb {
                Ordering::Greater
            } else {
                Ordering::Equal
            }
        }
    }
}

/// Whether `a` comes strictly before `b` in the default order.
pub fn precedes<T: Note>(a: &T, b: &T) -> (r: bool)
    ensures
        r == note_lt(*a, *b),
{
    let (sa, sb): (i64, i64) = (a.start(), b.start());
    if sa != sb {
        sa < sb
    } else {
        let (da, db): (i64, i64) = (a.duration(), b.duration());
        if da != db {
            da < db
        } else {
            a.variant() < b.variant()
        }
    }
}

/// Whether the note has ended before the instant `t`.
pub fn ends_before<T: Note>(n: &T, t: i64) -> (r: bool)
    ensures
        r == (note_end(*n) < t),
{
    (n.start() as i128) + (n.duration() as i128) < (t as i128)
}

/// Whether the instant `t` lies in the note's window, both ends included.
pub fn covers<T: Note>(n: &T, t: i64) -> (r: bool)
    ensures
        r == (n.spec_start() <= t <= note_end(*n)),
{
    n.start() <= t && !ends_before(n, t)
}

/// A note that is nothing but its four numbers.
#[derive(Clone, Copy, Debug, PartialEq, Eq, Structural)]
pub struct SimpleNote {
    pub start: i64,
    pub duration: i64,
    pub volume: u16,
    pub variant: u16,
}

impl SimpleNote {
    pub fn new(start: i64, duration: i64, volume: u16, variant: u16) -> (r: Self)
        ensures
            r == (SimpleNote { start, duration, volume, variant }),
    {
        SimpleNote { start, duration, volume, variant }
    }
}

impl Note for SimpleNote {
    open spec fn spec_start(&self) -> i64 {
        self.start
    }

    open spec fn spec_duration(&self) -> i64 {
        self.duration
    }

    open spec fn spec_volume(&self) -> u16 {
        self.volume
    }

    open spec fn spec_variant(&self) -> u16 {
        self.variant
    }

    open spec fn spec_matches(&self, variant: u16) -> bool {
        self.variant == variant
    }

    open spec fn with_start(self, start: i64) -> Self {
        SimpleNote { start, ..self }
    }

    open spec fn with_duration(self, duration: i64) -> Self {
        SimpleNote { duration, ..self }
    }

    open spec fn with_volume(self, volume: u16) -> Self {
        SimpleNote { volume, ..self }
    }

    open spec fn with_variant(self, variant: u16) -> Self {
        SimpleNote { variant, ..self }
    }

    proof fn lemma_with_start(self, start: i64) {
    }

    proof fn lemma_with_duration(self, duration: i64) {
    }

    proof fn lemma_with_variant(self, variant: u16) {
    }

    proof fn lemma_with_volume(self, volume: u16) {
    }

    fn start(&self) -> (r: i64) {
        self.start
    }

    fn duration(&self) -> (r: i64) {
        self.duration
    }

    fn volume(&self) -> (r: u16) {
        self.volume
    }

    fn variant(&self) -> (r: u16) {
        self.variant
    }

    fn set_start(&mut self, start: i64) {
        self.start = start;
    }

    fn set_duration(&mut self, duration: i64) {
        self.duration = duration;
    }

    fn set_volume(&mut self, volume: u16) {
        self.volume = volume;
    }

    fn set_variant(&mut self, variant: u16) {
        self.variant = variant;
    }

    fn matches_variant(&self, variant: u16) -> (r: bool) {
        self.variant == variant
    }
}

} // verus!
