//! The availability engine: which notes can still be hit as time advances.

use crate::note::{covers, ends_before, note_end, note_le, precedes, Note};
use vstd::prelude::*;

verus! {

/// No note of `s` comes before one that stands earlier in `s`.
pub open spec fn is_sorted<T: Note>(s: Seq<T>) -> bool {
    forall|i: int, j: int| 0 <= i < j < s.len() ==> note_le(s[i], s[j])
}

/// `s` with `n` put behind the last note that does not come after it.
pub open spec fn sorted_insert<T: Note>(s: Seq<T>, n: T) -> Seq<T>
    decreases s.len(),
{
    if s.len() == 0 || note_le(s.last(), n) {
        s.push(n)
    } else {
        sorted_insert(s.drop_last(), n).push(s.last())
    }
}

/// The notes of `s` in the default order; notes that tie keep the order they
/// had in `s`.
pub open spec fn sort_notes<T: Note>(s: Seq<T>) -> Seq<T>
    decreases s.len(),
{
    if s.len() == 0 {
        s
    } else {
        sorted_insert(sort_notes(s.drop_last()), s.last())
    }
}

/// A note stays available at the instant `t`: it has not ended before `t`
/// and can still take a hit.
pub open spec fn keeps<T: Note>(n: T, t: int) -> bool {
    note_end(n) >= t && n.spec_volume() > 0
}

/// A note is missed at the instant `t`: it ended before `t` with hits left.
pub open spec fn missed<T: Note>(n: T, t: int) -> bool {
    note_end(n) < t && n.spec_volume() > 0
}

/// [`keeps`] at a fixed instant, as a predicate on notes.
pub open spec fn keeps_at<T: Note>(t: int) -> spec_fn(T) -> bool {
    |n: T| keeps(n, t)
}

/// [`missed`] at a fixed instant, as a predicate on notes.
pub open spec fn missed_at<T: Note>(t: int) -> spec_fn(T) -> bool {
    |n: T| missed(n, t)
}

/// A hit of variant `variant` at the instant `t` can land on `n`.
pub open spec fn hittable<T: Note>(n: T, t: int, variant: u16) -> bool {
    &&& n.spec_start() <= t <= note_end(n)
    &&& n.spec_matches(variant)
    &&& n.spec_volume() > 0
}

/// The first index from `from` on whose note the hit can land on.
pub open spec fn first_hit_from<T: Note>(s: Seq<T>, t: int, variant: u16, from: int) -> Option<int>
    decreases s.len() - from,
{
    if from < 0 || from >= s.len() {
        None
    } else if hittable(s[from], t, variant) {
        Some(from)
    } else {
        first_hit_from(s, t, variant, from + 1)
    }
}

/// The index of the note that a hit of variant `variant` at the instant `t`
/// lands on: the first one in `s` that it can land on.
pub open spec fn first_hit<T: Note>(s: Seq<T>, t: int, variant: u16) -> Option<int> {
    first_hit_from(s, t, variant, 0)
}

/// `s` after the note at `i` has taken one hit.
pub open spec fn after_hit<T: Note>(s: Seq<T>, i: int) -> Seq<T> {
    s.update(i, s[i].with_volume((s[i].spec_volume() - 1) as u16))
}

/// What a hit does to the note it lands on: it takes one from its volume.
pub open spec fn spend<T: Note>() -> spec_fn(T) -> T {
    |n: T| n.with_volume((n.spec_volume() - 1) as u16)
}

/// The notes after a hit of variant `variant` at the instant `t` that does
/// `mark` to the note it lands on: the first note that the hit can land on.
pub open spec fn struck_by<T: Note>(s: Seq<T>, t: int, variant: u16, mark: spec_fn(T) -> T) -> Seq<
    T,
> {
    match first_hit(s, t, variant) {
        Some(i) => s.update(i, mark(s[i])),
        None => s,
    }
}

/// The notes after a hit of variant `variant` at the instant `t`: the first
/// note that the hit can land on has taken it.
pub open spec fn struck<T: Note>(s: Seq<T>, t: int, variant: u16) -> Seq<T> {
    struck_by(s, t, variant, spend())
}

/// Inserting into a sorted sequence gives a sorted sequence that holds the
/// new note and the old ones, each as often as before.
pub proof fn lemma_sorted_insert<T: Note>(s: Seq<T>, n: T)
    requires
        is_sorted(s),
    ensures
        is_sorted(sorted_insert(s, n)),
        sorted_insert(s, n).len() == s.len() + 1,
        sorted_insert(s, n).to_multiset() == s.to_multiset().insert(n),
        forall|i: int|
            0 <= i < sorted_insert(s, n).len() ==> #[trigger] sorted_insert(s, n)[i] == n
                || s.contains(sorted_insert(s, n)[i]),
    decreases s.len(),
{
    broadcast use vstd::seq_lib::to_multiset_build;

    if s.len() == 0 || note_le(s.last(), n) {
        let r = s.push(n);
        assert forall|i: int, j: int| 0 <= i < j < r.len() implies note_le(r[i], r[j]) by {
            if j == s.len() && s.len() > 0 {
                assert(note_le(s[i], s.last()) || i == s.len() - 1);
            }
        }
        assert forall|i: int| 0 <= i < r.len() implies #[trigger] r[i] == n || s.contains(
            r[i],
        ) by {
            if i < s.len() {
                assert(s[i] == r[i]);
            }
        }
    } else {
        let head = s.drop_last();
        lemma_sorted_insert(head, n);
        let mid = sorted_insert(head, n);
        let r = mid.push(s.last());
        assert(s == head.push(s.last()));
        assert forall|i: int| 0 <= i < mid.len() implies note_le(#[trigger] mid[i], s.last()) by {
            if mid[i] != n {
                assert(head.contains(mid[i]));
                let k = choose|k: int| 0 <= k < head.len() && head[k] == mid[i];
                assert(note_le(s[k], s[s.len() - 1]));
            }
        }
        assert forall|i: int, j: int| 0 <= i < j < r.len() implies note_le(r[i], r[j]) by {
            if j == mid.len() {
                assert(note_le(mid[i], s.last()));
            } else {
                assert(note_le(mid[i], mid[j]));
            }
        }
        assert forall|i: int| 0 <= i < r.len() implies #[trigger] r[i] == n || s.contains(
            r[i],
        ) by {
            if i < mid.len() {
                if mid[i] != n {
                    let k = choose|k: int| 0 <= k < head.len() && head[k] == mid[i];
                    assert(s[k] == r[i]);
                }
            } else {
                assert(s[s.len() - 1] == r[i]);
            }
        }
        assert(r.to_multiset() == s.to_multiset().insert(n));
    }
}

/// Sorting gives a sorted sequence that holds the same notes, each as often
/// as before.
pub proof fn lemma_sort_notes<T: Note>(s: Seq<T>)
    ensures
        is_sorted(sort_notes(s)),
        sort_notes(s).len() == s.len(),
        sort_notes(s).to_multiset() == s.to_multiset(),
    decreases s.len(),
{
    broadcast use vstd::seq_lib::to_multiset_build;

    if s.len() > 0 {
        lemma_sort_notes(s.drop_last());
        lemma_sorted_insert(sort_notes(s.drop_last()), s.last());
        assert(s == s.drop_last().push(s.last()));
    }
}

/// Nothing is kept at `t` exactly when every note has ended before `t` or
/// has no hit left.
pub proof fn lemma_none_kept_iff_all_passed<T: Note>(s: Seq<T>, t: int)
    ensures
        s.filter(keeps_at(t)).len() == 0 <==> (forall|i: int|
            0 <= i < s.len() ==> note_end(#[trigger] s[i]) < t || s[i].spec_volume() == 0),
    decreases s.len(),
{
    reveal(Seq::filter);
    if s.len() > 0 {
        lemma_none_kept_iff_all_passed(s.drop_last(), t);
        assert(forall|i: int| 0 <= i < s.len() - 1 ==> s.drop_last()[i] == s[i]);
        if s.filter(keeps_at::<T>(t)).len() == 0 {
            assert(!keeps(s.last(), t));
        }
    }
}

/// The first note that a hit can land on: the hit can land on it and on
/// none before it; and where there is none, it can land on no note at all.
pub proof fn lemma_first_hit<T: Note>(s: Seq<T>, t: int, variant: u16)
    ensures
        match first_hit(s, t, variant) {
            Some(i) => {
                &&& 0 <= i < s.len()
                &&& hittable(s[i], t, variant)
                &&& forall|j: int| 0 <= j < i ==> !hittable(#[trigger] s[j], t, variant)
            },
            None => forall|j: int| 0 <= j < s.len() ==> !hittable(#[trigger] s[j], t, variant),
        },
{
    lemma_first_hit_from(s, t, variant, 0);
}

proof fn lemma_first_hit_from<T: Note>(s: Seq<T>, t: int, variant: u16, from: int)
    requires
        0 <= from,
    ensures
        match first_hit_from(s, t, variant, from) {
            Some(i) => {
                &&& from <= i < s.len()
                &&& hittable(s[i], t, variant)
                &&& forall|j: int| from <= j < i ==> !hittable(#[trigger] s[j], t, variant)
            },
            None => forall|j: int| from <= j < s.len() ==> !hittable(#[trigger] s[j], t, variant),
        },
    decreases s.len() - from,
{
    if from < s.len() && !hittable(s[from], t, variant) {
        lemma_first_hit_from(s, t, variant, from + 1);
    }
}

/// Among sorted notes, a hit lands on the note that starts first of those
/// it can land on.
pub proof fn lemma_first_hit_is_earliest<T: Note>(s: Seq<T>, t: int, variant: u16, j: int)
    requires
        is_sorted(s),
        0 <= j < s.len(),
        hittable(s[j], t, variant),
    ensures
        first_hit(s, t, variant) matches Some(i) && 0 <= i <= j && s[i].spec_start()
            <= s[j].spec_start(),
{
    lemma_first_hit(s, t, variant);
    let i = first_hit(s, t, variant)->0;
    if i < j {
        assert(note_le(s[i], s[j]));
    }
}

/// A hit changes no more than the volume of one note, by one.
pub proof fn lemma_after_hit<T: Note>(s: Seq<T>, i: int)
    requires
        0 <= i < s.len(),
        s[i].spec_volume() > 0,
    ensures
        after_hit(s, i).len() == s.len(),
        after_hit(s, i)[i].spec_volume() == s[i].spec_volume() - 1,
        after_hit(s, i)[i].spec_start() == s[i].spec_start(),
        after_hit(s, i)[i].spec_duration() == s[i].spec_duration(),
        after_hit(s, i)[i].spec_variant() == s[i].spec_variant(),
        forall|j: int| 0 <= j < s.len() && j != i ==> after_hit(s, i)[j] == s[j],
{
    s[i].lemma_with_volume((s[i].spec_volume() - 1) as u16);
}

/// The notes of `v` in the default order.
pub fn sorted_copy<T: Note>(v: &Vec<T>) -> (r: Vec<T>)
    ensures
        r@ == sort_notes(v@),
        is_sorted(r@),
{
    let mut r: Vec<T> = Vec::new();
    let n: usize = v.len();
    let mut i: usize = 0;
    while i < n
        invariant
            n == v.len(),
            i <= n,
            r@ == sort_notes(v@.subrange(0, i as int)),
            is_sorted(r@),
            r.len() == i,
        decreases n - i,
    {
        let note: T = v[i];
        let ghost before = r@;
        let mut j: usize = r.len();
        proof {
            assert(before.subrange(0, j as int) == before);
            assert(sorted_insert(before, note) + before.subrange(j as int, j as int)
                == sorted_insert(before, note));
        }
        while j > 0 && precedes(&note, &r[j - 1])
            invariant
                j <= r.len(),
                r@ == before,
                sorted_insert(before, note) == sorted_insert(before.subrange(0, j as int), note)
                    + before.subrange(j as int, before.len() as int),
            decreases j,
        {
            proof {
                let head = before.subrange(0, j as int);
                assert(head.last() == before[j - 1]);
                assert(head.drop_last() == before.subrange(0, j - 1));
                assert(sorted_insert(head.drop_last(), note).push(head.last()) + before.subrange(
                    j as int,
                    before.len() as int,
                ) == sorted_insert(head.drop_last(), note) + before.subrange(
                    j - 1,
                    before.len() as int,
                ));
            }
            j -= 1;
        }
        proof {
            let head = before.subrange(0, j as int);
            assert(sorted_insert(head, note) == head.push(note));
            assert(head.push(note) + before.subrange(j as int, before.len() as int)
                == before.insert(j as int, note));
            let prefix = v@.subrange(0, i + 1);
            assert(prefix.drop_last() == v@.subrange(0, i as int));
            assert(prefix.last() == note);
            lemma_sorted_insert(before, note);
        }
        r.insert(j, note);
        i += 1;
    }
    proof {
        assert(v@.subrange(0, n as int) == v@);
    }
    r
}

/// The engine that follows which notes are available as time advances.
pub struct Rhythm<T: Note> {
    notes: Vec<T>,
    time: i64,
    availables: Vec<T>,
}

impl<T: Note> Rhythm<T> {
    /// What every operation keeps: the available notes are in the default
    /// order.
    pub open spec fn wf(&self) -> bool {
        is_sorted(self.spec_availables())
    }

    /// The full set of notes, as it was given.
    pub closed spec fn spec_notes(&self) -> Seq<T> {
        self.notes@
    }

    /// The current instant.
    pub closed spec fn spec_time(&self) -> i64 {
        self.time
    }

    /// The notes that are available, in the default order.
    pub closed spec fn spec_availables(&self) -> Seq<T> {
        self.availables@
    }

    /// An engine at the instant 0 with every note available.
    pub fn new(notes: Vec<T>) -> (r: Self)
        ensures
            r.spec_notes() == notes@,
            r.spec_time() == 0,
            r.spec_availables() == sort_notes(notes@),
            r.wf(),
    {
        let availables = sorted_copy(&notes);
        Rhythm { notes, time: 0, availables }
    }

    pub fn notes(&self) -> (r: &Vec<T>)
        ensures
            r@ == self.spec_notes(),
    {
        &self.notes
    }

    pub fn current_time(&self) -> (r: i64)
        ensures
            r == self.spec_time(),
    {
        self.time
    }

    pub fn availables(&self) -> (r: &Vec<T>)
        ensures
            r@ == self.spec_availables(),
    {
        &self.availables
    }

    /// Whether no note is available any more.
    pub fn finished(&self) -> (r: bool)
        ensures
            r == (self.spec_availables().len() == 0),
    {
        self.availables.len() == 0
    }

    /// Moves the clock to `time` and drops every note that is not kept there.
    /// Returns the dropped notes that still had hits left, in order.
    pub fn advance_to(&mut self, time: i64) -> (gone: Vec<T>)
        requires
            old(self).wf(),
        ensures
            final(self).wf(),
            final(self).spec_notes() == old(self).spec_notes(),
            final(self).spec_time() == time,
            final(self).spec_availables() == old(self).spec_availables().filter(keeps_at(time as int)),
            final(self).spec_availables().len() <= old(self).spec_availables().len(),
            gone@ == old(self).spec_availables().filter(missed_at(time as int)),
            final(self).spec_availables().len() == 0 <==> (forall|i: int|
                0 <= i < old(self).spec_availables().len() ==> note_end(
                    #[trigger] old(self).spec_availables()[i],
                ) < time || old(self).spec_availables()[i].spec_volume() == 0),
    {
        let (kept, gone) = split_at_instant(&self.availables, time);
        proof {
            lemma_none_kept_iff_all_passed(self.availables@, time as int);
            self.availables@.lemma_filter_len(keeps_at(time as int));
        }
        self.time = time;
        self.availables = kept;
        gone
    }

    /// Advances the clock by `delta`; see [`Rhythm::advance_to`].
    pub fn forward(&mut self, delta: i64) -> (gone: Vec<T>)
        requires
            old(self).wf(),
            i64::MIN <= old(self).spec_time() + delta <= i64::MAX,
        ensures
            final(self).wf(),
            final(self).spec_notes() == old(self).spec_notes(),
            final(self).spec_time() == old(self).spec_time() + delta,
            final(self).spec_availables() == old(self).spec_availables().filter(
                keeps_at(old(self).spec_time() + delta),
            ),
            final(self).spec_availables().len() <= old(self).spec_availables().len(),
            gone@ == old(self).spec_availables().filter(missed_at(old(self).spec_time() + delta)),
            final(self).spec_availables().len() == 0 <==> (forall|i: int|
                0 <= i < old(self).spec_availables().len() ==> note_end(
                    #[trigger] old(self).spec_availables()[i],
                ) < old(self).spec_time() + delta || old(self).spec_availables()[i].spec_volume()
                    == 0),
    {
        let time: i64 = self.time + delta;
        self.advance_to(time)
    }

    /// Starts over at the instant `time`: every note of the full set is
    /// available again, but for those that are not kept at `time`.
    pub fn set_time(&mut self, time: i64)
        ensures
            final(self).wf(),
            final(self).spec_notes() == old(self).spec_notes(),
            final(self).spec_time() == time,
            final(self).spec_availables() == sort_notes(old(self).spec_notes()).filter(
                keeps_at(time as int),
            ),
            final(self).spec_availables().len() == 0 <==> (forall|i: int|
                0 <= i < old(self).spec_notes().len() ==> note_end(
                    #[trigger] old(self).spec_notes()[i],
                ) < time || old(self).spec_notes()[i].spec_volume() == 0),
    {
        let all = sorted_copy(&self.notes);
        let (kept, _gone) = split_at_instant(&all, time);
        proof {
            let src = self.notes@;
            let sorted = sort_notes(src);
            lemma_none_kept_iff_all_passed(sorted, time as int);
            lemma_sort_notes(src);
            assert forall|i: int| 0 <= i < src.len() implies sorted.contains(#[trigger] src[i]) by {
                assert(src.contains(src[i]));
                vstd::seq_lib::to_multiset_contains(src, src[i]);
                vstd::seq_lib::to_multiset_contains(sorted, src[i]);
            }
            assert forall|i: int| 0 <= i < sorted.len() implies src.contains(
                #[trigger] sorted[i],
            ) by {
                assert(sorted.contains(sorted[i]));
                vstd::seq_lib::to_multiset_contains(src, sorted[i]);
                vstd::seq_lib::to_multiset_contains(sorted, sorted[i]);
            }
        }
        self.time = time;
        self.availables = kept;
    }

    /// Lands a hit of variant `variant` on the first available note that it
    /// can land on, and takes one from that note's volume. Returns where the
    /// note stands among the available ones, and how long after its start
    /// the hit came.
    pub fn hit_at(&mut self, variant: u16) -> (r: Option<(usize, i64)>)
        requires
            old(self).wf(),
        ensures
            final(self).wf(),
            final(self).spec_notes() == old(self).spec_notes(),
            final(self).spec_time() == old(self).spec_time(),
            match first_hit(old(self).spec_availables(), old(self).spec_time() as int, variant) {
                Some(i) => {
                    &&& r matches Some((k, offset))
                    &&& k == i
                    &&& offset == old(self).spec_time() - old(self).spec_availables()[i].spec_start()
                    &&& 0 <= offset <= old(self).spec_availables()[i].spec_duration()
                    &&& final(self).spec_availables() == after_hit(old(self).spec_availables(), i)
                },
                None => r is None && final(self).spec_availables() == old(self).spec_availables(),
            },
            final(self).spec_availables() == struck(
                old(self).spec_availables(),
                old(self).spec_time() as int,
                variant,
            ),
    {
        let n: usize = self.availables.len();
        let mut i: usize = 0;
        while i < n
            invariant
                n == self.availables.len(),
                i <= n,
                *self == *old(self),
                is_sorted(self.availables@),
                first_hit(self.availables@, self.time as int, variant) == first_hit_from(
                    self.availables@,
                    self.time as int,
                    variant,
                    i as int,
                ),
            decreases n - i,
        {
            let mut note: T = self.availables[i];
            if covers(&note, self.time) && note.matches_variant(variant) && note.volume() > 0 {
                let offset: i64 = self.time - note.start();
                let left: u16 = note.volume() - 1;
                proof {
                    note.lemma_with_volume(left);
                }
                note.set_volume(left);
                proof {
                    let s = self.availables@;
                    let s2 = s.update(i as int, note);
                    assert forall|a: int, b: int| 0 <= a < b < s2.len() implies note_le(
                        s2[a],
                        s2[b],
                    ) by {
                        assert(note_le(s[a], s[b]));
                    }
                }
                self.availables.set(i, note);
                return Some((i, offset));
            }
            i += 1;
        }
        None
    }

    /// Lands a hit as [`Rhythm::hit_at`] does, and returns the note as it is
    /// after the hit, with how long after its start the hit came.
    pub fn hit(&mut self, variant: u16) -> (r: Option<(T, i64)>)
        requires
            old(self).wf(),
        ensures
            final(self).wf(),
            final(self).spec_notes() == old(self).spec_notes(),
            final(self).spec_time() == old(self).spec_time(),
            match first_hit(old(self).spec_availables(), old(self).spec_time() as int, variant) {
                Some(i) => {
                    &&& r matches Some((note, offset))
                    &&& note == after_hit(old(self).spec_availables(), i)[i]
                    &&& offset == old(self).spec_time() - old(self).spec_availables()[i].spec_start()
                    &&& final(self).spec_availables() == after_hit(old(self).spec_availables(), i)
                },
                None => r is None && final(self).spec_availables() == old(self).spec_availables(),
            },
    {
        proof {
            lemma_first_hit(self.spec_availables(), self.spec_time() as int, variant);
        }
        let ghost before = self.spec_availables();
        match self.hit_at(variant) {
            Some((i, offset)) => {
                assert(first_hit(before, self.spec_time() as int, variant) == Some(i as int));
                assert(self.availables@ == after_hit(before, i as int));
                Some((self.availables[i], offset))
            },
            None => None,
        }
    }

    /// Puts `note` in the place of the available note at `i`. The new note
    /// must stand where the old one stood in the default order.
    pub fn amend(&mut self, i: usize, note: T)
        requires
            old(self).wf(),
            i < old(self).spec_availables().len(),
            note.spec_start() == old(self).spec_availables()[i as int].spec_start(),
            note.spec_duration() == old(self).spec_availables()[i as int].spec_duration(),
            note.spec_variant() == old(self).spec_availables()[i as int].spec_variant(),
        ensures
            final(self).wf(),
            final(self).spec_notes() == old(self).spec_notes(),
            final(self).spec_time() == old(self).spec_time(),
            final(self).spec_availables() == old(self).spec_availables().update(i as int, note),
    {
        proof {
            let s = self.availables@;
            let s2 = s.update(i as int, note);
            assert forall|a: int, b: int| 0 <= a < b < s2.len() implies note_le(s2[a], s2[b]) by {
                assert(note_le(s[a], s[b]));
            }
        }
        self.availables.set(i, note);
    }
}

/// Splits sorted notes at the instant `time` into those that are kept and
/// those that are missed; notes without a hit left are in neither.
fn split_at_instant<T: Note>(notes: &Vec<T>, time: i64) -> (r: (Vec<T>, Vec<T>))
    requires
        is_sorted(notes@),
    ensures
        r.0@ == notes@.filter(keeps_at(time as int)),
        r.1@ == notes@.filter(missed_at(time as int)),
        is_sorted(r.0@),
{
    let mut kept: Vec<T> = Vec::new();
    let mut gone: Vec<T> = Vec::new();
    let n: usize = notes.len();
    let mut i: usize = 0;
    proof {
        reveal(Seq::filter);
        assert(notes@.subrange(0, 0).len() == 0);
    }
    while i < n
        invariant
            n == notes.len(),
            i <= n,
            is_sorted(notes@),
            is_sorted(kept@),
            forall|a: int, b: int|
                0 <= a < kept.len() && i <= b < n ==> note_le(#[trigger] kept[a], #[trigger] notes[b]),
            kept@ == notes@.subrange(0, i as int).filter(keeps_at(time as int)),
            gone@ == notes@.subrange(0, i as int).filter(missed_at(time as int)),
        decreases n - i,
    {
        let note: T = notes[i];
        let live: bool = note.volume() > 0;
        let ended: bool = ends_before(&note, time);
        proof {
            let head = notes@.subrange(0, i as int);
            assert(notes@.subrange(0, i + 1) == head.push(note));
            head.lemma_filter_push(note, keeps_at(time as int));
            head.lemma_filter_push(note, missed_at(time as int));
            assert forall|b: int| i < b < n implies note_le(note, #[trigger] notes[b]) by {
                assert(note_le(notes[i as int], notes[b]));
            }
        }
        if live && !ended {
            kept.push(note);
        } else if live {
            gone.push(note);
        }
        i += 1;
    }
    proof {
        assert(notes@.subrange(0, n as int) == notes@);
    }
    (kept, gone)
}

} // verus!
