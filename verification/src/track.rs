//! The available notes over a whole run: as long as the clock only moves
//! forwards, they are the notes that have not ended and can still take a
//! hit, whatever was played.

use crate::note::{note_end, Note};
use crate::rhythm::{
    first_hit, first_hit_from, hittable, keeps, keeps_at, lemma_first_hit,
    lemma_none_kept_iff_all_passed, spend, struck, struck_by,
};
use vstd::prelude::*;

verus! {

/// What is done to the engine: the clock is moved to an instant, or a hit of
/// a variant is landed.
#[derive(Clone, Copy, Debug, PartialEq, Eq, Structural)]
pub enum Play {
    To(i64),
    Hit(u16),
}

/// The available notes after one play: moving the clock drops the notes
/// that are not kept, a hit lands.
pub open spec fn played<T: Note>(availables: Seq<T>, time: i64, play: Play) -> Seq<T> {
    match play {
        Play::To(t) => availables.filter(keeps_at(t as int)),
        Play::Hit(v) => struck(availables, time as int, v),
    }
}

/// All the notes after one play: the clock drops none of them, a hit lands.
pub open spec fn lived<T: Note>(live: Seq<T>, time: i64, play: Play) -> Seq<T> {
    match play {
        Play::To(t) => live,
        Play::Hit(v) => struck(live, time as int, v),
    }
}

/// The instant after one play.
pub open spec fn clock(time: i64, play: Play) -> i64 {
    match play {
        Play::To(t) => t,
        Play::Hit(v) => time,
    }
}

/// The available notes after a run of plays.
pub open spec fn played_all<T: Note>(availables: Seq<T>, time: i64, plays: Seq<Play>) -> Seq<T>
    decreases plays.len(),
{
    if plays.len() == 0 {
        availables
    } else {
        played_all(played(availables, time, plays[0]), clock(time, plays[0]), plays.drop_first())
    }
}

/// All the notes after a run of plays.
pub open spec fn lived_all<T: Note>(live: Seq<T>, time: i64, plays: Seq<Play>) -> Seq<T>
    decreases plays.len(),
{
    if plays.len() == 0 {
        live
    } else {
        lived_all(lived(live, time, plays[0]), clock(time, plays[0]), plays.drop_first())
    }
}

/// The instant after a run of plays.
pub open spec fn clock_all(time: i64, plays: Seq<Play>) -> i64
    decreases plays.len(),
{
    if plays.len() == 0 {
        time
    } else {
        clock_all(clock(time, plays[0]), plays.drop_first())
    }
}

/// The clock never moves backwards over the run.
pub open spec fn forward_only(time: i64, plays: Seq<Play>) -> bool
    decreases plays.len(),
{
    if plays.len() == 0 {
        true
    } else {
        clock(time, plays[0]) >= time && forward_only(clock(time, plays[0]), plays.drop_first())
    }
}

/// The available notes hold what is kept of all the notes at `t`.
pub open spec fn tracks<T: Note>(availables: Seq<T>, live: Seq<T>, t: int) -> bool {
    availables.filter(keeps_at(t)) == live.filter(keeps_at(t))
}

/// The notes after a hit, from the first note on.
spec fn struck_from_front<T: Note>(s: Seq<T>, t: int, variant: u16, mark: spec_fn(T) -> T) -> Seq<
    T,
>
    decreases s.len(),
{
    if s.len() == 0 {
        s
    } else if hittable(s[0], t, variant) {
        seq![mark(s[0])] + s.drop_first()
    } else {
        seq![s[0]] + struck_from_front(s.drop_first(), t, variant, mark)
    }
}

proof fn lemma_first_hit_shift<T: Note>(s: Seq<T>, t: int, variant: u16, from: int)
    requires
        s.len() > 0,
        0 <= from,
    ensures
        first_hit_from(s, t, variant, from + 1) == match first_hit_from(
            s.drop_first(),
            t,
            variant,
            from,
        ) {
            Some(i) => Some(i + 1),
            None => None,
        },
    decreases s.len() - from,
{
    let r = s.drop_first();
    if from < r.len() {
        assert(r[from] == s[from + 1]);
        if !hittable(r[from], t, variant) {
            lemma_first_hit_shift(s, t, variant, from + 1);
        }
    }
}

proof fn lemma_struck_from_front<T: Note>(s: Seq<T>, t: int, variant: u16, mark: spec_fn(T) -> T)
    ensures
        struck_by(s, t, variant, mark) == struck_from_front(s, t, variant, mark),
    decreases s.len(),
{
    if s.len() > 0 {
        let r = s.drop_first();
        if hittable(s[0], t, variant) {
            assert(s.update(0, mark(s[0])) =~= seq![mark(s[0])] + r);
        } else {
            lemma_first_hit_shift(s, t, variant, 0);
            lemma_struck_from_front(r, t, variant, mark);
            lemma_first_hit(r, t, variant);
            match first_hit(r, t, variant) {
                Some(i) => {
                    assert(s[i + 1] == r[i]);
                    assert(s.update(i + 1, mark(s[i + 1])) =~= seq![s[0]] + r.update(i, mark(r[i])));
                },
                None => {
                    assert(s =~= seq![s[0]] + r);
                },
            }
        }
    }
}

/// What is kept at `t` is kept at every instant before.
proof fn lemma_filter_twice<T: Note>(s: Seq<T>, t0: int, t: int)
    requires
        t0 <= t,
    ensures
        s.filter(keeps_at(t0)).filter(keeps_at(t)) == s.filter(keeps_at(t)),
    decreases s.len(),
{
    reveal(Seq::filter);
    if s.len() > 0 {
        let h = s.drop_last();
        lemma_filter_twice(h, t0, t);
        if keeps(s.last(), t0) {
            h.filter(keeps_at(t0)).lemma_filter_push(s.last(), keeps_at(t));
        }
    }
}

proof fn lemma_struck_filter<T: Note>(s: Seq<T>, t: int, variant: u16, mark: spec_fn(T) -> T)
    ensures
        struck_from_front(s, t, variant, mark).filter(keeps_at(t)) == struck_from_front(
            s.filter(keeps_at(t)),
            t,
            variant,
            mark,
        ).filter(keeps_at(t)),
    decreases s.len(),
{
    let k = keeps_at::<T>(t);
    if s.len() == 0 {
        reveal(Seq::filter);
    } else {
        let a = s[0];
        let r = s.drop_first();
        assert(s =~= seq![a] + r);
        r.lemma_filter_prepend(a, k);
        lemma_struck_filter(r, t, variant, mark);
        if hittable(a, t, variant) {
            let b = mark(a);
            r.lemma_filter_prepend(b, k);
            let y = s.filter(k);
            assert(y[0] == a);
            assert(y.drop_first() =~= r.filter(k));
            r.filter(k).lemma_filter_prepend(b, k);
            lemma_filter_twice(r, t, t);
        } else if keeps(a, t) {
            struck_from_front(r, t, variant, mark).lemma_filter_prepend(a, k);
            let y = s.filter(k);
            assert(y[0] == a);
            assert(y.drop_first() =~= r.filter(k));
            struck_from_front(r.filter(k), t, variant, mark).lemma_filter_prepend(a, k);
        } else {
            struck_from_front(r, t, variant, mark).lemma_filter_prepend(a, k);
            assert(s.filter(k) =~= r.filter(k));
        }
    }
}

/// Moving the clock forwards keeps the available notes on track.
pub proof fn lemma_tracks_forward<T: Note>(availables: Seq<T>, live: Seq<T>, t0: int, t: int)
    requires
        tracks(availables, live, t0),
        t0 <= t,
    ensures
        tracks(availables.filter(keeps_at(t)), live, t),
        availables.filter(keeps_at(t)) == live.filter(keeps_at(t)),
{
    lemma_filter_twice(availables, t0, t);
    lemma_filter_twice(live, t0, t);
    lemma_filter_twice(availables, t, t);
}

/// A hit keeps the available notes on track, whatever it does to the note
/// it lands on: it lands on the same note among the available ones as among
/// all.
pub proof fn lemma_tracks_hit<T: Note>(
    availables: Seq<T>,
    live: Seq<T>,
    t: int,
    variant: u16,
    mark: spec_fn(T) -> T,
)
    requires
        tracks(availables, live, t),
    ensures
        tracks(struck_by(availables, t, variant, mark), struck_by(live, t, variant, mark), t),
{
    lemma_struck_from_front(availables, t, variant, mark);
    lemma_struck_from_front(live, t, variant, mark);
    lemma_struck_filter(availables, t, variant, mark);
    lemma_struck_filter(live, t, variant, mark);
}

/// A run of plays in which the clock never moves backwards keeps the
/// available notes on track.
pub proof fn lemma_tracks_all<T: Note>(
    availables: Seq<T>,
    live: Seq<T>,
    time: i64,
    plays: Seq<Play>,
)
    requires
        tracks(availables, live, time as int),
        forward_only(time, plays),
    ensures
        tracks(
            played_all(availables, time, plays),
            lived_all(live, time, plays),
            clock_all(time, plays) as int,
        ),
        clock_all(time, plays) >= time,
    decreases plays.len(),
{
    if plays.len() > 0 {
        match plays[0] {
            Play::To(t) => {
                lemma_tracks_forward(availables, live, time as int, t as int);
            },
            Play::Hit(v) => {
                lemma_tracks_hit(availables, live, time as int, v, spend());
            },
        }
        lemma_tracks_all(
            played(availables, time, plays[0]),
            lived(live, time, plays[0]),
            clock(time, plays[0]),
            plays.drop_first(),
        );
    }
}

/// After any run of plays from the start in which the clock never moves
/// backwards, moving the clock on leaves no note available exactly when
/// every note has ended before the new instant or has no hit left, with the
/// hits counted that landed on it.
pub proof fn lemma_finished_when_all_passed<T: Note>(
    notes: Seq<T>,
    time: i64,
    plays: Seq<Play>,
    t: i64,
)
    requires
        forward_only(time, plays),
        clock_all(time, plays) <= t,
    ensures
        played(played_all(notes, time, plays), clock_all(time, plays), Play::To(t)).len() == 0 <==> (
        forall|i: int|
            0 <= i < lived_all(notes, time, plays).len() ==> note_end(
                #[trigger] lived_all(notes, time, plays)[i],
            ) < t || lived_all(notes, time, plays)[i].spec_volume() == 0),
{
    lemma_tracks_all(notes, notes, time, plays);
    let av = played_all(notes, time, plays);
    let live = lived_all(notes, time, plays);
    lemma_tracks_forward(av, live, clock_all(time, plays) as int, t as int);
    lemma_none_kept_iff_all_passed(live, t as int);
}

} // verus!
