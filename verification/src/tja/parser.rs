//! The chart parser.

use crate::tja::chart::{course_views, ParseError, TJACourse, TJAHeader, TJA};
use crate::tja::grammar::{
    advance, balloon_counts, close_measure, command, course_field, course_of, header_line,
    initial_state, magnitude, marker, measure_line, open_balloon, open_course, padded, parse_chart,
    push_note, run_segments, run_symbols, run_text, set_header, speed_of, step_line,
    symbol_duration, tap, total_symbols, write_symbol, SegmentView, StateView, DECIMAL_LIMIT,
    DEFAULT_BALLOON, DEFAULT_BPM, SECONDS_LIMIT, UNIT_SCROLL, WHOLE_NOTE,
};
use crate::tja::note::{
    all_playable, playable, TaikoNote, TaikoNoteType, TaikoNoteVariant, TIME_LIMIT,
};
use crate::tja::number::{read_decimal, read_i32, read_u16};
use crate::tja::text::{
    chars_of, copy_range, find_char_from, is_word, lowercase, split_at_char, split_word, trimmed,
    without_comment,
};
use vstd::prelude::*;

verus! {

/// A `String` of the characters of `chars`, made by `String::from_iter`.
/// The contract claims that the string holds those characters, in order,
/// and no others.
#[verifier::external_body]
fn text_of(chars: &Vec<char>) -> (s: String)
    ensures
        s@ == chars@,
{
    String::from_iter(chars.iter())
}

/// A run of symbols with the tempo and the scroll factor under which it was
/// written.
struct Segment {
    bpm: i64,
    scroll: i64,
    symbols: Vec<char>,
}

impl View for Segment {
    type V = SegmentView;

    closed spec fn view(&self) -> SegmentView {
        SegmentView { bpm: self.bpm, scroll: self.scroll, symbols: self.symbols@ }
    }
}

spec fn segment_views(s: Seq<Segment>) -> Seq<SegmentView> {
    s.map_values(|x: Segment| x@)
}

/// What the parser has built up so far.
struct ParseState {
    header: TJAHeader,
    courses: Vec<TJACourse>,
    open: bool,
    current: TJACourse,
    balloons: Vec<u16>,
    time: i64,
    bpm: i64,
    scroll: i64,
    beats: i32,
    unit: i32,
    segments: Vec<Segment>,
    combo: Option<TaikoNote>,
}

impl View for ParseState {
    type V = StateView;

    closed spec fn view(&self) -> StateView {
        StateView {
            header: self.header@,
            courses: course_views(self.courses@),
            open: self.open,
            current: self.current@,
            balloons: self.balloons@,
            time: self.time,
            bpm: self.bpm,
            scroll: self.scroll,
            beats: self.beats,
            unit: self.unit,
            segments: segment_views(self.segments@),
            combo: self.combo,
        }
    }
}

spec fn small(x: i64) -> bool {
    -DECIMAL_LIMIT <= x <= DECIMAL_LIMIT
}

spec fn swift(x: i64) -> bool {
    -1_000_000_000_000_000 <= x <= 1_000_000_000_000_000
}

spec fn timely(x: i64) -> bool {
    -TIME_LIMIT <= x <= TIME_LIMIT
}

/// The numbers of the state are within the limits they were read under.
spec fn in_range(st: StateView) -> bool {
    &&& timely(st.time)
    &&& small(st.bpm)
    &&& small(st.scroll)
    &&& (st.header.bpm matches Some(b) ==> small(b))
    &&& (st.combo matches Some(c) ==> timely(c.start) && c.duration == 0 && swift(c.speed))
    &&& all_playable(st.current.notes)
    &&& forall|c: int| 0 <= c < st.courses.len() ==> all_playable(#[trigger] st.courses[c].notes)
    &&& forall|i: int|
        0 <= i < st.segments.len() ==> small(#[trigger] st.segments[i].bpm) && small(
            st.segments[i].scroll,
        )
}

/// The scroll speed under a tempo and a scroll factor.
fn speed(bpm: i64, scroll: i64) -> (r: i64)
    requires
        small(bpm),
        small(scroll),
    ensures
        r == speed_of(bpm, scroll),
        swift(r),
{
    proof {
        assert(-1_000_000_000_000_000_000 <= bpm * scroll <= 1_000_000_000_000_000_000)
            by (nonlinear_arith)
            requires
                -1_000_000_000 <= bpm <= 1_000_000_000,
                -1_000_000_000 <= scroll <= 1_000_000_000,
        ;
    }
    let p: i128 = (bpm as i128) * (scroll as i128);
    if p >= 0 {
        (p / 1000) as i64
    } else {
        (-((-p) / 1000)) as i64
    }
}

fn abs128(x: i128) -> (r: i128)
    requires
        x > i128::MIN,
    ensures
        r == magnitude(x as int),
        r >= 0,
{
    if x < 0 {
        -x
    } else {
        x
    }
}

/// How long one of `count` symbols lasts; see [`symbol_duration`].
fn duration_of(bpm: i64, beats: i32, unit: i32, count: u128) -> (r: i128)
    requires
        small(bpm),
        bpm != 0,
        unit != 0,
        count > 0,
    ensures
        r == symbol_duration(bpm, beats, unit, count as int),
        -1_000_000_000_000_000_000_000_000 <= r <= 1_000_000_000_000_000_000_000_000,
{
    let b: i128 = abs128(beats as i128);
    let t: i128 = abs128(bpm as i128);
    let u: i128 = abs128(unit as i128);
    proof {
        assert(0 <= WHOLE_NOTE * b <= 240_000_000_000_000 * 2147483648) by (nonlinear_arith)
            requires
                WHOLE_NOTE == 240_000_000_000_000,
                0 <= b <= 2147483648,
        ;
        assert(1 <= t * u <= 1_000_000_000 * 2147483648) by (nonlinear_arith)
            requires
                1 <= t <= 1_000_000_000,
                1 <= u <= 2147483648,
        ;
    }
    let whole: i128 = WHOLE_NOTE * b;
    let per: i128 = t * u;
    let length: u128 = (whole / per) as u128;
    proof {
        vstd::arithmetic::div_mod::lemma_div_pos_is_pos(whole as int, per as int);
        vstd::arithmetic::div_mod::lemma_div_is_ordered_by_denominator(whole as int, 1, per as int);
    }
    let share: u128 = length / count;
    proof {
        vstd::arithmetic::div_mod::lemma_div_pos_is_pos(length as int, count as int);
        vstd::arithmetic::div_mod::lemma_div_is_ordered_by_denominator(length as int, 1, count as int);
    }
    if (beats < 0) != ((bpm < 0) != (unit < 0)) {
        -(share as i128)
    } else {
        share as i128
    }
}

/// The number that a course name or number stands for.
fn course_number(v: &Vec<char>) -> (r: i32)
    ensures
        r == course_of(v@),
{
    let l = lowercase(v);
    if is_word(&l, "easy") {
        0
    } else if is_word(&l, "normal") {
        1
    } else if is_word(&l, "hard") {
        2
    } else if is_word(&l, "oni") {
        3
    } else if is_word(&l, "edit") {
        4
    } else {
        match read_i32(v) {
            Some(n) => n,
            None => 0,
        }
    }
}

/// The number of the course that `course` names: 0 to 4 for `easy`,
/// `normal`, `hard`, `oni` and `edit` in capitals or small letters, else the
/// number that `course` writes, else 0.
pub fn parse_course(course: &str) -> (r: i32)
    ensures
        r == course_of(course@),
{
    let v = chars_of(course);
    course_number(&v)
}

impl ParseState {
    fn new() -> (st: Self)
        ensures
            st@ == initial_state(),
            in_range(st@),
    {
        let st = ParseState {
            header: TJAHeader::new(),
            courses: Vec::new(),
            open: false,
            current: TJACourse::new(0),
            balloons: Vec::new(),
            time: 0,
            bpm: DEFAULT_BPM,
            scroll: UNIT_SCROLL,
            beats: 4,
            unit: 4,
            segments: Vec::new(),
            combo: None,
        };
        proof {
            assert(st@.courses =~= Seq::empty());
            assert(st@.segments =~= Seq::empty());
        }
        st
    }

    /// One note more in the course that is being read.
    fn push(&mut self, note: TaikoNote)
        ensures
            final(self)@ == push_note(old(self)@, note),
            in_range(old(self)@) && playable(note) ==> in_range(final(self)@),
    {
        self.current.notes.push(note);
        proof {
            assert(self@.segments == old(self)@.segments);
            assert(self@.header == old(self)@.header);
            assert(self@.courses == old(self)@.courses);
            if in_range(old(self)@) && playable(note) {
                assert forall|i: int| 0 <= i < self@.current.notes.len() implies playable(
                    #[trigger] self@.current.notes[i],
                ) by {
                    if i < old(self)@.current.notes.len() {
                        assert(playable(old(self)@.current.notes[i]));
                    }
                }
                assert(all_playable(self@.current.notes));
                assert(self@.combo == old(self)@.combo);
                assert forall|i: int| 0 <= i < self@.segments.len() implies small(
                    #[trigger] self@.segments[i].bpm,
                ) && small(self@.segments[i].scroll) by {
                    assert(small(old(self)@.segments[i].bpm));
                }
                assert forall|c: int| 0 <= c < self@.courses.len() implies all_playable(
                    #[trigger] self@.courses[c].notes,
                ) by {
                    assert(all_playable(old(self)@.courses[c].notes));
                }
                assert(in_range(self@));
            }
        }
    }

    /// Opens a balloon of kind `kind` at the current instant.
    fn open_balloon(&mut self, speed: i64, kind: TaikoNoteType)
        ensures
            final(self)@ == open_balloon(old(self)@, speed, kind),
            in_range(old(self)@) && swift(speed) ==> in_range(final(self)@),
    {
        let volume: u16 = match self.balloons.pop() {
            Some(v) => v,
            None => DEFAULT_BALLOON,
        };
        self.combo = Some(
            TaikoNote {
                start: self.time,
                duration: 0,
                volume,
                variant: TaikoNoteVariant::Both,
                note_type: kind,
                speed,
            },
        );
    }

    /// Writes the symbol `c` at the current instant.
    fn write(&mut self, c: char, speed: i64)
        requires
            in_range(old(self)@),
            swift(speed),
        ensures
            final(self)@ == write_symbol(old(self)@, c, speed),
            in_range(final(self)@),
    {
        let time: i64 = self.time;
        if c == '1' {
            self.push(tap_note(time, speed, TaikoNoteVariant::Don, TaikoNoteType::Small));
        } else if c == '2' {
            self.push(tap_note(time, speed, TaikoNoteVariant::Kat, TaikoNoteType::Small));
        } else if c == '3' {
            self.push(tap_note(time, speed, TaikoNoteVariant::Don, TaikoNoteType::Big));
        } else if c == '4' {
            self.push(tap_note(time, speed, TaikoNoteVariant::Kat, TaikoNoteType::Big));
        } else if c == '5' {
            self.combo = Some(
                TaikoNote {
                    start: time,
                    duration: 0,
                    volume: u16::MAX,
                    variant: TaikoNoteVariant::Both,
                    note_type: TaikoNoteType::SmallCombo,
                    speed,
                },
            );
        } else if c == '6' {
            self.combo = Some(
                TaikoNote {
                    start: time,
                    duration: 0,
                    volume: u16::MAX,
                    variant: TaikoNoteVariant::Both,
                    note_type: TaikoNoteType::BigCombo,
                    speed,
                },
            );
        } else if c == '7' {
            self.open_balloon(speed, TaikoNoteType::Balloon);
        } else if c == '9' {
            self.open_balloon(speed, TaikoNoteType::Yam);
        } else if c == '8' {
            match self.combo {
                Some(note) => {
                    let closed = TaikoNote { duration: time - note.start, ..note };
                    self.push(closed);
                    self.combo = None;
                },
                None => {},
            }
        }
    }

    /// Moves the current instant by `by` nanoseconds.
    fn advance(&mut self, by: i128) -> (r: Result<(), ParseError>)
        requires
            in_range(old(self)@),
            -1_000_000_000_000_000_000_000_000 <= by <= 1_000_000_000_000_000_000_000_000,
        ensures
            match advance(old(self)@, by as int) {
                Ok(next) => r is Ok && final(self)@ == next && in_range(final(self)@),
                Err(e) => r == Err::<(), ParseError>(e),
            },
    {
        let t: i128 = (self.time as i128) + by;
        if -(TIME_LIMIT as i128) <= t && t <= TIME_LIMIT as i128 {
            self.time = t as i64;
            Ok(())
        } else {
            Err(ParseError::TimeOutOfRange)
        }
    }

    /// Writes the symbols one after the other.
    fn write_all(&mut self, symbols: &Vec<char>, speed: i64, each: i128) -> (r: Result<
        (),
        ParseError,
    >)
        requires
            in_range(old(self)@),
            swift(speed),
            -1_000_000_000_000_000_000_000_000 <= each <= 1_000_000_000_000_000_000_000_000,
        ensures
            match run_symbols(old(self)@, symbols@, speed, each as int) {
                Ok(next) => r is Ok && final(self)@ == next && in_range(final(self)@),
                Err(e) => r == Err::<(), ParseError>(e),
            },
    {
        let n: usize = symbols.len();
        let mut i: usize = 0;
        proof {
            assert(symbols@.subrange(0, n as int) == symbols@);
        }
        while i < n
            invariant
                n == symbols.len(),
                i <= n,
                in_range(self@),
                swift(speed),
                -1_000_000_000_000_000_000_000_000 <= each <= 1_000_000_000_000_000_000_000_000,
                run_symbols(old(self)@, symbols@, speed, each as int) == run_symbols(
                    self@,
                    symbols@.subrange(i as int, n as int),
                    speed,
                    each as int,
                ),
            decreases n - i,
        {
            proof {
                let rest = symbols@.subrange(i as int, n as int);
                assert(rest[0] == symbols@[i as int]);
                assert(rest.drop_first() == symbols@.subrange(i + 1, n as int));
            }
            self.write(symbols[i], speed);
            match self.advance(each) {
                Ok(()) => {},
                Err(e) => {
                    return Err(e);
                },
            }
            i += 1;
        }
        Ok(())
    }
}

impl ParseState {
    /// Writes out the measure that has been read.
    fn close_measure(&mut self) -> (r: Result<(), ParseError>)
        requires
            in_range(old(self)@),
        ensures
            match close_measure(old(self)@) {
                Ok(next) => r is Ok && final(self)@ == next && in_range(final(self)@),
                Err(e) => r == Err::<(), ParseError>(e),
            },
    {
        let mut segs: Vec<Segment> = Vec::new();
        std::mem::swap(&mut self.segments, &mut segs);
        let ghost given = segment_views(segs@);
        proof {
            assert(self@.segments =~= Seq::empty());
            assert(given.subrange(0, 0) =~= Seq::empty());
        }
        let n: usize = segs.len();
        let mut total: u128 = 0;
        let mut i: usize = 0;
        while i < n
            invariant
                n == segs.len(),
                i <= n,
                given == segment_views(segs@),
                total == total_symbols(given.subrange(0, i as int)),
                total <= i * usize::MAX,
            decreases n - i,
        {
            proof {
                let head = given.subrange(0, i + 1);
                assert(head.drop_last() == given.subrange(0, i as int));
                assert(head.last() == segs@[i as int]@);
                assert((i + 1) * usize::MAX == i * usize::MAX + usize::MAX) by (nonlinear_arith);
                assert(i * usize::MAX <= usize::MAX * usize::MAX) by (nonlinear_arith)
                    requires
                        i <= usize::MAX,
                ;
            }
            total = total + (segs[i].symbols.len() as u128);
            i += 1;
        }
        proof {
            assert(given.subrange(0, n as int) == given);
        }
        let count: u128 = if total == 0 {
            1
        } else {
            total
        };
        if total == 0 && n == 1 {
            match segs.pop() {
                Some(seg) => {
                    let mut seg = seg;
                    proof {
                        assert(given.drop_last() =~= Seq::empty());
                        assert(seg@ == given[0]);
                        assert(total_symbols(given.drop_last()) == 0);
                        assert(given.last().symbols.len() == 0);
                    }
                    seg.symbols.push('0');
                    segs.push(seg);
                    proof {
                        assert(seg@.symbols =~= seq!['0']);
                        assert(segment_views(segs@) =~= padded(given));
                    }
                },
                None => {},
            }
        }
        let ghost due = segment_views(segs@);
        proof {
            assert(due == padded(given));
            assert(due.subrange(0, n as int) == due);
            assert forall|k: int| 0 <= k < due.len() implies small(#[trigger] due[k].bpm)
                && small(due[k].scroll) by {
                assert(due[k].bpm == given[k].bpm && due[k].scroll == given[k].scroll);
                assert(old(self)@.segments[k] == given[k]);
            }
        }
        let ghost start = self@;
        proof {
            assert(given == old(self)@.segments);
            assert(start == StateView { segments: Seq::empty(), ..old(self)@ });
            assert(close_measure(old(self)@) == run_segments(start, due, count as int, true));
        }
        let mut i: usize = 0;
        while i < n
            invariant
                n == segs.len(),
                i <= n,
                count > 0,
                due == segment_views(segs@),
                forall|k: int|
                    0 <= k < due.len() ==> small(#[trigger] due[k].bpm) && small(due[k].scroll),
                in_range(self@),
                close_measure(old(self)@) == run_segments(start, due, count as int, true),
                run_segments(start, due, count as int, true) == run_segments(
                    self@,
                    due.subrange(i as int, n as int),
                    count as int,
                    i == 0,
                ),
            decreases n - i,
        {
            proof {
                let rest = due.subrange(i as int, n as int);
                assert(rest[0] == due[i as int]);
                assert(rest.drop_first() == due.subrange(i + 1, n as int));
                assert(due[i as int] == segs@[i as int]@);
            }
            let bpm: i64 = segs[i].bpm;
            let scroll: i64 = segs[i].scroll;
            if bpm == 0 || self.unit == 0 {
                return Err(ParseError::InvalidTiming);
            }
            let pace: i64 = speed(bpm, scroll);
            let each: i128 = duration_of(bpm, self.beats, self.unit, count);
            if i == 0 {
                self.push(marker_note(self.time, pace, TaikoNoteType::BarLine, 0));
            }
            match self.write_all(&segs[i].symbols, pace, each) {
                Ok(()) => {},
                Err(e) => {
                    return Err(e);
                },
            }
            i += 1;
        }
        Ok(())
    }

    /// A line of symbols within a course.
    fn measure_line(&mut self, text: &Vec<char>) -> (r: Result<(), ParseError>)
        requires
            in_range(old(self)@),
        ensures
            match measure_line(old(self)@, text@) {
                Ok(next) => r is Ok && final(self)@ == next && in_range(final(self)@),
                Err(e) => r == Err::<(), ParseError>(e),
            },
    {
        let n: usize = text.len();
        let ends: bool = n > 0 && text[n - 1] == ',';
        let symbols = if ends {
            copy_range(text, 0, n - 1)
        } else {
            copy_range(text, 0, n)
        };
        proof {
            assert(text@.subrange(0, n as int) == text@);
        }
        let seg = Segment { bpm: self.bpm, scroll: self.scroll, symbols };
        self.segments.push(seg);
        proof {
            assert(self@.segments =~= old(self)@.segments.push(seg@));
        }
        if ends {
            self.close_measure()
        } else {
            Ok(())
        }
    }

    /// Opens the course that `name` names.
    fn open_course(&mut self, name: &Vec<char>)
        requires
            in_range(old(self)@),
        ensures
            final(self)@ == open_course(old(self)@, name@),
            in_range(final(self)@),
    {
        self.open = true;
        self.current = TJACourse::new(course_number(name));
        self.balloons = Vec::new();
        self.time = 0;
        self.bpm = match self.header.bpm {
            Some(b) => b,
            None => DEFAULT_BPM,
        };
        self.scroll = UNIT_SCROLL;
        self.beats = 4;
        self.unit = 4;
        self.segments = Vec::new();
        self.combo = None;
        proof {
            assert(self@.segments =~= Seq::empty());
        }
    }

    /// A line outside a course.
    fn header_line(&mut self, text: &Vec<char>)
        requires
            in_range(old(self)@),
        ensures
            final(self)@ == header_line(old(self)@, text@),
            in_range(final(self)@),
    {
        match split_at_char(text, ':') {
            Some((k, v)) => {
                let key = trimmed(&k);
                let value = trimmed(&v);
                if is_word(&key, "COURSE") {
                    self.open_course(&value);
                } else {
                    set_header_field(&mut self.header, &key, &value);
                }
            },
            None => {},
        }
    }

    /// A line `KEY:VALUE` within a course.
    fn course_field(&mut self, key: &Vec<char>, value: &Vec<char>)
        requires
            in_range(old(self)@),
        ensures
            final(self)@ == course_field(old(self)@, key@, value@),
            in_range(final(self)@),
    {
        if is_word(key, "LEVEL") {
            self.current.level = read_i32(value);
        } else if is_word(key, "BALLOON") {
            let counts = read_balloons(value);
            self.balloons = joined_reversed(&self.balloons, &counts);
        } else if is_word(key, "SCOREINIT") {
            self.current.scoreinit = read_i32(value);
        } else if is_word(key, "SCOREDIFF") {
            self.current.scorediff = read_i32(value);
        }
    }

    /// A command within a course.
    fn command(&mut self, raw: &Vec<char>) -> (r: Result<(), ParseError>)
        requires
            in_range(old(self)@),
        ensures
            match command(old(self)@, raw@) {
                Ok(next) => r is Ok && final(self)@ == next && in_range(final(self)@),
                Err(e) => r == Err::<(), ParseError>(e),
            },
    {
        let (key, rest) = split_word(raw);
        let (value, _) = split_word(&rest);
        if is_word(&key, "GOGOSTART") {
            let pace: i64 = speed(self.bpm, self.scroll);
            self.push(marker_note(self.time, pace, TaikoNoteType::GogoStart, 1));
            Ok(())
        } else if is_word(&key, "GOGOEND") {
            let pace: i64 = speed(self.bpm, self.scroll);
            self.push(marker_note(self.time, pace, TaikoNoteType::GogoEnd, 1));
            Ok(())
        } else if is_word(&key, "END") {
            let mut done = TJACourse::new(0);
            std::mem::swap(&mut self.current, &mut done);
            proof {
                assert(course_views(self.courses@.push(done)) =~= course_views(self.courses@).push(
                    done@,
                ));
            }
            self.courses.push(done);
            self.open = false;
            Ok(())
        } else if is_word(&key, "BPMCHANGE") || is_word(&key, "MEASURE") || is_word(&key, "SCROLL")
            || is_word(&key, "DELAY") {
            if value.len() == 0 {
                Err(ParseError::MissingArgument)
            } else if is_word(&key, "BPMCHANGE") {
                self.bpm = match read_decimal(&value, 3, DECIMAL_LIMIT) {
                    Some(b) => b,
                    None => match self.header.bpm {
                        Some(b) => b,
                        None => 0,
                    },
                };
                Ok(())
            } else if is_word(&key, "SCROLL") {
                self.scroll = match read_decimal(&value, 3, DECIMAL_LIMIT) {
                    Some(s) => s,
                    None => UNIT_SCROLL,
                };
                Ok(())
            } else if is_word(&key, "DELAY") {
                let by: i64 = match read_decimal(&value, 9, SECONDS_LIMIT) {
                    Some(d) => d,
                    None => 0,
                };
                self.advance(by as i128)
            } else {
                match split_at_char(&value, '/') {
                    Some((beats, unit)) => {
                        self.beats = match read_i32(&beats) {
                            Some(b) => b,
                            None => 4,
                        };
                        self.unit = match read_i32(&unit) {
                            Some(u) => u,
                            None => 4,
                        };
                        Ok(())
                    },
                    None => Err(ParseError::MalformedMeasure),
                }
            }
        } else {
            Ok(())
        }
    }

    /// What one line does.
    fn step(&mut self, line: &Vec<char>) -> (r: Result<(), ParseError>)
        requires
            in_range(old(self)@),
        ensures
            match step_line(old(self)@, line@) {
                Ok(next) => r is Ok && final(self)@ == next && in_range(final(self)@),
                Err(e) => r == Err::<(), ParseError>(e),
            },
    {
        let bare = without_comment(line);
        let text = trimmed(&bare);
        if text.len() == 0 {
            Ok(())
        } else if !self.open {
            self.header_line(&text);
            Ok(())
        } else {
            match split_at_char(&text, ':') {
                Some((k, v)) => {
                    let key = trimmed(&k);
                    let value = trimmed(&v);
                    self.course_field(&key, &value);
                    Ok(())
                },
                None => {
                    if text[0] == '#' {
                        let raw = copy_range(&text, 1, text.len());
                        self.command(&raw)
                    } else {
                        self.measure_line(&text)
                    }
                },
            }
        }
    }
}

/// Sets the field of the header that `key` names from `value`.
fn set_header_field(h: &mut TJAHeader, key: &Vec<char>, value: &Vec<char>)
    ensures
        final(h)@ == set_header(old(h)@, key@, value@),
        (old(h)@.bpm matches Some(b) ==> small(b)) ==> (final(h)@.bpm matches Some(b) ==> small(b)),
{
    if is_word(key, "TITLE") {
        h.title = Some(text_of(value));
    } else if is_word(key, "SUBTITLE") {
        h.subtitle = Some(text_of(value));
    } else if is_word(key, "BPM") {
        h.bpm = read_decimal(value, 3, DECIMAL_LIMIT);
    } else if is_word(key, "WAVE") {
        h.wave = Some(text_of(value));
    } else if is_word(key, "OFFSET") {
        h.offset = read_decimal(value, 9, SECONDS_LIMIT);
    } else if is_word(key, "DEMOSTART") {
        h.demostart = read_decimal(value, 9, SECONDS_LIMIT);
    } else if is_word(key, "SONGVOL") {
        h.songvol = read_i32(value);
    } else if is_word(key, "SEVOL") {
        h.sevol = read_i32(value);
    } else if is_word(key, "STYLE") {
        h.style = Some(text_of(value));
    } else if is_word(key, "GENRE") {
        h.genre = Some(text_of(value));
    } else if is_word(key, "ARTIST") {
        h.artist = Some(text_of(value));
    }
}

/// The counts that a comma-separated list writes.
fn read_balloons(v: &Vec<char>) -> (r: Vec<u16>)
    ensures
        r@ == balloon_counts(v@),
{
    let n: usize = v.len();
    let mut r: Vec<u16> = Vec::new();
    let mut pos: usize = 0;
    proof {
        assert(v@.subrange(0, n as int) == v@);
    }
    loop
        invariant
            n == v.len(),
            pos <= n,
            balloon_counts(v@) == r@ + balloon_counts(v@.subrange(pos as int, n as int)),
        decreases n - pos,
    {
        let k: usize = find_char_from(v, pos, ',');
        let part = copy_range(v, pos, k);
        let count: u16 = match read_u16(&part) {
            Some(c) => c,
            None => 0,
        };
        proof {
            let rest = v@.subrange(pos as int, n as int);
            assert(rest.subrange(0, k - pos) == part@);
            if k < n {
                assert(rest.subrange(k - pos + 1, rest.len() as int) == v@.subrange(
                    k + 1,
                    n as int,
                ));
                assert(r@ + (seq![count] + balloon_counts(v@.subrange(k + 1, n as int)))
                    == r@.push(count) + balloon_counts(v@.subrange(k + 1, n as int)));
            } else {
                assert(r@ + seq![count] == r@.push(count));
            }
        }
        r.push(count);
        if k < n {
            pos = k + 1;
        } else {
            return r;
        }
    }
}

/// The two lists one after the other, read backwards.
fn joined_reversed(a: &Vec<u16>, b: &Vec<u16>) -> (r: Vec<u16>)
    ensures
        r@ == (a@ + b@).reverse(),
{
    let ghost all = a@ + b@;
    let mut r: Vec<u16> = Vec::new();
    let mut i: usize = b.len();
    while i > 0
        invariant
            i <= b.len(),
            all == a@ + b@,
            r.len() == b.len() - i,
            forall|j: int| 0 <= j < r.len() ==> r@[j] == all[all.len() - 1 - j],
        decreases i,
    {
        i -= 1;
        r.push(b[i]);
    }
    let mut i: usize = a.len();
    while i > 0
        invariant
            i <= a.len(),
            all == a@ + b@,
            r.len() == b.len() + a.len() - i,
            forall|j: int| 0 <= j < r.len() ==> r@[j] == all[all.len() - 1 - j],
        decreases i,
    {
        i -= 1;
        r.push(a[i]);
    }
    proof {
        assert(r@ =~= all.reverse());
    }
    r
}

fn tap_note(time: i64, speed: i64, variant: TaikoNoteVariant, kind: TaikoNoteType) -> (r: TaikoNote)
    ensures
        r == tap(time, speed, variant, kind),
{
    TaikoNote { start: time, duration: 0, volume: 1, variant, note_type: kind, speed }
}

fn marker_note(time: i64, speed: i64, kind: TaikoNoteType, volume: u16) -> (r: TaikoNote)
    ensures
        r == marker(time, speed, kind, volume),
{
    TaikoNote {
        start: time,
        duration: 0,
        volume,
        variant: TaikoNoteVariant::Invisible,
        note_type: kind,
        speed,
    }
}

/// The parser of chart texts.
#[derive(Clone, Copy, Debug)]
pub struct TJAParser {}

impl TJAParser {
    pub fn new() -> (r: Self) {
        TJAParser {  }
    }

    /// Parses a chart. The text is read line by line; see [`parse_chart`]
    /// for what each line means. The result is the chart that the text
    /// writes, and an error exactly where it writes none: where a command
    /// lacks its argument, a measure is malformed or ends under a zero
    /// tempo, a note lies out of the range of times, or the text ends within
    /// a course.
    pub fn parse(&self, tja_content: &str) -> (r: Result<TJA, ParseError>)
        ensures
            match parse_chart(tja_content@) {
                Ok(chart) => r matches Ok(tja) && tja@ == chart,
                Err(e) => r == Err::<TJA, ParseError>(e),
            },
            r matches Ok(tja) ==> forall|c: int|
                0 <= c < tja.courses@.len() ==> all_playable(#[trigger] tja.courses@[c].notes@),
    {
        let chars = chars_of(tja_content);
        let n: usize = chars.len();
        let mut st = ParseState::new();
        let mut pos: usize = 0;
        proof {
            assert(chars@.subrange(0, n as int) == chars@);
        }
        loop
            invariant_except_break
                in_range(st@),
                run_text(initial_state(), chars@) == run_text(
                    st@,
                    chars@.subrange(pos as int, n as int),
                ),
            invariant
                n == chars.len(),
                chars@ == tja_content@,
                pos <= n,
            ensures
                run_text(initial_state(), chars@) == Ok::<StateView, ParseError>(st@),
                in_range(st@),
            decreases n - pos,
        {
            let k: usize = find_char_from(&chars, pos, '\n');
            let line = copy_range(&chars, pos, k);
            proof {
                let rest = chars@.subrange(pos as int, n as int);
                assert(rest.subrange(0, k - pos) == line@);
                if k < n {
                    assert(rest.subrange(k - pos + 1, rest.len() as int) == chars@.subrange(
                        k + 1,
                        n as int,
                    ));
                }
            }
            match st.step(&line) {
                Ok(()) => {},
                Err(e) => {
                    return Err(e);
                },
            }
            if k < n {
                pos = k + 1;
            } else {
                break;
            }
        }
        if st.open {
            Err(ParseError::UnterminatedCourse)
        } else {
            proof {
                assert forall|c: int| 0 <= c < st.courses@.len() implies all_playable(
                    #[trigger] st.courses@[c].notes@,
                ) by {
                    assert(st@.courses[c].notes == st.courses@[c].notes@);
                }
            }
            Ok(TJA { header: st.header, courses: st.courses })
        }
    }
}

impl Default for TJAParser {
    fn default() -> (r: Self) {
        TJAParser::new()
    }
}

} // verus!
