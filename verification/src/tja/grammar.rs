//! What a chart text means: the state that reading it builds up, line by
//! line, and the chart that is left at its end.

use crate::tja::chart::{empty_course, empty_header, ChartView, CourseView, HeaderView, ParseError};
use crate::tja::note::{TaikoNote, TaikoNoteType, TaikoNoteVariant, TIME_LIMIT};
use crate::tja::number::{parse_decimal, parse_i32, parse_u16};
use crate::tja::text::{
    after_first_word, first_where, first_word, is_char, lowered, split_once, strip_comment, trim,
};
use vstd::prelude::*;

verus! {

/// Tempo and scroll factor are read in thousandths, up to this many of them.
pub const DECIMAL_LIMIT: i64 = 1_000_000_000;

/// Seconds are read in nanoseconds, up to this many of them.
pub const SECONDS_LIMIT: i64 = 1_000_000_000_000_000_000;

/// How long a whole note lasts at one thousandth of a beat per minute, in
/// nanoseconds.
pub const WHOLE_NOTE: i128 = 240_000_000_000_000;

/// The tempo of a chart that sets none, in thousandths of a beat per minute.
pub const DEFAULT_BPM: i64 = 60_000;

/// The scroll factor one, in thousandths.
pub const UNIT_SCROLL: i64 = 1_000;

/// The hits of a balloon for which the course gives no count.
pub const DEFAULT_BALLOON: u16 = 5;

/// A run of symbols with the tempo and the scroll factor under which it was
/// written.
pub struct SegmentView {
    pub bpm: i64,
    pub scroll: i64,
    pub symbols: Seq<char>,
}

/// What reading a chart has built up so far.
pub struct StateView {
    pub header: HeaderView,
    /// The courses that are closed.
    pub courses: Seq<CourseView>,
    /// Whether a course is being read.
    pub open: bool,
    /// The course that is being read.
    pub current: CourseView,
    /// The hit counts of the balloons to come, the next one last.
    pub balloons: Seq<u16>,
    /// Where the next symbol stands, in nanoseconds.
    pub time: i64,
    pub bpm: i64,
    pub scroll: i64,
    /// The time signature: `beats` notes of one `unit`-th each.
    pub beats: i32,
    pub unit: i32,
    /// The symbols of the measure that is being read.
    pub segments: Seq<SegmentView>,
    /// The roll or balloon that is open.
    pub combo: Option<TaikoNote>,
}

/// The state before the first line.
pub open spec fn initial_state() -> StateView {
    StateView {
        header: empty_header(),
        courses: Seq::empty(),
        open: false,
        current: empty_course(0),
        balloons: Seq::empty(),
        time: 0,
        bpm: DEFAULT_BPM,
        scroll: UNIT_SCROLL,
        beats: 4,
        unit: 4,
        segments: Seq::empty(),
        combo: None,
    }
}

pub open spec fn magnitude(x: int) -> int {
    if x < 0 {
        -x
    } else {
        x
    }
}

/// The quotient of `a` by a positive `b`, rounded towards zero.
pub open spec fn trunc_div(a: int, b: int) -> int {
    if a >= 0 {
        a / b
    } else {
        -((-a) / b)
    }
}

/// The scroll speed under a tempo and a scroll factor, in thousandths of a
/// beat per minute.
pub open spec fn speed_of(bpm: i64, scroll: i64) -> i64 {
    trunc_div(bpm * scroll, 1000) as i64
}

/// How long one of `count` symbols lasts in a measure of `beats` notes of
/// one `unit`-th each, at `bpm` thousandths of a beat per minute: the length
/// of the measure, rounded towards zero to whole nanoseconds, split evenly
/// and rounded towards zero again.
pub open spec fn symbol_duration(bpm: i64, beats: i32, unit: i32, count: int) -> int {
    let length = (WHOLE_NOTE * magnitude(beats as int)) / (magnitude(bpm as int) * magnitude(
        unit as int,
    ));
    let share = length / count;
    if (beats < 0) != ((bpm < 0) != (unit < 0)) {
        -share
    } else {
        share
    }
}

/// The number that a course name or number stands for.
pub open spec fn course_of(s: Seq<char>) -> i32 {
    let l = lowered(s);
    if l == "easy"@ {
        0
    } else if l == "normal"@ {
        1
    } else if l == "hard"@ {
        2
    } else if l == "oni"@ {
        3
    } else if l == "edit"@ {
        4
    } else {
        match parse_i32(s) {
            Some(v) => v,
            None => 0,
        }
    }
}

/// The counts that a comma-separated list writes; what writes no count
/// counts as zero.
pub open spec fn balloon_counts(s: Seq<char>) -> Seq<u16>
    decreases s.len(),
{
    let k = first_where(s, is_char(','));
    let head = match parse_u16(s.subrange(0, k)) {
        Some(v) => v,
        None => 0,
    };
    if 0 <= k < s.len() {
        seq![head] + balloon_counts(s.subrange(k + 1, s.len() as int))
    } else {
        seq![head]
    }
}

/// A note that marks an instant and is never hit.
pub open spec fn marker(time: i64, speed: i64, kind: TaikoNoteType, volume: u16) -> TaikoNote {
    TaikoNote {
        start: time,
        duration: 0,
        volume,
        variant: TaikoNoteVariant::Invisible,
        note_type: kind,
        speed,
    }
}

/// A single stroke.
pub open spec fn tap(time: i64, speed: i64, variant: TaikoNoteVariant, kind: TaikoNoteType) -> TaikoNote {
    TaikoNote { start: time, duration: 0, volume: 1, variant, note_type: kind, speed }
}

/// The start of a roll or a balloon that takes `volume` hits.
pub open spec fn sustained(time: i64, speed: i64, kind: TaikoNoteType, volume: u16) -> TaikoNote {
    TaikoNote {
        start: time,
        duration: 0,
        volume,
        variant: TaikoNoteVariant::Both,
        note_type: kind,
        speed,
    }
}

/// The state with one note more in the course that is being read.
pub open spec fn push_note(st: StateView, note: TaikoNote) -> StateView {
    StateView { current: CourseView { notes: st.current.notes.push(note), ..st.current }, ..st }
}

/// The state with a balloon of kind `kind` opened at the current instant.
/// Its hit count is the next of the course's counts.
pub open spec fn open_balloon(st: StateView, speed: i64, kind: TaikoNoteType) -> StateView {
    if st.balloons.len() > 0 {
        StateView {
            combo: Some(sustained(st.time, speed, kind, st.balloons.last())),
            balloons: st.balloons.drop_last(),
            ..st
        }
    } else {
        StateView { combo: Some(sustained(st.time, speed, kind, DEFAULT_BALLOON)), ..st }
    }
}

/// What the symbol `c` writes at the current instant.
pub open spec fn write_symbol(st: StateView, c: char, speed: i64) -> StateView {
    if c == '1' {
        push_note(st, tap(st.time, speed, TaikoNoteVariant::Don, TaikoNoteType::Small))
    } else if c == '2' {
        push_note(st, tap(st.time, speed, TaikoNoteVariant::Kat, TaikoNoteType::Small))
    } else if c == '3' {
        push_note(st, tap(st.time, speed, TaikoNoteVariant::Don, TaikoNoteType::Big))
    } else if c == '4' {
        push_note(st, tap(st.time, speed, TaikoNoteVariant::Kat, TaikoNoteType::Big))
    } else if c == '5' {
        StateView {
            combo: Some(sustained(st.time, speed, TaikoNoteType::SmallCombo, u16::MAX)),
            ..st
        }
    } else if c == '6' {
        StateView {
            combo: Some(sustained(st.time, speed, TaikoNoteType::BigCombo, u16::MAX)),
            ..st
        }
    } else if c == '7' {
        open_balloon(st, speed, TaikoNoteType::Balloon)
    } else if c == '9' {
        open_balloon(st, speed, TaikoNoteType::Yam)
    } else if c == '8' {
        match st.combo {
            Some(note) => StateView {
                combo: None,
                ..push_note(st, TaikoNote { duration: (st.time - note.start) as i64, ..note })
            },
            None => st,
        }
    } else {
        st
    }
}

/// The state with the current instant moved by `by` nanoseconds.
pub open spec fn advance(st: StateView, by: int) -> Result<StateView, ParseError> {
    if -TIME_LIMIT <= st.time + by <= TIME_LIMIT {
        Ok(StateView { time: (st.time + by) as i64, ..st })
    } else {
        Err(ParseError::TimeOutOfRange)
    }
}

/// Writes the symbols one after the other, each `each` nanoseconds after the
/// one before.
pub open spec fn run_symbols(st: StateView, symbols: Seq<char>, speed: i64, each: int) -> Result<
    StateView,
    ParseError,
>
    decreases symbols.len(),
{
    if symbols.len() == 0 {
        Ok(st)
    } else {
        match advance(write_symbol(st, symbols[0], speed), each) {
            Ok(next) => run_symbols(next, symbols.drop_first(), speed, each),
            Err(e) => Err(e),
        }
    }
}

/// Writes the segments of a measure of `count` symbols one after the other.
/// The first segment is preceded by the bar line.
pub open spec fn run_segments(st: StateView, segments: Seq<SegmentView>, count: int, first: bool) -> Result<
    StateView,
    ParseError,
>
    decreases segments.len(),
{
    if segments.len() == 0 {
        Ok(st)
    } else {
        let seg = segments[0];
        if seg.bpm == 0 || st.unit == 0 {
            Err(ParseError::InvalidTiming)
        } else {
            let speed = speed_of(seg.bpm, seg.scroll);
            let each = symbol_duration(seg.bpm, st.beats, st.unit, count);
            let from = if first {
                push_note(st, marker(st.time, speed, TaikoNoteType::BarLine, 0))
            } else {
                st
            };
            match run_symbols(from, seg.symbols, speed, each) {
                Ok(next) => run_segments(next, segments.drop_first(), count, false),
                Err(e) => Err(e),
            }
        }
    }
}

/// How many symbols the segments hold.
pub open spec fn total_symbols(segments: Seq<SegmentView>) -> int
    decreases segments.len(),
{
    if segments.len() == 0 {
        0
    } else {
        total_symbols(segments.drop_last()) + segments.last().symbols.len()
    }
}

/// The segments of a measure as they are written out: a measure without a
/// symbol is one rest.
pub open spec fn padded(segments: Seq<SegmentView>) -> Seq<SegmentView> {
    if total_symbols(segments) == 0 && segments.len() == 1 {
        seq![SegmentView { symbols: seq!['0'], ..segments[0] }]
    } else {
        segments
    }
}

/// Writes out the measure that has been read.
pub open spec fn close_measure(st: StateView) -> Result<StateView, ParseError> {
    let total = total_symbols(st.segments);
    let count = if total == 0 {
        1
    } else {
        total
    };
    run_segments(StateView { segments: Seq::empty(), ..st }, padded(st.segments), count, true)
}

/// A line of symbols within a course: one more segment of the measure, and
/// the end of the measure where the line ends in a comma.
pub open spec fn measure_line(st: StateView, text: Seq<char>) -> Result<StateView, ParseError> {
    let ends = text.len() > 0 && text.last() == ',';
    let symbols = if ends {
        text.drop_last()
    } else {
        text
    };
    let with = StateView {
        segments: st.segments.push(SegmentView { bpm: st.bpm, scroll: st.scroll, symbols }),
        ..st
    };
    if ends {
        close_measure(with)
    } else {
        Ok(with)
    }
}

/// The state at the start of the course that `name` names.
pub open spec fn open_course(st: StateView, name: Seq<char>) -> StateView {
    StateView {
        open: true,
        current: empty_course(course_of(name)),
        balloons: Seq::empty(),
        time: 0,
        bpm: match st.header.bpm {
            Some(b) => b,
            None => DEFAULT_BPM,
        },
        scroll: UNIT_SCROLL,
        beats: 4,
        unit: 4,
        segments: Seq::empty(),
        combo: None,
        ..st
    }
}

/// The header with the field that `key` names set from `value`; a key that
/// names none changes nothing.
pub open spec fn set_header(h: HeaderView, key: Seq<char>, value: Seq<char>) -> HeaderView {
    if key == "TITLE"@ {
        HeaderView { title: Some(value), ..h }
    } else if key == "SUBTITLE"@ {
        HeaderView { subtitle: Some(value), ..h }
    } else if key == "BPM"@ {
        HeaderView { bpm: parse_decimal(value, 3, DECIMAL_LIMIT), ..h }
    } else if key == "WAVE"@ {
        HeaderView { wave: Some(value), ..h }
    } else if key == "OFFSET"@ {
        HeaderView { offset: parse_decimal(value, 9, SECONDS_LIMIT), ..h }
    } else if key == "DEMOSTART"@ {
        HeaderView { demostart: parse_decimal(value, 9, SECONDS_LIMIT), ..h }
    } else if key == "SONGVOL"@ {
        HeaderView { songvol: parse_i32(value), ..h }
    } else if key == "SEVOL"@ {
        HeaderView { sevol: parse_i32(value), ..h }
    } else if key == "STYLE"@ {
        HeaderView { style: Some(value), ..h }
    } else if key == "GENRE"@ {
        HeaderView { genre: Some(value), ..h }
    } else if key == "ARTIST"@ {
        HeaderView { artist: Some(value), ..h }
    } else {
        h
    }
}

/// A line outside a course: `KEY:VALUE` sets a field of the header or opens
/// a course, anything else is passed over.
pub open spec fn header_line(st: StateView, text: Seq<char>) -> StateView {
    match split_once(text, ':') {
        Some((k, v)) => {
            if trim(k) == "COURSE"@ {
                open_course(st, trim(v))
            } else {
                StateView { header: set_header(st.header, trim(k), trim(v)), ..st }
            }
        },
        None => st,
    }
}

/// A line `KEY:VALUE` within a course.
pub open spec fn course_field(st: StateView, key: Seq<char>, value: Seq<char>) -> StateView {
    if key == "LEVEL"@ {
        StateView { current: CourseView { level: parse_i32(value), ..st.current }, ..st }
    } else if key == "BALLOON"@ {
        StateView { balloons: (st.balloons + balloon_counts(value)).reverse(), ..st }
    } else if key == "SCOREINIT"@ {
        StateView { current: CourseView { scoreinit: parse_i32(value), ..st.current }, ..st }
    } else if key == "SCOREDIFF"@ {
        StateView { current: CourseView { scorediff: parse_i32(value), ..st.current }, ..st }
    } else {
        st
    }
}

/// The tempo that `BPMCHANGE` sets: the one that `value` writes, else the
/// one of the header, else none at all.
pub open spec fn changed_bpm(h: HeaderView, value: Seq<char>) -> i64 {
    match parse_decimal(value, 3, DECIMAL_LIMIT) {
        Some(b) => b,
        None => match h.bpm {
            Some(b) => b,
            None => 0,
        },
    }
}

/// A number of a time signature; what writes none counts as four.
pub open spec fn signature_part(s: Seq<char>) -> i32 {
    match parse_i32(s) {
        Some(v) => v,
        None => 4,
    }
}

/// A command within a course: the first word behind the `#` names it, the
/// second is its argument.
pub open spec fn command(st: StateView, raw: Seq<char>) -> Result<StateView, ParseError> {
    let key = first_word(raw);
    let value = first_word(after_first_word(raw));
    let speed = speed_of(st.bpm, st.scroll);
    if key == "GOGOSTART"@ {
        Ok(push_note(st, marker(st.time, speed, TaikoNoteType::GogoStart, 1)))
    } else if key == "GOGOEND"@ {
        Ok(push_note(st, marker(st.time, speed, TaikoNoteType::GogoEnd, 1)))
    } else if key == "END"@ {
        Ok(
            StateView {
                courses: st.courses.push(st.current),
                open: false,
                current: empty_course(0),
                ..st
            },
        )
    } else if key == "BPMCHANGE"@ || key == "MEASURE"@ || key == "SCROLL"@ || key == "DELAY"@ {
        if value.len() == 0 {
            Err(ParseError::MissingArgument)
        } else if key == "BPMCHANGE"@ {
            Ok(StateView { bpm: changed_bpm(st.header, value), ..st })
        } else if key == "SCROLL"@ {
            Ok(
                StateView {
                    scroll: match parse_decimal(value, 3, DECIMAL_LIMIT) {
                        Some(s) => s,
                        None => UNIT_SCROLL,
                    },
                    ..st
                },
            )
        } else if key == "DELAY"@ {
            advance(
                st,
                match parse_decimal(value, 9, SECONDS_LIMIT) {
                    Some(d) => d as int,
                    None => 0,
                },
            )
        } else {
            match split_once(value, '/') {
                Some((beats, unit)) => Ok(
                    StateView { beats: signature_part(beats), unit: signature_part(unit), ..st },
                ),
                None => Err(ParseError::MalformedMeasure),
            }
        }
    } else {
        Ok(st)
    }
}

/// What one line does to the state. A comment and the blanks around the
/// rest are dropped; an empty line does nothing.
pub open spec fn step_line(st: StateView, line: Seq<char>) -> Result<StateView, ParseError> {
    let text = trim(strip_comment(line));
    if text.len() == 0 {
        Ok(st)
    } else if !st.open {
        Ok(header_line(st, text))
    } else {
        match split_once(text, ':') {
            Some((k, v)) => Ok(course_field(st, trim(k), trim(v))),
            None => if text[0] == '#' {
                command(st, text.drop_first())
            } else {
                measure_line(st, text)
            },
        }
    }
}

/// What the lines of `s` do to the state, one after the other.
pub open spec fn run_text(st: StateView, s: Seq<char>) -> Result<StateView, ParseError>
    decreases s.len(),
{
    let k = first_where(s, is_char('\n'));
    match step_line(st, s.subrange(0, k)) {
        Ok(next) => if 0 <= k < s.len() {
            run_text(next, s.subrange(k + 1, s.len() as int))
        } else {
            Ok(next)
        },
        Err(e) => Err(e),
    }
}

/// The chart that the text `s` writes, or why it writes none.
pub open spec fn parse_chart(s: Seq<char>) -> Result<ChartView, ParseError> {
    match run_text(initial_state(), s) {
        Ok(st) => if st.open {
            Err(ParseError::UnterminatedCourse)
        } else {
            Ok(ChartView { header: st.header, courses: st.courses })
        },
        Err(e) => Err(e),
    }
}

/// Symbols are evenly spaced: a run of symbols moves the current instant by
/// as many times the time of one as there are symbols, and sets nothing but
/// the notes, the open roll and the balloons to come.
pub proof fn lemma_run_symbols_time(st: StateView, symbols: Seq<char>, speed: i64, each: int)
    ensures
        run_symbols(st, symbols, speed, each) matches Ok(next) ==> {
            &&& next.time == st.time + symbols.len() * each
            &&& next.bpm == st.bpm
            &&& next.scroll == st.scroll
            &&& next.beats == st.beats
            &&& next.unit == st.unit
            &&& next.header == st.header
            &&& next.courses == st.courses
            &&& next.segments == st.segments
            &&& next.current.notes.len() >= st.current.notes.len()
        },
    decreases symbols.len(),
{
    if symbols.len() > 0 {
        match advance(write_symbol(st, symbols[0], speed), each) {
            Ok(mid) => {
                lemma_run_symbols_time(mid, symbols.drop_first(), speed, each);
                assert(symbols.len() * each == each + (symbols.len() - 1) * each)
                    by (nonlinear_arith);
            },
            Err(_) => {},
        }
    }
}

/// A measure under one tempo lasts as long as its time signature says, but
/// for what is cut off from the time of one symbol: the current instant
/// moves by as many times the time of one symbol as the measure has symbols.
pub proof fn lemma_measure_time(st: StateView, text: Seq<char>)
    requires
        st.segments.len() == 0,
        text.len() > 1,
        text.last() == ',',
    ensures
        measure_line(st, text) matches Ok(next) ==> next.time == st.time + (text.len() - 1)
            * symbol_duration(st.bpm, st.beats, st.unit, text.len() - 1),
{
    let symbols = text.drop_last();
    let seg = SegmentView { bpm: st.bpm, scroll: st.scroll, symbols };
    let with = StateView { segments: st.segments.push(seg), ..st };
    assert(with.segments =~= seq![seg]);
    assert(with.segments.drop_last() =~= Seq::empty());
    assert(total_symbols(with.segments.drop_last()) == 0);
    assert(total_symbols(with.segments) == symbols.len());
    let cleared = StateView { segments: Seq::empty(), ..with };
    let due = padded(with.segments);
    assert(due == with.segments);
    assert(due.drop_first() =~= Seq::empty());
    if st.bpm != 0 && st.unit != 0 {
        let speed = speed_of(seg.bpm, seg.scroll);
        let each = symbol_duration(seg.bpm, st.beats, st.unit, symbols.len() as int);
        let from = push_note(cleared, marker(cleared.time, speed, TaikoNoteType::BarLine, 0));
        lemma_run_symbols_time(from, symbols, speed, each);
        let count = symbols.len() as int;
        assert(measure_line(st, text) == close_measure(with));
        assert(close_measure(with) == run_segments(cleared, due, count, true));
        assert(due[0] == seg);
        match run_symbols(from, symbols, speed, each) {
            Ok(next) => {
                assert(next.unit == st.unit);
                assert(run_segments(next, due.drop_first(), count, false) == Ok::<
                    StateView,
                    ParseError,
                >(next));
                assert(run_segments(cleared, due, count, true) == Ok::<StateView, ParseError>(
                    next,
                ));
            },
            Err(_) => {},
        }
    }
}

} // verus!
