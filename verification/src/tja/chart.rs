//! A parsed chart: its header and its courses.

use crate::tja::note::TaikoNote;
use vstd::prelude::*;

verus! {

/// The characters of an optional text.
pub open spec fn text_view(t: Option<String>) -> Option<Seq<char>> {
    match t {
        Some(s) => Some(s@),
        None => None,
    }
}

/// The header of a chart. Tempo is in thousandths of a beat per minute,
/// times are in nanoseconds, volumes in percent.
#[derive(Clone, Debug, PartialEq, Eq)]
pub struct TJAHeader {
    pub title: Option<String>,
    pub subtitle: Option<String>,
    pub bpm: Option<i64>,
    pub wave: Option<String>,
    pub offset: Option<i64>,
    pub demostart: Option<i64>,
    pub songvol: Option<i32>,
    pub sevol: Option<i32>,
    /// Either "Single" or "Couple".
    pub style: Option<String>,
    pub genre: Option<String>,
    pub artist: Option<String>,
}

/// What a [`TJAHeader`] holds.
pub struct HeaderView {
    pub title: Option<Seq<char>>,
    pub subtitle: Option<Seq<char>>,
    pub bpm: Option<i64>,
    pub wave: Option<Seq<char>>,
    pub offset: Option<i64>,
    pub demostart: Option<i64>,
    pub songvol: Option<i32>,
    pub sevol: Option<i32>,
    pub style: Option<Seq<char>>,
    pub genre: Option<Seq<char>>,
    pub artist: Option<Seq<char>>,
}

/// The header in which nothing is set.
pub open spec fn empty_header() -> HeaderView {
    HeaderView {
        title: None,
        subtitle: None,
        bpm: None,
        wave: None,
        offset: None,
        demostart: None,
        songvol: None,
        sevol: None,
        style: None,
        genre: None,
        artist: None,
    }
}

impl View for TJAHeader {
    type V = HeaderView;

    open spec fn view(&self) -> HeaderView {
        HeaderView {
            title: text_view(self.title),
            subtitle: text_view(self.subtitle),
            bpm: self.bpm,
            wave: text_view(self.wave),
            offset: self.offset,
            demostart: self.demostart,
            songvol: self.songvol,
            sevol: self.sevol,
            style: text_view(self.style),
            genre: text_view(self.genre),
            artist: text_view(self.artist),
        }
    }
}

impl TJAHeader {
    pub fn new() -> (r: Self)
        ensures
            r@ == empty_header(),
    {
        TJAHeader {
            title: None,
            subtitle: None,
            bpm: None,
            wave: None,
            offset: None,
            demostart: None,
            songvol: None,
            sevol: None,
            style: None,
            genre: None,
            artist: None,
        }
    }
}

impl Default for TJAHeader {
    fn default() -> (r: Self)
        ensures
            r@ == empty_header(),
    {
        TJAHeader::new()
    }
}

/// One difficulty of a chart: its notes and how they score.
#[derive(Clone, Debug, PartialEq, Eq)]
pub struct TJACourse {
    pub course: i32,
    pub level: Option<i32>,
    pub scoreinit: Option<i32>,
    pub scorediff: Option<i32>,
    pub notes: Vec<TaikoNote>,
}

/// What a [`TJACourse`] holds.
pub struct CourseView {
    pub course: i32,
    pub level: Option<i32>,
    pub scoreinit: Option<i32>,
    pub scorediff: Option<i32>,
    pub notes: Seq<TaikoNote>,
}

/// The course of difficulty `course` in which nothing else is set.
pub open spec fn empty_course(course: i32) -> CourseView {
    CourseView { course, level: None, scoreinit: None, scorediff: None, notes: Seq::empty() }
}

impl View for TJACourse {
    type V = CourseView;

    open spec fn view(&self) -> CourseView {
        CourseView {
            course: self.course,
            level: self.level,
            scoreinit: self.scoreinit,
            scorediff: self.scorediff,
            notes: self.notes@,
        }
    }
}

impl TJACourse {
    pub fn new(course: i32) -> (r: Self)
        ensures
            r@ == empty_course(course),
    {
        TJACourse { course, level: None, scoreinit: None, scorediff: None, notes: Vec::new() }
    }
}

/// The views of courses, in order.
pub open spec fn course_views(courses: Seq<TJACourse>) -> Seq<CourseView> {
    courses.map_values(|c: TJACourse| c@)
}

/// A chart: the header and the courses in the order they were written.
#[derive(Clone, Debug, PartialEq, Eq)]
pub struct TJA {
    pub header: TJAHeader,
    pub courses: Vec<TJACourse>,
}

/// What a [`TJA`] holds.
pub struct ChartView {
    pub header: HeaderView,
    pub courses: Seq<CourseView>,
}

impl View for TJA {
    type V = ChartView;

    open spec fn view(&self) -> ChartView {
        ChartView { header: self.header@, courses: course_views(self.courses@) }
    }
}

/// Why a text is no chart.
#[derive(Clone, Copy, Debug, PartialEq, Eq, Structural)]
pub enum ParseError {
    /// A command that needs an argument has none.
    MissingArgument,
    /// The argument of `MEASURE` is not of the form `beats/unit`.
    MalformedMeasure,
    /// A measure ends under a tempo of zero or a beat unit of zero.
    InvalidTiming,
    /// A note would lie beyond the times that a chart can hold.
    TimeOutOfRange,
    /// The text ends within a course.
    UnterminatedCourse,
}

impl ParseError {
    /// The error in words.
    pub fn message(&self) -> (r: &'static str)
        ensures
            r@ == match *self {
                ParseError::MissingArgument => "a command is missing its argument"@,
                ParseError::MalformedMeasure => "a measure is not written as beats/unit"@,
                ParseError::InvalidTiming => "a measure ends under a zero tempo or beat unit"@,
                ParseError::TimeOutOfRange => "a note lies out of the range of times"@,
                ParseError::UnterminatedCourse => "the text ends within a course"@,
            },
    {
        match self {
            ParseError::MissingArgument => "a command is missing its argument",
            ParseError::MalformedMeasure => "a measure is not written as beats/unit",
            ParseError::InvalidTiming => "a measure ends under a zero tempo or beat unit",
            ParseError::TimeOutOfRange => "a note lies out of the range of times",
            ParseError::UnterminatedCourse => "the text ends within a course",
        }
    }
}

} // verus!
