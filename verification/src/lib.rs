//! A rhythm-game timing engine.
//!
//! Times are whole nanoseconds, tempi are thousandths of a beat per minute,
//! and every quantity that is a fraction by nature (the gauge, a scroll
//! position) is an exact [`Ratio`] of integers.

pub mod latency;
pub mod note;
pub mod ratio;
pub mod rhythm;
pub mod song;
pub mod streaming;
pub mod taiko;
pub mod tja;
pub mod track;

pub use latency::LatencyMeter;
pub use note::{Note, SimpleNote};
pub use ratio::Ratio;
pub use rhythm::Rhythm;
pub use song::{decode_chart, Song};
pub use streaming::{StreamingEvent, TaikoGameState};
pub use taiko::{
    select_next, select_prev, Action, AutoPlayer, CalculatedNote, DefaultTaikoEngine, Final,
    GameClock, GameSource, GaugeRule, Hit, InputState, Judgement, Key, OutputState, Page, Response,
    Rules, TaikoEngine,
};
pub use tja::{
    parse_course, ParseError, TJACourse, TJAHeader, TJAParser, TaikoNote, TaikoNoteType,
    TaikoNoteVariant, TJA,
};
