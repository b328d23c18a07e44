//! The chart format: its notes, the chart itself and its parser.

pub mod chart;
pub mod grammar;
pub mod note;
pub mod number;
pub mod parser;
pub mod text;

pub use chart::{ParseError, TJACourse, TJAHeader, TJA};
pub use note::{TaikoNote, TaikoNoteType, TaikoNoteVariant};
pub use parser::{parse_course, TJAParser};
