//! The judgement engine: hits on the notes of a course, judged and scored.

pub mod calculated;
pub mod control;
pub mod engine;
pub mod laws;
pub mod model;
pub mod play;
pub mod rules;
pub mod state;

pub use calculated::CalculatedNote;
pub use control::{Action, GameClock, Key, Page, Response};
pub use engine::{DefaultTaikoEngine, TaikoEngine};
pub use play::{select_next, select_prev, AutoPlayer};
pub use rules::{GaugeRule, Rules};
pub use state::{Final, GameSource, Hit, InputState, Judgement, OutputState};
