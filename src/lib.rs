//! Core of a rhythm game: the note-map parser, the note scheduler, hit
//! judgment, scoring and the per-frame play-session controller.
//!
//! Positions are fixed-point integers in millionths of a unit, times are
//! integer milliseconds and the play speed is given in thousandths.

pub mod cursor;
pub mod hud;
pub mod map;
pub mod note;
pub mod play_state;
pub mod sound;
pub mod state;
