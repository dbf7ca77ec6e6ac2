//! Detection core of a rhythm-game automation bot.
//!
//! The bot watches a fixed region of a display, decides for each lane
//! whether a note glyph has entered the hit zone, and plans one key click
//! per positive lane. Everything that decides — color classification,
//! pixel averaging, the per-lane scan, and the tick planner — lives here
//! and carries a contract. Screen capture and key synthesis are left to
//! the surrounding application.

pub mod color;
pub mod detect;
pub mod engine;
pub mod frame;
pub mod lanes;
pub mod select;
