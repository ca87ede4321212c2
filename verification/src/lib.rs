//! Turns transcript-like text into a table of speaker turns.
//!
//! Two input formats are understood: lines of the shape
//! `TIMESTAMP - NAME: MESSAGE`, and a loosely structured dump with
//! `speaker:` / `text:` fields. In both, consecutive records of one speaker
//! are folded into a single turn.

pub mod pattern;
pub mod quoted;
pub mod tagged;
pub mod text;
pub mod timestamp;
pub mod timestamped;
pub mod turns;
