//! Water level along one half-cycle of a tide: clock-time text handling,
//! the calendar arithmetic around the two anchors, and the sampling
//! schedule and layout of the level table.

pub mod clock;
pub mod time_text;
pub mod tide;
