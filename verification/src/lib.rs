//! A day-schedule library: wrapping wall-clock arithmetic, a day's task
//! list with a retention policy over a keyed schedule, a cursor-driven
//! editing state machine, and projections of a day onto a terminal grid
//! and a condensed status strip.

pub mod color;
pub mod editor;
pub mod schedule;
pub mod strip;
pub mod time;
