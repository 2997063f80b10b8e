//! Timing, scheduling and judgment engine of a terminal rhythm game.
//!
//! A chart is a line of text that names notes and tempo or scroll-speed
//! changes together with the gaps between them. The engine turns that text
//! into a timeline, advances the timeline tick by tick, judges key presses
//! against the notes that are due, keeps the score, and decides how long each
//! tick has to wait so that the game stays in step with the wall clock.
//!
//! All quantities are exact fixed-point numbers; see [`units`].

pub mod units;
pub mod text;
pub mod number;
pub mod chart;
pub mod parse;
pub mod session;
pub mod frame;
