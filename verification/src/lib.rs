//! A Hijri (Umm al-Qura) calendar library: date conversion, month and
//! weekday names, month-name parsing, the table of major Islamic events,
//! and the `cal`-style text rendering used by the `hijri` command.

pub mod engine;
pub mod text;
pub mod names;
pub mod events;
pub mod render;
pub mod parse;
pub mod cli;
