//! A small standard toolkit: JSON, calendar dates, `.env` text, seeded
//! pseudo-random picks and a few helpers for text.
//!
//! Everything here computes on values in memory. Reading files, the clock,
//! the environment and the console is left to the caller.

pub mod bindings;
pub mod date;
pub mod json;
pub mod text;
pub mod utils;
