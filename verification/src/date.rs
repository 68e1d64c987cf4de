//! Calendar dates and three ways of writing them as text.

pub mod calendar;
pub mod date;
pub mod iso8601;
pub mod posix;
pub mod rcf3339;
