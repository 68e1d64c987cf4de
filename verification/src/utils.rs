//! Small helpers: type names, console control, `.env` text, pseudo-random
//! picks.

pub mod clear_cli;
pub mod dotenv;
pub mod random;
pub mod type_of;
