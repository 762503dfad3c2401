//! A personal recurring-checklist library.
//!
//! A checklist is a plain text file, one task per line in the form
//! `name,YYYY-MM-DD,interval`. This crate holds the verified core: the
//! record codec, calendar-date arithmetic, and the command logic that
//! turns one file content into the next (`add`, `remove`, `list`,
//! `check`, `uncheck`). Reading and writing the file itself, as well as
//! terminal styling, live outside the library.

pub mod clock;
pub mod commands;
pub mod config;
pub mod date;
pub mod errors;
pub mod record;
pub mod store;
pub mod table;
pub mod text;
