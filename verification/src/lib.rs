//! Sorts the files of a directory tree into `YYYY/MM/` directories by date.

pub mod clock;
pub mod collision;
pub mod executor;
pub mod messages;
pub mod paths;
pub mod structs;
pub mod text;
pub mod tools;
