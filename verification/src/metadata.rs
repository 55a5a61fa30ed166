//! Tag records and what can be read off a file's path.

pub mod models;
pub mod tag_reader;
