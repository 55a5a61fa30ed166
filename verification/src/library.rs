//! The catalog: its rows, the store that keeps them, and the scanner that
//! feeds it.

pub mod catalog;
pub mod database;
pub mod listing;
pub mod models;
pub mod scanner;
pub mod walk;
