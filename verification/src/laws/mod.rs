//! What the library is for, said of its inputs and results.
//!
//! Each law here says what comes of an operation in plain terms: positions in
//! a list, literals, fields. None speaks of how the operation is carried out.

pub mod accepting;
pub mod dates;
pub mod diffs;
pub mod dump_walks;
pub mod dumps;
pub mod impacts;
pub mod judging;
pub mod languages;
pub mod models;
pub mod pages;
pub mod paths;
pub mod projects;
pub mod reporting;
pub mod rust_definitions;
pub mod rust_reading;
pub mod scanning;
pub mod script_definitions;
pub mod scripts;
pub mod subsystems;
pub mod surfaces;
pub mod texts;
pub mod trees;
