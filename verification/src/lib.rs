//! Analysis engine for `landed`: find code that shipped but never runs.

pub mod baseline;
pub mod calendar;
pub mod changes;
pub mod config;
pub mod evidence;
pub mod findings;
pub mod frontend;
pub mod graph;
pub mod impact;
pub mod ir;
pub mod lang;
pub mod laws;
pub mod names;
pub mod number;
pub mod order;
pub mod paths;
pub mod project;
pub mod regions;
pub mod render;
pub mod report;
pub mod scan;
pub mod scanner;
pub mod seqs;
pub mod source;
pub mod targets;
pub mod text;
