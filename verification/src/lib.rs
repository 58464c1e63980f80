//! A verified word-count library: it counts lines, words, characters,
//! bytes and maximum line length in text, classifies command-line
//! arguments, and renders fixed-width count reports.

pub mod args;
pub mod count;
pub mod format;
pub mod laws;
pub mod report;
pub mod split;
