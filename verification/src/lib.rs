//! Host-fact formatting library: converts raw byte counts, usage ratios and
//! collected system facts into human-readable, column-aligned terminal text.
//!
//! The crate holds the pure logic only. Callers collect the raw facts
//! (file contents, process lists, terminal width) and hand them in as plain
//! values; every function here is verified.

pub mod format_num;
pub mod report;
pub mod services;
pub mod sys;
pub mod text;
