//! Grading pipeline for a smart-contract programming course: turns the text
//! output of an external build-and-test toolchain into a structured,
//! deterministic test report.
//!
//! The modules hold the logic of the pipeline on plain values; process
//! spawning, filesystem work and the HTTP binding live outside the library
//! and hand values in and out.

pub mod executor;
pub mod json;
pub mod lesson;
pub mod parse;
pub mod report;
pub mod strings;
pub mod types;
