//! Verified core of a tool that gathers security and reliability data about
//! crates published on crates.io: advisory tallies, dependency counts,
//! crate-index version selection, request pacing and CSV rows.
pub mod text;
pub mod advisories;
pub mod deps;
pub mod index;
pub mod crates_io;
pub mod report;
