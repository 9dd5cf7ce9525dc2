//! Finds "silent failures" in CI test logs: runs whose overall banner reports
//! success although individual tests inside them failed.
pub mod classify;
pub mod pattern;
pub mod scan;
pub mod runs;
pub mod archive;
