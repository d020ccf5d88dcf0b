//! Single-flight snapshot jobs for a long-running node: the job controller,
//! the live log, the export supervisor's decisions and the checksum manifest.
pub mod config;
pub mod digest;
pub mod job;
pub mod log;
pub mod manifest;
pub mod path;
pub mod pipeline;
pub mod text;
