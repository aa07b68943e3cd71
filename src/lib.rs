//! In-process memory telemetry: a registry of pluggable memory reporters, the rendering of
//! their reports, the parsing of the kernel's per-process memory descriptions, and the
//! composition rules for measuring heap data hanging off owned values.

pub mod chan;
pub mod measure;
pub mod profiler;
pub mod report;
pub mod smaps;
pub mod sysinfo;
pub mod text;
