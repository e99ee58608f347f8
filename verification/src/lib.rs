//! Fault-report library: captures a call stack at fault time, renders it as a
//! readable trace, assembles a structured report record, serializes it to a
//! stable line-oriented text format, and computes where on disk it should be
//! persisted.

pub mod codec;
pub mod report;
pub mod text;
pub mod trace;
