//! Store-and-forward routing of metric files: batching, relabelling,
//! per-sink filtering and the commit protocol between two staging directories.

pub mod batch;
pub mod clock;
pub mod labels;
pub mod lines;
pub mod names;
pub mod protocol;
pub mod router;
pub mod schedule;
pub mod sink;
pub mod text;
