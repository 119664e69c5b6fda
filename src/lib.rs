//! Argument handling for a linker proxy: the pure decisions between reading
//! the linker arguments and running the real linker.

pub mod text;
pub mod dedup;
pub mod flags;
pub mod lines;
pub mod side_channel;
pub mod target;
pub mod invoke;
pub mod linker;
pub mod ingest;
