//! Replay-gain normalisation of MP3 files: the verified decisions behind the
//! command line tool (argument handling, run planning, album grouping, the
//! replay-gain tag edits and the integer side of the loudness analysis).

pub mod tags;
pub mod text;
pub mod args;
pub mod task;
pub mod plan;
pub mod albums;
pub mod gain;
