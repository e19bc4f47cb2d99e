//! The compute halves of the two command-line tools: option validation,
//! configuration, and the diff or patch run itself, on bytes already read.

pub mod diff;
pub mod patch;
