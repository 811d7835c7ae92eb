//! Lists the files that a working copy reports as changed, each path taken
//! relative to the directory the caller stands in.

pub mod command;
pub mod rebase;
pub mod report;
pub mod status;
pub mod text;
