//! The logic of a wrapper that runs a command, keeps its whole output in a
//! log file and shows a short preview of it.

pub mod calendar;
pub mod cli;
pub mod decimal;
pub mod lines;
pub mod log_dir;
pub mod log_name;
pub mod pipe;
pub mod preview;
pub mod run;
pub mod signals;
pub mod sweep;
