//! The logic of the course runner: paths and keys of exercises, the record
//! of passed exercises, the watch-mode state machine, and the decisions
//! around running an exercise's tests.

pub mod paths;
pub mod progress;
pub mod watch;
pub mod order;
pub mod testrun;
pub mod cli;
pub mod screen;
