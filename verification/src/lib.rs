//! Ticket management and course-runner logic, with proved contracts.

pub mod data;
pub mod text;
pub mod split;
pub mod store;
pub mod bounded;
pub mod outro;
pub mod halves;
pub mod static_sum;
pub mod leaked_sum;
pub mod runner;
