//! Passive circuit breaking, active probing, and outcome windows.

pub mod active;
pub mod candidate;
pub mod circuit;
pub mod outcome_window;
pub mod outlier;
pub mod runner;
