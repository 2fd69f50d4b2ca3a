//! Training: the command line, the random draws, the schedules, the
//! checkpoints and the run.

pub mod args;
pub mod checkpoint;
pub mod rng;
pub mod run;
pub mod scenes;
pub mod schedule;
