//! The tiled, out-of-core stacking pipeline.

pub mod cache;
pub mod clip;
pub mod frames;
pub mod fusion;
pub mod load;
pub mod output;
pub mod relief;
pub mod run;
pub mod select;
