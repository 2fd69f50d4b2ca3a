//! Training data: scene descriptors, image sets, crops and samples.

pub mod composite;
pub mod crop;
pub mod dataset;
pub mod sample;
pub mod scene;
