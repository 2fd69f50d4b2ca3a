//! Focus-stacking core: the rules, plans and data layouts of a neural and
//! classical focus-stacking pipeline, each with its contract.

pub mod bridge;
pub mod data;
pub mod discovery;
pub mod grid;
pub mod infer;
pub mod loss;
pub mod model;
pub mod order;
pub mod paths;
pub mod pipeline;
pub mod runtime;
pub mod text;
pub mod train;
