//! guardian: the decision vocabulary of a forward-collision warning arbiter,
//! the metric semantics that judge an arbiter over scripted scenario runs,
//! the command-line grammar of the scenario runner, and the integer state
//! machines (dropouts, ghost lifetimes) of the track simulator.

pub mod decision;
pub mod metrics;
pub mod evaluation;
pub mod cli;
pub mod lifecycle;
pub mod sensor;

pub use decision::Decision;
pub use sensor::Sensor;
