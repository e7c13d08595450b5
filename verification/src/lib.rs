//! Core planning and incremental-evaluation engine for accelerating
//! interactive Vega visualizations: scope resolution, dependency discovery,
//! task-graph construction with deterministic fingerprints, incremental value
//! updates, and the server/client communication plan.

pub mod chart;
pub mod column_usage;
pub mod codec;
pub mod errors;
pub mod graph;
pub mod expression;
pub mod task;
pub mod transforms;
pub mod scope;
pub mod values;
pub mod variable;
pub mod watch;
