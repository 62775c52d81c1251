//! Pipeline flow-chart core: a graph resolver that turns nodes and directed
//! connections into a single linear execution chain, and a sequential
//! execution engine that tracks a chain run stage by stage, feeding each
//! stage's captured output into the next stage's input and stopping at the
//! first failure.
//!
//! The resolver is pure. The engine is a verified state machine: the caller
//! performs the actual process work for one stage at a time and reports back
//! a stage outcome; every decision about ordering, piping and failure
//! propagation is made here.

pub mod commands;
pub mod decimal;
pub mod engine;
pub mod flowchart;
pub mod resolve;

pub use commands::FlowChartCommand;
pub use engine::{run_chain, ChainRun, RunFailure, StageOutcome};
pub use flowchart::{Connection, FlowChart, Node};
pub use resolve::resolve_chain;
