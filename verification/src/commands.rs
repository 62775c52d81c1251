//! The commands a caller (for instance an interactive front end) can issue
//! against the pipeline application state.

use vstd::prelude::*;

verus! {

/// A command affecting the flow-chart: graph edits, a pipeline run, or a
/// camera adjustment. Camera movement and zoom only concern presentation;
/// they are listed here so that one dispatch point can handle every command.
#[derive(Debug)]
pub enum FlowChartCommand {
    AddNode,
    RunPipeline,
    DeleteSelectedNode,
    PanLeft,
    PanRight,
    PanUp,
    PanDown,
    ZoomIn,
    ZoomOut,
}

} // verus!
