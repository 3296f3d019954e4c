//! What the workflow manager accepts: upsert a workflow under its name, or
//! stop the workflow of a name.  The request id is opaque and echoed back
//! for correlation.

use vstd::prelude::*;
use crate::definitions::WorkflowDefinition;

verus! {

pub enum WorkflowManagerRequestOperation {
    UpsertWorkflow { definition: WorkflowDefinition },
    StopWorkflow { name: String },
}

pub struct WorkflowManagerRequest {
    pub request_id: String,
    pub operation: WorkflowManagerRequestOperation,
}

} // verus!
