use vstd::prelude::*;
use crate::batch::RecordBatch;
use crate::error::EngineError;
use crate::filter::FilterOperator;
use crate::project::ProjectOperator;
use crate::sort::SortOperator;
use crate::types::Schema;

verus! {

/// What a batch-at-a-time operator offers: its output schema and one step
/// over a batch. Each operator's own `execute` states exactly what it returns.
pub trait Operator {
    fn execute(&self, input: &RecordBatch) -> (r: Result<RecordBatch, EngineError>)
        requires
            input.wf(),
        ensures
            r matches Ok(b) ==> b.wf(),
    ;

    fn schema(&self) -> &Schema;
}

impl Operator for FilterOperator {
    fn execute(&self, input: &RecordBatch) -> (r: Result<RecordBatch, EngineError>) {
        FilterOperator::execute(self, input)
    }

    fn schema(&self) -> &Schema {
        &self.schema
    }
}

impl Operator for ProjectOperator {
    fn execute(&self, input: &RecordBatch) -> (r: Result<RecordBatch, EngineError>) {
        ProjectOperator::execute(self, input)
    }

    fn schema(&self) -> &Schema {
        &self.schema
    }
}

impl Operator for SortOperator {
    fn execute(&self, input: &RecordBatch) -> (r: Result<RecordBatch, EngineError>) {
        SortOperator::execute(self, input)
    }

    fn schema(&self) -> &Schema {
        &self.schema
    }
}

} // verus!
