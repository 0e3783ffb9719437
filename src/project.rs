use vstd::prelude::*;
use crate::batch::{all_names_found, resolve_names, select_view, usize_ints, RecordBatch};
use crate::error::EngineError;
use crate::logical_plan::{project_fields, project_schema, string_views};
use crate::types::{lemma_find_field_bounds, Schema};

verus! {

/// Project operator: keeps the named columns of each batch, in the given order.
pub struct ProjectOperator {
    pub column_names: Vec<String>,
    pub column_indices: Vec<usize>,
    pub schema: Schema,
}

impl ProjectOperator {
    /// Resolves each name against `input_schema`.
    pub fn new(column_names: Vec<String>, input_schema: Schema) -> (r: Result<ProjectOperator, EngineError>)
        ensures
            r is Ok <==> all_names_found(input_schema@, string_views(column_names@)),
            r is Err ==> r matches Err(EngineError::UnknownColumn(_)),
            r matches Ok(op) ==> op.column_names == column_names && usize_ints(op.column_indices@)
                == resolve_names(input_schema@, string_views(column_names@)) && op.schema@
                == project_fields(input_schema@, string_views(column_names@))->Some_0
                && forall|k: int| 0 <= k < op.column_indices@.len() ==> #[trigger] op.column_indices@[k] < input_schema@.len(),
    {
        let ghost nv = string_views(column_names@);
        let schema = project_schema(&input_schema, &column_names)?;
        let mut column_indices: Vec<usize> = Vec::with_capacity(column_names.len());
        let mut k: usize = 0;
        while k < column_names.len()
            invariant
                k <= column_names@.len(),
                nv == string_views(column_names@),
                all_names_found(input_schema@, nv),
                column_indices@.len() == k,
                forall|j: int| 0 <= j < k ==> #[trigger] column_indices@[j] as int == resolve_names(input_schema@, nv)[j],
                forall|j: int| 0 <= j < k ==> #[trigger] column_indices@[j] < input_schema@.len(),
            decreases column_names@.len() - k,
        {
            proof {
                lemma_find_field_bounds(input_schema@, nv[k as int]);
                assert(nv[k as int] == column_names@[k as int]@);
            }
            match input_schema.index_of(column_names[k].as_str()) {
                Some(i) => {
                    column_indices.push(i);
                },
                None => {
                    return Err(EngineError::UnknownColumn(column_names[k].clone()));
                },
            }
            k += 1;
        }
        assert(usize_ints(column_indices@) =~= resolve_names(input_schema@, nv));
        Ok(ProjectOperator { column_names, column_indices, schema })
    }

    pub fn schema(&self) -> (r: &Schema)
        ensures
            r == &self.schema,
    {
        &self.schema
    }

    /// Selects the resolved columns of one batch.
    pub fn execute(&self, input: &RecordBatch) -> (r: Result<RecordBatch, EngineError>)
        requires
            input.wf(),
        ensures
            r is Ok <==> forall|k: int| 0 <= k < self.column_indices@.len() ==> #[trigger] self.column_indices@[k] < input.columns@.len(),
            r is Err ==> r matches Err(EngineError::OutOfRange),
            r matches Ok(b) ==> b.wf() && b@ == select_view(input@, usize_ints(self.column_indices@)),
    {
        input.select_columns(self.column_indices.as_slice())
    }
}

} // verus!
