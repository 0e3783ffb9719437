use vstd::prelude::*;
use crate::error::EngineError;
use crate::logical_plan::{project_fields, project_schema, string_views};
use crate::types::{find_field, lemma_find_field_bounds, Schema};

verus! {

/// How a Parquet file is read.
#[derive(Debug, Clone)]
pub struct ParquetReaderConfig {
    /// Decode row groups concurrently when the file has more than one.
    pub parallel: bool,
    /// Leaf columns to decode, in output order; `None` decodes all.
    pub column_indices: Option<Vec<usize>>,
    /// Rows per decoded batch.
    pub batch_size: usize,
}

impl ParquetReaderConfig {
    pub fn default() -> (r: ParquetReaderConfig)
        ensures
            r.parallel,
            r.column_indices is None,
            r.batch_size == 8192,
    {
        ParquetReaderConfig { parallel: true, column_indices: None, batch_size: 8192 }
    }

    /// Whether row groups are decoded concurrently.
    pub fn reads_in_parallel(&self, num_row_groups: usize) -> (r: bool)
        ensures
            r == (self.parallel && num_row_groups > 1),
    {
        self.parallel && num_row_groups > 1
    }
}

/// A scan of one Parquet file, with its output schema and read configuration.
pub struct ScanOperator {
    pub path: String,
    pub projection: Option<Vec<String>>,
    pub schema: Schema,
    pub config: ParquetReaderConfig,
}

impl ScanOperator {
    /// Prunes the file's schema to the projected columns, in projection order.
    pub fn new(path: &str, projection: Option<Vec<String>>, file_schema: Schema) -> (r: Result<ScanOperator, EngineError>)
        ensures
            r is Ok <==> match projection {
                None => true,
                Some(cols) => project_fields(file_schema@, string_views(cols@)) is Some,
            },
            r is Err ==> r matches Err(EngineError::UnknownColumn(_)),
            r matches Ok(op) ==> op.path@ == path@ && op.projection == projection && op.config.parallel
                && op.config.batch_size == 8192 && match projection {
                None => op.schema@ == file_schema@ && op.config.column_indices is None,
                Some(cols) => op.schema@ == project_fields(file_schema@, string_views(cols@))->Some_0
                    && (op.config.column_indices matches Some(ix) && ix@.len() == cols@.len()
                    && forall|k: int| 0 <= k < ix@.len() ==> #[trigger] ix@[k] as int
                        == find_field(file_schema@, cols@[k]@)->Some_0),
            },
    {
        match projection {
            None => Ok(ScanOperator {
                path: path.to_owned(),
                projection: None,
                schema: file_schema,
                config: ParquetReaderConfig::default(),
            }),
            Some(cols) => {
                let schema = project_schema(&file_schema, &cols)?;
                let ghost nv = string_views(cols@);
                let mut ix: Vec<usize> = Vec::with_capacity(cols.len());
                let mut k: usize = 0;
                while k < cols.len()
                    invariant
                        k <= cols@.len(),
                        nv == string_views(cols@),
                        project_fields(file_schema@, nv) is Some,
                        ix@.len() == k,
                        forall|j: int| 0 <= j < k ==> #[trigger] ix@[j] as int == find_field(file_schema@, cols@[j]@)->Some_0,
                    decreases cols@.len() - k,
                {
                    proof {
                        assert(nv[k as int] == cols@[k as int]@);
                        assert(find_field(file_schema@, nv[k as int]) is Some);
                    }
                    match file_schema.index_of(cols[k].as_str()) {
                        Some(i) => {
                            ix.push(i);
                        },
                        None => {
                            return Err(EngineError::UnknownColumn(cols[k].clone()));
                        },
                    }
                    k += 1;
                }
                Ok(ScanOperator {
                    path: path.to_owned(),
                    projection: Some(cols),
                    schema,
                    config: ParquetReaderConfig { parallel: true, column_indices: Some(ix), batch_size: 8192 },
                })
            },
        }
    }

    pub fn schema(&self) -> (r: &Schema)
        ensures
            r == &self.schema,
    {
        &self.schema
    }
}

} // verus!
