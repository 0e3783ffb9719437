use vstd::prelude::*;

verus! {

/// The kinds of failure the engine reports.
#[derive(Clone, Debug)]
pub enum EngineError {
    /// A file could not be opened or read.
    Io(String),
    /// A file is malformed or could not be decoded.
    ParquetDecode(String),
    /// A column's type is outside the supported set.
    UnsupportedType(String),
    /// A column name is not in the input schema.
    UnknownColumn(String),
    /// The operand types of a binary operator disagree.
    TypeMismatch,
    /// A predicate does not evaluate to booleans.
    NonBooleanPredicate,
    /// Column count or types disagree with a schema, or batches have different schemas.
    SchemaMismatch,
    /// Columns of one batch have different lengths.
    ColumnLengthMismatch,
    /// A plan's schema cannot be known without executing it.
    SchemaUnavailable,
    /// A row or column index is out of range.
    OutOfRange,
    /// An operation got no input: no batches to concatenate, or no output for a scan.
    EmptyInput,
}

} // verus!
