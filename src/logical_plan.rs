use vstd::prelude::*;
use crate::error::EngineError;
use crate::types::{find_field, lemma_find_field_bounds, Field, FieldView, Schema};

verus! {

/// A scalar expression over the columns of a batch.
#[derive(Debug)]
pub enum LogicalExpr {
    /// Column reference by name.
    Column(String),
    /// A constant.
    Literal(LogicalValue),
    /// `left op right`.
    BinaryExpr { left: Box<LogicalExpr>, op: BinaryOp, right: Box<LogicalExpr> },
}

/// Binary operators of expressions.
#[derive(Debug, Clone, Copy, PartialEq, Eq, Structural)]
pub enum BinaryOp {
    Eq,
    Neq,
    Lt,
    Le,
    Gt,
    Ge,
    And,
    Or,
}

/// Literal values; a `Float64` literal is the IEEE-754 bit pattern of the number.
#[derive(Debug)]
pub enum LogicalValue {
    Int32(i32),
    Int64(i64),
    Float64(u64),
    String(String),
    Boolean(bool),
}

/// Aggregate functions of GROUP BY.
#[derive(Debug, Clone, Copy, PartialEq, Eq, Structural)]
pub enum AggregateFunction {
    Count,
    Sum,
    Avg,
    Min,
    Max,
}

/// An aggregation: function, input column (`None` for `COUNT(*)`) and output name.
#[derive(Debug, Clone)]
pub struct Aggregation {
    pub function: AggregateFunction,
    pub column: Option<String>,
    pub alias: String,
}

/// Join kinds.
#[derive(Debug, Clone, Copy, PartialEq, Eq, Structural)]
pub enum JoinType {
    Inner,
    Left,
}

/// One ORDER BY key.
#[derive(Debug, Clone)]
pub struct OrderByExpr {
    pub column: String,
    pub ascending: bool,
}

/// A query as a tree of operations; each child is owned by its parent.
#[derive(Debug)]
pub enum LogicalPlan {
    /// Read a Parquet file, optionally only some columns.
    Scan { path: String, projection: Option<Vec<String>>, filters: Vec<LogicalExpr> },
    /// Keep the named columns, in the given order.
    Project { input: Box<LogicalPlan>, columns: Vec<String> },
    /// Keep the rows where the predicate holds.
    Filter { input: Box<LogicalPlan>, predicate: LogicalExpr },
    /// GROUP BY with aggregations.
    Aggregate { input: Box<LogicalPlan>, group_by: Vec<String>, aggs: Vec<Aggregation> },
    /// ORDER BY.
    Sort { input: Box<LogicalPlan>, order_by: Vec<OrderByExpr> },
    /// Equi-join of `left.left_key` with `right.right_key`.
    Join {
        left: Box<LogicalPlan>,
        right: Box<LogicalPlan>,
        join_type: JoinType,
        left_key: String,
        right_key: String,
    },
}

impl Clone for LogicalValue {
    fn clone(&self) -> (r: Self)
        ensures
            r == *self,
    {
        match self {
            LogicalValue::Int32(x) => LogicalValue::Int32(*x),
            LogicalValue::Int64(x) => LogicalValue::Int64(*x),
            LogicalValue::Float64(x) => LogicalValue::Float64(*x),
            LogicalValue::String(x) => LogicalValue::String(x.clone()),
            LogicalValue::Boolean(x) => LogicalValue::Boolean(*x),
        }
    }
}

impl Clone for LogicalExpr {
    fn clone(&self) -> (r: Self)
        ensures
            r == *self,
        decreases self,
    {
        match self {
            LogicalExpr::Column(n) => LogicalExpr::Column(n.clone()),
            LogicalExpr::Literal(v) => LogicalExpr::Literal(v.clone()),
            LogicalExpr::BinaryExpr { left, op, right } => LogicalExpr::BinaryExpr {
                left: Box::new((**left).clone()),
                op: *op,
                right: Box::new((**right).clone()),
            },
        }
    }
}

impl Clone for LogicalPlan {
    fn clone(&self) -> Self
        decreases self,
    {
        match self {
            LogicalPlan::Scan { path, projection, filters } => LogicalPlan::Scan {
                path: path.clone(),
                projection: projection.clone(),
                filters: filters.clone(),
            },
            LogicalPlan::Project { input, columns } => LogicalPlan::Project {
                input: Box::new((**input).clone()),
                columns: columns.clone(),
            },
            LogicalPlan::Filter { input, predicate } => LogicalPlan::Filter {
                input: Box::new((**input).clone()),
                predicate: predicate.clone(),
            },
            LogicalPlan::Aggregate { input, group_by, aggs } => LogicalPlan::Aggregate {
                input: Box::new((**input).clone()),
                group_by: group_by.clone(),
                aggs: aggs.clone(),
            },
            LogicalPlan::Sort { input, order_by } => LogicalPlan::Sort {
                input: Box::new((**input).clone()),
                order_by: order_by.clone(),
            },
            LogicalPlan::Join { left, right, join_type, left_key, right_key } => LogicalPlan::Join {
                left: Box::new((**left).clone()),
                right: Box::new((**right).clone()),
                join_type: *join_type,
                left_key: left_key.clone(),
                right_key: right_key.clone(),
            },
        }
    }
}

/// What can be said of a plan's output schema without executing it.
pub enum SchemaResult {
    Known(Seq<FieldView>),
    Unavailable,
    UnknownColumn,
}

pub open spec fn string_views(v: Seq<String>) -> Seq<Seq<char>> {
    v.map_values(|s: String| s@)
}

/// The fields named by `names`, looked up in `fields`; `None` if one is missing.
pub open spec fn project_fields(fields: Seq<FieldView>, names: Seq<Seq<char>>) -> Option<
    Seq<FieldView>,
> {
    if forall|k: int| 0 <= k < names.len() ==> (#[trigger] find_field(fields, names[k])) is Some {
        Some(Seq::new(names.len(), |k: int| fields[find_field(fields, names[k])->Some_0]))
    } else {
        None
    }
}

/// The schema derivable from the plan alone: projections, filters and sorts
/// over a plan whose schema is known; scans, aggregates and joins need execution.
pub open spec fn plan_schema(p: LogicalPlan) -> SchemaResult
    decreases p,
{
    match p {
        LogicalPlan::Project { input, columns } => match plan_schema(*input) {
            SchemaResult::Known(fs) => match project_fields(fs, string_views(columns@)) {
                Some(out) => SchemaResult::Known(out),
                None => SchemaResult::UnknownColumn,
            },
            other => other,
        },
        LogicalPlan::Filter { input, .. } => plan_schema(*input),
        LogicalPlan::Sort { input, .. } => plan_schema(*input),
        _ => SchemaResult::Unavailable,
    }
}

/// The schema made of the fields called `names`.
pub fn project_schema(input: &Schema, names: &Vec<String>) -> (r: Result<Schema, EngineError>)
    ensures
        r is Ok <==> project_fields(input@, string_views(names@)) is Some,
        r matches Ok(s) ==> s@ == project_fields(input@, string_views(names@))->Some_0,
        r is Err ==> r matches Err(EngineError::UnknownColumn(_)),
{
    let ghost nv = string_views(names@);
    let mut fields: Vec<Field> = Vec::with_capacity(names.len());
    let mut k: usize = 0;
    while k < names.len()
        invariant
            k <= names@.len(),
            nv == string_views(names@),
            fields@.len() == k,
            forall|j: int| 0 <= j < k ==> (#[trigger] find_field(input@, nv[j])) is Some,
            forall|j: int|
                0 <= j < k ==> (#[trigger] fields@[j])@ == input@[find_field(input@, nv[j])->Some_0],
        decreases names@.len() - k,
    {
        proof {
            lemma_find_field_bounds(input@, nv[k as int]);
        }
        match input.index_of(names[k].as_str()) {
            Some(i) => {
                fields.push(input.fields[i].copy());
            },
            None => {
                return Err(EngineError::UnknownColumn(names[k].clone()));
            },
        }
        k += 1;
    }
    let s = Schema { fields };
    assert(s@ =~= project_fields(input@, nv)->Some_0);
    Ok(s)
}

impl LogicalPlan {
    /// The output schema, where it can be derived without executing anything.
    pub fn schema(&self) -> (r: Result<Schema, EngineError>)
        ensures
            match plan_schema(*self) {
                SchemaResult::Known(fs) => r matches Ok(s) && s@ == fs,
                SchemaResult::Unavailable => r matches Err(EngineError::SchemaUnavailable),
                SchemaResult::UnknownColumn => r matches Err(EngineError::UnknownColumn(_)),
            },
        decreases self,
    {
        match self {
            LogicalPlan::Project { input, columns } => {
                let s = input.schema()?;
                project_schema(&s, columns)
            },
            LogicalPlan::Filter { input, .. } => input.schema(),
            LogicalPlan::Sort { input, .. } => input.schema(),
            _ => Err(EngineError::SchemaUnavailable),
        }
    }
}

} // verus!
