use vstd::prelude::*;
use crate::aggregate::Number;
use crate::batch::RecordBatch;
use crate::error::EngineError;
use crate::executor::{result_view, scan_nodes, trace_ok, Executor, ScanOutput, Trace};
use crate::logical_plan::{
    AggregateFunction, Aggregation, BinaryOp, JoinType, LogicalExpr, LogicalPlan, LogicalValue,
    OrderByExpr,
};

verus! {

/// A lazy query: each builder method wraps the plan in one more operation.
#[derive(Debug)]
pub struct DataFrame {
    pub plan: LogicalPlan,
}

/// A query whose rows are grouped, waiting for its aggregations.
#[derive(Debug)]
pub struct GroupedDataFrame {
    pub input: LogicalPlan,
    pub group_by: Vec<String>,
}

impl GroupedDataFrame {
    /// Aggregates each group.
    pub fn agg(self, aggs: Vec<Aggregation>) -> (r: DataFrame)
        ensures
            r.plan == (LogicalPlan::Aggregate { input: Box::new(self.input), group_by: self.group_by, aggs }),
    {
        DataFrame { plan: LogicalPlan::Aggregate { input: Box::new(self.input), group_by: self.group_by, aggs } }
    }
}

/// Where a scan reads from and which columns it keeps.
#[derive(Debug, Clone)]
pub struct ScanRequest {
    pub path: String,
    pub projection: Option<Vec<String>>,
}

impl DataFrame {
    /// A scan of every column of a Parquet file.
    pub fn from_parquet(path: &str) -> (r: Result<DataFrame, EngineError>)
        ensures
            r matches Ok(df) && df.plan matches LogicalPlan::Scan { path: p, projection: None, filters }
                && p@ == path@ && filters@.len() == 0,
    {
        Ok(DataFrame { plan: LogicalPlan::Scan { path: path.to_owned(), projection: None, filters: Vec::new() } })
    }

    /// Keeps the named columns.
    pub fn select(self, columns: Vec<String>) -> (r: DataFrame)
        ensures
            r.plan == (LogicalPlan::Project { input: Box::new(self.plan), columns }),
    {
        DataFrame { plan: LogicalPlan::Project { input: Box::new(self.plan), columns } }
    }

    /// Keeps the rows where `predicate` holds.
    pub fn filter(self, predicate: LogicalExpr) -> (r: DataFrame)
        ensures
            r.plan == (LogicalPlan::Filter { input: Box::new(self.plan), predicate }),
    {
        DataFrame { plan: LogicalPlan::Filter { input: Box::new(self.plan), predicate } }
    }

    /// Groups by the named columns; `agg` on the result aggregates each group.
    pub fn group_by(self, columns: Vec<String>) -> (r: GroupedDataFrame)
        ensures
            r.input == self.plan && r.group_by == columns,
    {
        GroupedDataFrame { input: self.plan, group_by: columns }
    }

    /// Groups by the named columns and aggregates each group.
    pub fn aggregate(self, group_by: Vec<String>, aggs: Vec<Aggregation>) -> (r: DataFrame)
        ensures
            r.plan == (LogicalPlan::Aggregate { input: Box::new(self.plan), group_by, aggs }),
    {
        DataFrame { plan: LogicalPlan::Aggregate { input: Box::new(self.plan), group_by, aggs } }
    }

    /// Orders all rows by the keys.
    pub fn order_by(self, order_by: Vec<OrderByExpr>) -> (r: DataFrame)
        ensures
            r.plan == (LogicalPlan::Sort { input: Box::new(self.plan), order_by }),
    {
        DataFrame { plan: LogicalPlan::Sort { input: Box::new(self.plan), order_by } }
    }

    /// Joins with `right` on `left_key == right_key`.
    pub fn join(self, right: DataFrame, join_type: JoinType, left_key: &str, right_key: &str) -> (r: DataFrame)
        ensures
            r.plan matches LogicalPlan::Join { left, right: rp, join_type: jt, left_key: lk, right_key: rk }
                && *left == self.plan && *rp == right.plan && jt == join_type && lk@ == left_key@ && rk@ == right_key@,
    {
        DataFrame {
            plan: LogicalPlan::Join {
                left: Box::new(self.plan),
                right: Box::new(right.plan),
                join_type,
                left_key: left_key.to_owned(),
                right_key: right_key.to_owned(),
            },
        }
    }

    /// The files the plan scans, in the order `collect_from` expects their outputs.
    pub fn scan_requests(&self) -> (r: Vec<ScanRequest>)
        ensures
            r@.len() == scan_nodes(self.plan).len(),
            forall|i: int| 0 <= i < r@.len() ==> (#[trigger] r@[i]).path@ == scan_nodes(self.plan)[i]->Scan_path@
                && name_views(r@[i].projection) == name_views(scan_nodes(self.plan)[i]->Scan_projection),
    {
        let mut out: Vec<ScanRequest> = Vec::new();
        collect_scans(&self.plan, &mut out);
        assert forall|i: int| 0 <= i < out@.len() implies (#[trigger] out@[i]).path@ == scan_nodes(self.plan)[i]->Scan_path@
            && name_views(out@[i].projection) == name_views(scan_nodes(self.plan)[i]->Scan_projection) by {
            assert(out@[0 + i] == out@[i]);
        }
        out
    }

    /// Runs the plan over the scans' outputs.
    pub fn collect_from<F: Fn(AggregateFunction, Vec<Number>) -> Option<u64>>(
        &self,
        scans: &Vec<ScanOutput>,
        finish: &F,
    ) -> (r: Result<Vec<RecordBatch>, EngineError>)
        requires
            forall|f: AggregateFunction, v: Vec<Number>| #[trigger] finish.requires((f, v)),
        ensures
            exists|t: Trace| trace_ok(self.plan, t, scans@, 0, *finish, result_view(r)),
    {
        let ex = Executor::new();
        ex.execute(&self.plan, scans, finish)
    }
}

/// The column names of a projection, as values.
pub open spec fn name_views(p: Option<Vec<String>>) -> Option<Seq<Seq<char>>> {
    match p {
        Some(v) => Some(crate::logical_plan::string_views(v@)),
        None => None,
    }
}

fn copy_names(p: &Option<Vec<String>>) -> (r: Option<Vec<String>>)
    ensures
        name_views(r) == name_views(*p),
{
    match p {
        None => None,
        Some(v) => {
            let mut out: Vec<String> = Vec::with_capacity(v.len());
            let mut k: usize = 0;
            while k < v.len()
                invariant
                    k <= v@.len(),
                    out@.len() == k,
                    forall|j: int| 0 <= j < k ==> (#[trigger] out@[j])@ == v@[j]@,
                decreases v@.len() - k,
            {
                out.push(v[k].clone());
                k += 1;
            }
            assert(crate::logical_plan::string_views(out@) =~= crate::logical_plan::string_views(v@));
            Some(out)
        },
    }
}

fn collect_scans(plan: &LogicalPlan, out: &mut Vec<ScanRequest>)
    ensures
        final(out)@.len() == old(out)@.len() + scan_nodes(*plan).len(),
        final(out)@.subrange(0, old(out)@.len() as int) == old(out)@,
        forall|i: int| 0 <= i < scan_nodes(*plan).len() ==> (#[trigger] final(out)@[old(out)@.len() + i]).path@
            == scan_nodes(*plan)[i]->Scan_path@ && name_views(final(out)@[old(out)@.len() + i].projection)
            == name_views(scan_nodes(*plan)[i]->Scan_projection),
    decreases plan,
{
    match plan {
        LogicalPlan::Scan { path, projection, .. } => {
            out.push(ScanRequest { path: path.clone(), projection: copy_names(projection) });
        },
        LogicalPlan::Project { input, .. } => collect_scans(input, out),
        LogicalPlan::Filter { input, .. } => collect_scans(input, out),
        LogicalPlan::Aggregate { input, .. } => collect_scans(input, out),
        LogicalPlan::Sort { input, .. } => collect_scans(input, out),
        LogicalPlan::Join { left, right, .. } => {
            let ghost n0 = out@.len();
            collect_scans(left, out);
            let ghost mid = out@;
            collect_scans(right, out);
            proof {
                let sl = scan_nodes(**left);
                let sr = scan_nodes(**right);
                assert forall|i: int| 0 <= i < sl.len() + sr.len() implies (#[trigger] out@[n0 + i]).path@
                    == (sl + sr)[i]->Scan_path@ && name_views(out@[n0 + i].projection) == name_views((sl + sr)[i]->Scan_projection) by {
                    if i < sl.len() {
                        assert(out@.subrange(0, mid.len() as int)[n0 + i] == mid[n0 + i]);
                    } else {
                        assert(out@[mid.len() + (i - sl.len())].path@ == sr[i - sl.len()]->Scan_path@);
                        assert(name_views(out@[mid.len() + (i - sl.len())].projection) == name_views(sr[i - sl.len()]->Scan_projection));
                    }
                }
                assert(out@.subrange(0, n0 as int) =~= mid.subrange(0, n0 as int));
            }
        },
    }
}

/// A reference to the column called `name`.
pub fn col(name: &str) -> (r: LogicalExpr)
    ensures
        r matches LogicalExpr::Column(n) && n@ == name@,
{
    LogicalExpr::Column(name.to_owned())
}

pub fn lit_int32(v: i32) -> (r: LogicalExpr)
    ensures
        r == LogicalExpr::Literal(LogicalValue::Int32(v)),
{
    LogicalExpr::Literal(LogicalValue::Int32(v))
}

pub fn lit_int64(v: i64) -> (r: LogicalExpr)
    ensures
        r == LogicalExpr::Literal(LogicalValue::Int64(v)),
{
    LogicalExpr::Literal(LogicalValue::Int64(v))
}

/// A float literal, given as the IEEE-754 bit pattern of the number.
pub fn lit_float64(bits: u64) -> (r: LogicalExpr)
    ensures
        r == LogicalExpr::Literal(LogicalValue::Float64(bits)),
{
    LogicalExpr::Literal(LogicalValue::Float64(bits))
}

pub fn lit_string(v: &str) -> (r: LogicalExpr)
    ensures
        r matches LogicalExpr::Literal(LogicalValue::String(s)) && s@ == v@,
{
    LogicalExpr::Literal(LogicalValue::String(v.to_owned()))
}

pub fn lit_bool(v: bool) -> (r: LogicalExpr)
    ensures
        r == LogicalExpr::Literal(LogicalValue::Boolean(v)),
{
    LogicalExpr::Literal(LogicalValue::Boolean(v))
}

pub open spec fn binary(left: LogicalExpr, op: BinaryOp, right: LogicalExpr) -> LogicalExpr {
    LogicalExpr::BinaryExpr { left: Box::new(left), op, right: Box::new(right) }
}

/// Builders of binary expressions.
pub trait ExprBuilder: Sized {
    spec fn as_expr(&self) -> LogicalExpr;

    fn eq(&self, other: LogicalExpr) -> (r: LogicalExpr)
        ensures
            r == binary(self.as_expr(), BinaryOp::Eq, other),
    ;

    fn neq(&self, other: LogicalExpr) -> (r: LogicalExpr)
        ensures
            r == binary(self.as_expr(), BinaryOp::Neq, other),
    ;

    fn gt(&self, other: LogicalExpr) -> (r: LogicalExpr)
        ensures
            r == binary(self.as_expr(), BinaryOp::Gt, other),
    ;

    fn ge(&self, other: LogicalExpr) -> (r: LogicalExpr)
        ensures
            r == binary(self.as_expr(), BinaryOp::Ge, other),
    ;

    fn lt(&self, other: LogicalExpr) -> (r: LogicalExpr)
        ensures
            r == binary(self.as_expr(), BinaryOp::Lt, other),
    ;

    fn le(&self, other: LogicalExpr) -> (r: LogicalExpr)
        ensures
            r == binary(self.as_expr(), BinaryOp::Le, other),
    ;

    fn and(&self, other: LogicalExpr) -> (r: LogicalExpr)
        ensures
            r == binary(self.as_expr(), BinaryOp::And, other),
    ;

    fn or(&self, other: LogicalExpr) -> (r: LogicalExpr)
        ensures
            r == binary(self.as_expr(), BinaryOp::Or, other),
    ;
}

impl ExprBuilder for LogicalExpr {
    open spec fn as_expr(&self) -> LogicalExpr {
        *self
    }

    fn eq(&self, other: LogicalExpr) -> (r: LogicalExpr) {
        LogicalExpr::BinaryExpr { left: Box::new(self.clone()), op: BinaryOp::Eq, right: Box::new(other) }
    }

    fn neq(&self, other: LogicalExpr) -> (r: LogicalExpr) {
        LogicalExpr::BinaryExpr { left: Box::new(self.clone()), op: BinaryOp::Neq, right: Box::new(other) }
    }

    fn gt(&self, other: LogicalExpr) -> (r: LogicalExpr) {
        LogicalExpr::BinaryExpr { left: Box::new(self.clone()), op: BinaryOp::Gt, right: Box::new(other) }
    }

    fn ge(&self, other: LogicalExpr) -> (r: LogicalExpr) {
        LogicalExpr::BinaryExpr { left: Box::new(self.clone()), op: BinaryOp::Ge, right: Box::new(other) }
    }

    fn lt(&self, other: LogicalExpr) -> (r: LogicalExpr) {
        LogicalExpr::BinaryExpr { left: Box::new(self.clone()), op: BinaryOp::Lt, right: Box::new(other) }
    }

    fn le(&self, other: LogicalExpr) -> (r: LogicalExpr) {
        LogicalExpr::BinaryExpr { left: Box::new(self.clone()), op: BinaryOp::Le, right: Box::new(other) }
    }

    fn and(&self, other: LogicalExpr) -> (r: LogicalExpr) {
        LogicalExpr::BinaryExpr { left: Box::new(self.clone()), op: BinaryOp::And, right: Box::new(other) }
    }

    fn or(&self, other: LogicalExpr) -> (r: LogicalExpr) {
        LogicalExpr::BinaryExpr { left: Box::new(self.clone()), op: BinaryOp::Or, right: Box::new(other) }
    }
}

/// `COUNT(*)` named `alias`.
pub fn count(alias: &str) -> (r: Aggregation)
    ensures
        r.function == AggregateFunction::Count && r.column is None && r.alias@ == alias@,
{
    Aggregation { function: AggregateFunction::Count, column: None, alias: alias.to_owned() }
}

/// `COUNT(column)`: the non-null cells of `column`.
pub fn count_column(column: &str, alias: &str) -> (r: Aggregation)
    ensures
        r.function == AggregateFunction::Count && (r.column matches Some(c) && c@ == column@) && r.alias@ == alias@,
{
    Aggregation { function: AggregateFunction::Count, column: Some(column.to_owned()), alias: alias.to_owned() }
}

fn numeric_agg(function: AggregateFunction, column: &str, alias: &str) -> (r: Aggregation)
    ensures
        r.function == function && (r.column matches Some(c) && c@ == column@) && r.alias@ == alias@,
{
    Aggregation { function, column: Some(column.to_owned()), alias: alias.to_owned() }
}

pub fn sum(column: &str, alias: &str) -> (r: Aggregation)
    ensures
        r.function == AggregateFunction::Sum && (r.column matches Some(c) && c@ == column@) && r.alias@ == alias@,
{
    numeric_agg(AggregateFunction::Sum, column, alias)
}

pub fn avg(column: &str, alias: &str) -> (r: Aggregation)
    ensures
        r.function == AggregateFunction::Avg && (r.column matches Some(c) && c@ == column@) && r.alias@ == alias@,
{
    numeric_agg(AggregateFunction::Avg, column, alias)
}

pub fn min(column: &str, alias: &str) -> (r: Aggregation)
    ensures
        r.function == AggregateFunction::Min && (r.column matches Some(c) && c@ == column@) && r.alias@ == alias@,
{
    numeric_agg(AggregateFunction::Min, column, alias)
}

pub fn max(column: &str, alias: &str) -> (r: Aggregation)
    ensures
        r.function == AggregateFunction::Max && (r.column matches Some(c) && c@ == column@) && r.alias@ == alias@,
{
    numeric_agg(AggregateFunction::Max, column, alias)
}

/// Ascending order on `column`.
pub fn asc(column: &str) -> (r: OrderByExpr)
    ensures
        r.column@ == column@ && r.ascending,
{
    OrderByExpr { column: column.to_owned(), ascending: true }
}

/// Descending order on `column`.
pub fn desc(column: &str) -> (r: OrderByExpr)
    ensures
        r.column@ == column@ && !r.ascending,
{
    OrderByExpr { column: column.to_owned(), ascending: false }
}

} // verus!
