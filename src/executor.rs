use vstd::prelude::*;
use crate::aggregate::{
    agg_fields, aggregate_many, aggregate_many_ok, aggregate_ok, check_aggregate, resolve_group_columns,
    Number,
};
use crate::batch::{
    all_names_found, batch_views, batch_wf, empty_view, resolve_names, select_view, BatchView,
    RecordBatch,
};
use crate::column::{ColumnData, ColumnView};
use crate::error::EngineError;
use crate::filter::{apply_filter, filter_result};
use crate::join::{join_result, HashJoinOperator};
use crate::logical_plan::{
    project_fields, project_schema, string_views, AggregateFunction, Aggregation, LogicalExpr,
    LogicalPlan,
};
use crate::sort::{order_columns_found, order_views, sort_many, sort_many_ok, validate_order};
use crate::types::{DataType, Field, FieldView, Schema};

verus! {

/// What reading one scanned file gives the executor: the scan's schema
/// (after column pruning) and its batches.
pub struct ScanOutput {
    pub schema: Schema,
    pub batches: Vec<RecordBatch>,
}

/// Number of scans in a plan.
pub open spec fn scan_count(p: LogicalPlan) -> nat
    decreases p,
{
    match p {
        LogicalPlan::Scan { .. } => 1,
        LogicalPlan::Project { input, .. } => scan_count(*input),
        LogicalPlan::Filter { input, .. } => scan_count(*input),
        LogicalPlan::Aggregate { input, .. } => scan_count(*input),
        LogicalPlan::Sort { input, .. } => scan_count(*input),
        LogicalPlan::Join { left, right, .. } => scan_count(*left) + scan_count(*right),
    }
}

/// The scan nodes of a plan, left to right.
pub open spec fn scan_nodes(p: LogicalPlan) -> Seq<LogicalPlan>
    decreases p,
{
    match p {
        LogicalPlan::Scan { .. } => seq![p],
        LogicalPlan::Project { input, .. } => scan_nodes(*input),
        LogicalPlan::Filter { input, .. } => scan_nodes(*input),
        LogicalPlan::Aggregate { input, .. } => scan_nodes(*input),
        LogicalPlan::Sort { input, .. } => scan_nodes(*input),
        LogicalPlan::Join { left, right, .. } => scan_nodes(*left) + scan_nodes(*right),
    }
}

pub open spec fn all_wf(bs: Seq<BatchView>) -> bool {
    forall|i: int| 0 <= i < bs.len() ==> batch_wf(#[trigger] bs[i])
}

pub open spec fn all_have_schema(bs: Seq<BatchView>, schema: Seq<FieldView>) -> bool {
    forall|i: int| 0 <= i < bs.len() ==> (#[trigger] bs[i]).schema == schema
}

/// A scan's output: its batches, when they are all well formed and have the
/// scan's schema.
pub open spec fn scan_view(o: ScanOutput) -> Option<Seq<BatchView>> {
    if all_wf(batch_views(o.batches@)) && all_have_schema(batch_views(o.batches@), o.schema@) {
        Some(batch_views(o.batches@))
    } else {
        None
    }
}

/// Project: the names are resolved against the first batch's schema and
/// selected from every batch.
pub open spec fn project_node(bs: Seq<BatchView>, names: Seq<Seq<char>>) -> Option<Seq<BatchView>> {
    if bs.len() == 0 {
        Some(Seq::empty())
    } else if !all_names_found(bs[0].schema, names) {
        None
    } else {
        let idx = resolve_names(bs[0].schema, names);
        if forall|i: int, k: int| 0 <= i < bs.len() && 0 <= k < idx.len() ==> #[trigger] idx[k] < (#[trigger] bs[i]).columns.len() {
            Some(Seq::new(bs.len(), |i: int| select_view(bs[i], idx)))
        } else {
            None
        }
    }
}

/// The batches that have rows, in order.
pub open spec fn drop_empty(bs: Seq<BatchView>) -> Seq<BatchView>
    decreases bs.len(),
{
    if bs.len() == 0 {
        Seq::empty()
    } else if bs.last().num_rows > 0 {
        drop_empty(bs.drop_last()).push(bs.last())
    } else {
        drop_empty(bs.drop_last())
    }
}

pub open spec fn filtered_upto(bs: Seq<BatchView>, pred: LogicalExpr, n: int) -> Seq<BatchView> {
    Seq::new(n as nat, |i: int| filter_result(bs[i], pred)->Ok_0)
}

/// Filter: every batch filtered; batches left without rows are dropped.
pub open spec fn filter_node(bs: Seq<BatchView>, pred: LogicalExpr) -> Option<Seq<BatchView>> {
    if forall|i: int| 0 <= i < bs.len() ==> filter_result(#[trigger] bs[i], pred) is Ok {
        Some(drop_empty(filtered_upto(bs, pred, bs.len() as int)))
    } else {
        None
    }
}

pub open spec fn result_view(r: Result<Vec<RecordBatch>, EngineError>) -> Option<Seq<BatchView>> {
    match r {
        Ok(v) => Some(batch_views(v@)),
        Err(_) => None,
    }
}

/// Sort: all rows in one batch, in key order.
pub open spec fn sort_node_ok(bs: Seq<BatchView>, order: Seq<(Seq<char>, bool)>, out: Option<Seq<BatchView>>) -> bool {
    if bs.len() == 0 {
        out == Some(Seq::<BatchView>::empty())
    } else if !order_columns_found(bs[0].schema, order) {
        out is None
    } else {
        exists|r: Result<Vec<RecordBatch>, EngineError>| #[trigger] sort_many_ok(bs, order, r) && out == result_view(r)
    }
}

/// The schema of an aggregate over no input: group fields typed Utf8, then
/// the aggregation fields.
pub open spec fn placeholder_schema(group_by: Seq<Seq<char>>, aggs: Seq<Aggregation>) -> Seq<FieldView> {
    Seq::new(group_by.len(), |k: int| FieldView { name: group_by[k], data_type: DataType::Utf8, nullable: true })
        + agg_fields(aggs)
}

/// Aggregate: one batch of groups. Over no input, one empty batch typed by
/// the input schema where it is known (an unknown column is then an error),
/// else by the placeholder schema.
pub open spec fn aggregate_node_ok<F: Fn(AggregateFunction, Vec<Number>) -> Option<u64>>(
    bs: Seq<BatchView>,
    group_by: Seq<Seq<char>>,
    aggs: Seq<Aggregation>,
    finish: F,
    input_schema: Option<Seq<FieldView>>,
    out: Option<Seq<BatchView>>,
) -> bool {
    if bs.len() == 0 {
        match input_schema {
            Some(fs) => if aggregate_ok(fs, group_by, aggs) {
                out == Some(seq![empty_view(crate::aggregate::aggregate_schema(fs, group_by, aggs))])
            } else {
                out is None
            },
            None => out == Some(seq![empty_view(placeholder_schema(group_by, aggs))]),
        }
    } else if !aggregate_ok(bs[0].schema, group_by, aggs) {
        out is None
    } else {
        exists|r: Result<Vec<RecordBatch>, EngineError>|
            #[trigger] aggregate_many_ok(bs, group_by, aggs, finish, r) && out == result_view(r)
    }
}

/// Join: nothing without left rows; the right schema comes from the right
/// batches or, when there are none, from the right plan.
pub open spec fn join_node(
    ls: Seq<BatchView>,
    rs: Seq<BatchView>,
    left_key: Seq<char>,
    right_key: Seq<char>,
    jt: crate::logical_plan::JoinType,
    right_schema: Option<Seq<FieldView>>,
) -> Option<Seq<BatchView>> {
    if ls.len() == 0 {
        Some(Seq::empty())
    } else if rs.len() > 0 {
        join_result(ls, rs, left_key, right_key, jt, rs[0].schema, ls[0].schema + rs[0].schema)
    } else {
        match right_schema {
            Some(fs) => join_result(ls, rs, left_key, right_key, jt, fs, ls[0].schema + fs),
            None => None,
        }
    }
}

/// The schema of a plan's output, where it is known without execution:
/// scans give their schema; aggregates and joins give none.
pub open spec fn schema_spec(p: LogicalPlan, scans: Seq<ScanOutput>, start: int) -> Option<Seq<FieldView>>
    decreases p,
{
    match p {
        LogicalPlan::Scan { .. } => if 0 <= start < scans.len() {
            Some(scans[start].schema@)
        } else {
            None
        },
        LogicalPlan::Project { input, columns } => match schema_spec(*input, scans, start) {
            Some(fs) => project_fields(fs, string_views(columns@)),
            None => None,
        },
        LogicalPlan::Filter { input, .. } => schema_spec(*input, scans, start),
        LogicalPlan::Sort { input, .. } => schema_spec(*input, scans, start),
        _ => None,
    }
}

/// The outcomes of the children of one execution step.
pub enum Trace {
    Leaf,
    One(Box<Trace>, Option<Seq<BatchView>>),
    Two(Box<Trace>, Option<Seq<BatchView>>, Box<Trace>, Option<Seq<BatchView>>),
}

/// `out` (`None` for a failure) is an outcome of executing `p` on the scan
/// outputs `scans[start..]`, the children's outcomes being recorded in `t`.
pub open spec fn trace_ok<F: Fn(AggregateFunction, Vec<Number>) -> Option<u64>>(
    p: LogicalPlan,
    t: Trace,
    scans: Seq<ScanOutput>,
    start: int,
    finish: F,
    out: Option<Seq<BatchView>>,
) -> bool
    decreases p,
{
    match p {
        LogicalPlan::Scan { .. } => out == (if 0 <= start < scans.len() {
            scan_view(scans[start])
        } else {
            None
        }),
        LogicalPlan::Project { input, columns } => match t {
            Trace::One(tc, c) => trace_ok(*input, *tc, scans, start, finish, c) && out == match c {
                Some(bs) => project_node(bs, string_views(columns@)),
                None => None,
            },
            _ => false,
        },
        LogicalPlan::Filter { input, predicate } => match t {
            Trace::One(tc, c) => trace_ok(*input, *tc, scans, start, finish, c) && out == match c {
                Some(bs) => filter_node(bs, predicate),
                None => None,
            },
            _ => false,
        },
        LogicalPlan::Sort { input, order_by } => match t {
            Trace::One(tc, c) => trace_ok(*input, *tc, scans, start, finish, c) && match c {
                Some(bs) => sort_node_ok(bs, order_views(order_by@), out),
                None => out is None,
            },
            _ => false,
        },
        LogicalPlan::Aggregate { input, group_by, aggs } => match t {
            Trace::One(tc, c) => trace_ok(*input, *tc, scans, start, finish, c) && match c {
                Some(bs) => aggregate_node_ok(
                    bs,
                    string_views(group_by@),
                    aggs@,
                    finish,
                    schema_spec(*input, scans, start),
                    out,
                ),
                None => out is None,
            },
            _ => false,
        },
        LogicalPlan::Join { left, right, join_type, left_key, right_key } => match t {
            Trace::Two(tl, l, tr, r) => trace_ok(*left, *tl, scans, start, finish, l) && match l {
                None => out is None,
                Some(ls) => {
                    let rstart = start + scan_count(*left);
                    trace_ok(*right, *tr, scans, rstart, finish, r) && match r {
                        None => out is None,
                        Some(rs) => out == join_node(
                            ls,
                            rs,
                            left_key@,
                            right_key@,
                            join_type,
                            schema_spec(*right, scans, rstart),
                        ),
                    }
                },
            },
            _ => false,
        },
    }
}

fn exec_project(bs: Vec<RecordBatch>, columns: &Vec<String>) -> (r: Result<Vec<RecordBatch>, EngineError>)
    requires
        all_wf(batch_views(bs@)),
    ensures
        result_view(r) == project_node(batch_views(bs@), string_views(columns@)),
        r matches Ok(v) ==> all_wf(batch_views(v@)),
{
    let ghost bv = batch_views(bs@);
    if bs.len() == 0 {
        let out: Vec<RecordBatch> = Vec::new();
        assert(batch_views(out@) =~= Seq::<BatchView>::empty());
        return Ok(out);
    }
    let idx = resolve_group_columns(&bs[0].schema, columns)?;
    let ghost ix = resolve_names(bs[0].schema@, string_views(columns@));
    let mut out: Vec<RecordBatch> = Vec::with_capacity(bs.len());
    let mut i: usize = 0;
    while i < bs.len()
        invariant
            i <= bs@.len(),
            bv == batch_views(bs@),
            all_wf(bv),
            bs@.len() > 0,
            all_names_found(bv[0].schema, string_views(columns@)),
            ix == resolve_names(bv[0].schema, string_views(columns@)),
            crate::batch::usize_ints(idx@) == ix,
            out@.len() == i,
            forall|j: int, k: int| 0 <= j < i && 0 <= k < ix.len() ==> #[trigger] ix[k] < (#[trigger] bv[j]).columns.len(),
            forall|j: int| 0 <= j < i ==> (#[trigger] out@[j]).wf() && out@[j]@ == select_view(bv[j], ix),
        decreases bs@.len() - i,
    {
        assert(bv[i as int] == bs@[i as int]@);
        assert(bs@[i as int].wf());
        let b = bs[i].select_columns(idx.as_slice());
        match b {
            Ok(b) => {
                proof {
                    assert forall|k: int| 0 <= k < ix.len() implies #[trigger] ix[k] < bv[i as int].columns.len() by {
                        assert(ix[k] == idx@[k] as int);
                    }
                }
                out.push(b);
            },
            Err(e) => {
                proof {
                    let k = choose|k: int| 0 <= k < idx@.len() && !(#[trigger] idx@[k] < bs@[i as int].columns@.len());
                    assert(ix[k] == idx@[k] as int);
                    assert(!(ix[k] < bv[i as int].columns.len()));
                }
                return Err(e);
            },
        }
        i += 1;
    }
    proof {
        assert(batch_views(out@) =~= Seq::new(bv.len(), |j: int| select_view(bv[j], ix)));
        assert forall|j: int| 0 <= j < batch_views(out@).len() implies batch_wf(#[trigger] batch_views(out@)[j]) by {
            assert(out@[j].wf());
        }
    }
    Ok(out)
}

fn exec_filter(bs: Vec<RecordBatch>, predicate: &LogicalExpr) -> (r: Result<Vec<RecordBatch>, EngineError>)
    requires
        all_wf(batch_views(bs@)),
    ensures
        result_view(r) == filter_node(batch_views(bs@), *predicate),
        r matches Ok(v) ==> all_wf(batch_views(v@)),
{
    let ghost bv = batch_views(bs@);
    let mut out: Vec<RecordBatch> = Vec::new();
    let mut i: usize = 0;
    while i < bs.len()
        invariant
            i <= bs@.len(),
            bv == batch_views(bs@),
            all_wf(bv),
            forall|j: int| 0 <= j < i ==> filter_result(#[trigger] bv[j], *predicate) is Ok,
            batch_views(out@) == drop_empty(filtered_upto(bv, *predicate, i as int)),
            forall|j: int| 0 <= j < out@.len() ==> (#[trigger] out@[j]).wf(),
        decreases bs@.len() - i,
    {
        assert(bv[i as int] == bs@[i as int]@);
        assert(batch_wf(bv[i as int]));
        let f = apply_filter(&bs[i], predicate);
        match f {
            Ok(b) => {
                let ghost prev = filtered_upto(bv, *predicate, i as int);
                let ghost next = filtered_upto(bv, *predicate, i + 1);
                assert(next.drop_last() =~= prev);
                assert(next.last() == b@);
                if b.num_rows > 0 {
                    let ghost before = out@;
                    out.push(b);
                    assert(batch_views(out@) =~= batch_views(before).push(next.last()));
                }
            },
            Err(e) => {
                return Err(e);
            },
        }
        i += 1;
    }
    proof {
        assert forall|j: int| 0 <= j < batch_views(out@).len() implies batch_wf(#[trigger] batch_views(out@)[j]) by {
            assert(out@[j].wf());
        }
    }
    Ok(out)
}

fn exec_sort(bs: Vec<RecordBatch>, order_by: &Vec<crate::logical_plan::OrderByExpr>) -> (r: Result<Vec<RecordBatch>, EngineError>)
    requires
        all_wf(batch_views(bs@)),
    ensures
        sort_node_ok(batch_views(bs@), order_views(order_by@), result_view(r)),
        r matches Ok(v) ==> all_wf(batch_views(v@)),
{
    let ghost bv = batch_views(bs@);
    if bs.len() == 0 {
        let out: Vec<RecordBatch> = Vec::new();
        assert(batch_views(out@) =~= Seq::<BatchView>::empty());
        return Ok(out);
    }
    validate_order(&bs[0].schema, order_by)?;
    proof {
        assert forall|j: int| 0 <= j < bs@.len() implies (#[trigger] bs@[j]).wf() by {
            assert(bv[j] == bs@[j]@);
        }
    }
    let r = sort_many(bs.as_slice(), order_by);
    proof {
        assert(sort_many_ok(bv, order_views(order_by@), r));
        if r is Ok {
            assert forall|j: int| 0 <= j < batch_views(r->Ok_0@).len() implies batch_wf(#[trigger] batch_views(r->Ok_0@)[j]) by {
                assert(r->Ok_0@[j].wf());
            }
        }
    }
    r
}

/// The schema of an aggregate over no input whose input schema is unknown.
fn placeholder(group_by: &Vec<String>, aggs: &Vec<Aggregation>) -> (r: Schema)
    ensures
        r@ == placeholder_schema(string_views(group_by@), aggs@),
{
    let mut fields: Vec<Field> = Vec::new();
    let mut k: usize = 0;
    while k < group_by.len()
        invariant
            k <= group_by@.len(),
            fields@.len() == k,
            forall|j: int| 0 <= j < k ==> (#[trigger] fields@[j])@ == placeholder_schema(string_views(group_by@), aggs@)[j],
        decreases group_by@.len() - k,
    {
        fields.push(Field { name: group_by[k].clone(), data_type: DataType::Utf8, nullable: true });
        k += 1;
    }
    let mut a: usize = 0;
    while a < aggs.len()
        invariant
            a <= aggs@.len(),
            fields@.len() == group_by@.len() + a,
            forall|j: int| 0 <= j < group_by@.len() + a ==> (#[trigger] fields@[j])@ == placeholder_schema(string_views(group_by@), aggs@)[j],
        decreases aggs@.len() - a,
    {
        let t = if aggs[a].function == AggregateFunction::Count {
            DataType::Int64
        } else {
            DataType::Float64
        };
        fields.push(Field { name: aggs[a].alias.clone(), data_type: t, nullable: true });
        a += 1;
    }
    let schema = Schema { fields };
    assert(schema@ =~= placeholder_schema(string_views(group_by@), aggs@));
    schema
}

fn exec_aggregate<F: Fn(AggregateFunction, Vec<Number>) -> Option<u64>>(
    bs: Vec<RecordBatch>,
    group_by: &Vec<String>,
    aggs: &Vec<Aggregation>,
    finish: &F,
    input_schema: Result<Schema, EngineError>,
) -> (r: Result<Vec<RecordBatch>, EngineError>)
    requires
        all_wf(batch_views(bs@)),
        forall|f: AggregateFunction, v: Vec<Number>| #[trigger] finish.requires((f, v)),
    ensures
        aggregate_node_ok(
            batch_views(bs@),
            string_views(group_by@),
            aggs@,
            *finish,
            match input_schema {
                Ok(s) => Some(s@),
                Err(_) => None,
            },
            result_view(r),
        ),
        r matches Ok(v) ==> all_wf(batch_views(v@)),
{
    let ghost bv = batch_views(bs@);
    if bs.len() == 0 {
        let schema = match input_schema {
            Ok(s) => crate::aggregate::output_schema(&s, group_by, aggs)?,
            Err(_) => placeholder(group_by, aggs),
        };
        let mut out: Vec<RecordBatch> = Vec::new();
        out.push(RecordBatch::empty_of(&schema));
        assert(batch_views(out@) =~= seq![empty_view(schema@)]);
        return Ok(out);
    }
    check_aggregate(&bs[0].schema, group_by, aggs)?;
    proof {
        assert forall|j: int| 0 <= j < bs@.len() implies (#[trigger] bs@[j]).wf() by {
            assert(bv[j] == bs@[j]@);
        }
    }
    let r = aggregate_many(bs.as_slice(), group_by, aggs, finish);
    proof {
        if r is Ok {
            assert forall|j: int| 0 <= j < batch_views(r->Ok_0@).len() implies batch_wf(#[trigger] batch_views(r->Ok_0@)[j]) by {
                assert(r->Ok_0@[j].wf());
            }
        }
    }
    r
}

/// Executes logical plans bottom-up over batches that the scans produced.
pub struct Executor;

impl Executor {
    pub fn new() -> (r: Executor) {
        Executor
    }

    /// The output schema of a plan, from the scan schemas where needed.
    pub fn get_schema(&self, plan: &LogicalPlan, scans: &Vec<ScanOutput>, start: usize) -> (r: Result<Schema, EngineError>)
        ensures
            match schema_spec(*plan, scans@, start as int) {
                Some(fs) => r matches Ok(s) && s@ == fs,
                None => r is Err,
            },
        decreases plan,
    {
        match plan {
            LogicalPlan::Scan { .. } => {
                if start < scans.len() {
                    Ok(scans[start].schema.copy())
                } else {
                    Err(EngineError::SchemaUnavailable)
                }
            },
            LogicalPlan::Project { input, columns } => {
                let s = self.get_schema(input, scans, start)?;
                project_schema(&s, columns)
            },
            LogicalPlan::Filter { input, .. } => self.get_schema(input, scans, start),
            LogicalPlan::Sort { input, .. } => self.get_schema(input, scans, start),
            _ => Err(EngineError::SchemaUnavailable),
        }
    }

    /// Executes `plan`; `scans` holds the output of each scan of the plan, in
    /// plan order (see `scan_requests`), and `finish` computes the float
    /// aggregates (SUM, AVG, MIN, MAX) of a group from its numeric inputs.
    pub fn execute<F: Fn(AggregateFunction, Vec<Number>) -> Option<u64>>(
        &self,
        plan: &LogicalPlan,
        scans: &Vec<ScanOutput>,
        finish: &F,
    ) -> (r: Result<Vec<RecordBatch>, EngineError>)
        requires
            forall|f: AggregateFunction, v: Vec<Number>| #[trigger] finish.requires((f, v)),
        ensures
            exists|t: Trace| trace_ok(*plan, t, scans@, 0, *finish, result_view(r)),
            r matches Ok(v) ==> all_wf(batch_views(v@)),
    {
        let mut pos: usize = 0;
        self.execute_from(plan, scans, &mut pos, finish)
    }

    fn execute_from<F: Fn(AggregateFunction, Vec<Number>) -> Option<u64>>(
        &self,
        plan: &LogicalPlan,
        scans: &Vec<ScanOutput>,
        pos: &mut usize,
        finish: &F,
    ) -> (r: Result<Vec<RecordBatch>, EngineError>)
        requires
            forall|f: AggregateFunction, v: Vec<Number>| #[trigger] finish.requires((f, v)),
            *old(pos) <= scans@.len(),
        ensures
            exists|t: Trace| trace_ok(*plan, t, scans@, *old(pos) as int, *finish, result_view(r)),
            r matches Ok(v) ==> all_wf(batch_views(v@)) && *final(pos) == *old(pos) + scan_count(*plan)
                && *final(pos) <= scans@.len(),
        decreases plan,
    {
        let ghost start = *pos as int;
        let start_pos = *pos;
        match plan {
            LogicalPlan::Scan { .. } => {
                if *pos >= scans.len() {
                    let r: Result<Vec<RecordBatch>, EngineError> = Err(EngineError::EmptyInput);
                    assert(trace_ok(*plan, Trace::Leaf, scans@, start, *finish, result_view(r)));
                    return r;
                }
                let o = &scans[*pos];
                let mut out: Vec<RecordBatch> = Vec::with_capacity(o.batches.len());
                let mut i: usize = 0;
                while i < o.batches.len()
                    invariant
                        i <= o.batches@.len(),
                        0 <= start < scans@.len(),
                        *plan is Scan,
                        start == *old(pos) as int,
                        *o == scans@[start],
                        out@.len() == i,
                        forall|j: int| 0 <= j < i ==> (#[trigger] out@[j])@ == o.batches@[j]@ && out@[j].wf()
                            && out@[j]@.schema == o.schema@,
                    decreases o.batches@.len() - i,
                {
                    if !o.batches[i].validate() || !o.batches[i].schema.same_as(&o.schema) {
                        let r: Result<Vec<RecordBatch>, EngineError> = Err(EngineError::SchemaMismatch);
                        proof {
                            assert(!batch_wf(batch_views(o.batches@)[i as int])
                                || batch_views(o.batches@)[i as int].schema != o.schema@);
                            assert(scan_view(scans@[start]) is None);
                            assert(trace_ok(*plan, Trace::Leaf, scans@, start, *finish, result_view(r)));
                        }
                        return r;
                    }
                    out.push(copy_batch(&o.batches[i]));
                    i += 1;
                }
                *pos = *pos + 1;
                let r: Result<Vec<RecordBatch>, EngineError> = Ok(out);
                proof {
                    assert(batch_views(out@) =~= batch_views(o.batches@));
                    assert forall|j: int| 0 <= j < batch_views(out@).len() implies batch_wf(#[trigger] batch_views(out@)[j]) by {
                        assert(out@[j].wf());
                    }
                    assert forall|j: int| 0 <= j < batch_views(o.batches@).len() implies (#[trigger] batch_views(o.batches@)[j]).schema == o.schema@ by {
                        assert(out@[j]@.schema == o.schema@);
                    }
                    assert(trace_ok(*plan, Trace::Leaf, scans@, start, *finish, result_view(r)));
                }
                r
            },
            LogicalPlan::Project { input, columns } => {
                let c = self.execute_from(input, scans, pos, finish);
                let ghost cv = result_view(c);
                let ghost tc = choose|t: Trace| trace_ok(**input, t, scans@, start, *finish, cv);
                let r = match c {
                    Ok(bs) => exec_project(bs, columns),
                    Err(e) => Err(e),
                };
                assert(trace_ok(*plan, Trace::One(Box::new(tc), cv), scans@, start, *finish, result_view(r)));
                r
            },
            LogicalPlan::Filter { input, predicate } => {
                let c = self.execute_from(input, scans, pos, finish);
                let ghost cv = result_view(c);
                let ghost tc = choose|t: Trace| trace_ok(**input, t, scans@, start, *finish, cv);
                let r = match c {
                    Ok(bs) => exec_filter(bs, predicate),
                    Err(e) => Err(e),
                };
                assert(trace_ok(*plan, Trace::One(Box::new(tc), cv), scans@, start, *finish, result_view(r)));
                r
            },
            LogicalPlan::Sort { input, order_by } => {
                let c = self.execute_from(input, scans, pos, finish);
                let ghost cv = result_view(c);
                let ghost tc = choose|t: Trace| trace_ok(**input, t, scans@, start, *finish, cv);
                let r = match c {
                    Ok(bs) => exec_sort(bs, order_by),
                    Err(e) => Err(e),
                };
                assert(trace_ok(*plan, Trace::One(Box::new(tc), cv), scans@, start, *finish, result_view(r)));
                r
            },
            LogicalPlan::Aggregate { input, group_by, aggs } => {
                let c = self.execute_from(input, scans, pos, finish);
                let ghost cv = result_view(c);
                let ghost tc = choose|t: Trace| trace_ok(**input, t, scans@, start, *finish, cv);
                let r = match c {
                    Ok(bs) => {
                        let input_schema = if bs.len() == 0 {
                            self.get_schema(input, scans, start_pos)
                        } else {
                            Err(EngineError::SchemaUnavailable)
                        };
                        exec_aggregate(bs, group_by, aggs, finish, input_schema)
                    },
                    Err(e) => Err(e),
                };
                assert(trace_ok(*plan, Trace::One(Box::new(tc), cv), scans@, start, *finish, result_view(r)));
                r
            },
            LogicalPlan::Join { left, right, join_type, left_key, right_key } => {
                let lres = self.execute_from(left, scans, pos, finish);
                let ghost lv = result_view(lres);
                let ghost tl = choose|t: Trace| trace_ok(**left, t, scans@, start, *finish, lv);
                let ls = match lres {
                    Ok(ls) => ls,
                    Err(e) => {
                        let r: Result<Vec<RecordBatch>, EngineError> = Err(e);
                        assert(trace_ok(*plan, Trace::Two(Box::new(tl), lv, Box::new(tl), None), scans@, start, *finish, result_view(r)));
                        return r;
                    },
                };
                let rpos = *pos;
                let ghost rstart = rpos as int;
                let rres = self.execute_from(right, scans, pos, finish);
                let ghost rv = result_view(rres);
                let ghost tr = choose|t: Trace| trace_ok(**right, t, scans@, rstart, *finish, rv);
                let rs = match rres {
                    Ok(rs) => rs,
                    Err(e) => {
                        let r: Result<Vec<RecordBatch>, EngineError> = Err(e);
                        assert(trace_ok(*plan, Trace::Two(Box::new(tl), lv, Box::new(tr), rv), scans@, start, *finish, result_view(r)));
                        return r;
                    },
                };
                let r = self.exec_join(ls, rs, left_key, right_key, *join_type, right, scans, rpos);
                assert(trace_ok(*plan, Trace::Two(Box::new(tl), lv, Box::new(tr), rv), scans@, start, *finish, result_view(r)));
                r
            },
        }
    }

    fn exec_join(
        &self,
        ls: Vec<RecordBatch>,
        rs: Vec<RecordBatch>,
        left_key: &String,
        right_key: &String,
        join_type: crate::logical_plan::JoinType,
        right: &LogicalPlan,
        scans: &Vec<ScanOutput>,
        rstart: usize,
    ) -> (r: Result<Vec<RecordBatch>, EngineError>)
        requires
            all_wf(batch_views(ls@)),
            all_wf(batch_views(rs@)),
        ensures
            result_view(r) == join_node(
                batch_views(ls@),
                batch_views(rs@),
                left_key@,
                right_key@,
                join_type,
                schema_spec(*right, scans@, rstart as int),
            ),
            r matches Ok(v) ==> all_wf(batch_views(v@)),
    {
        if ls.len() == 0 {
            let out: Vec<RecordBatch> = Vec::new();
            assert(batch_views(out@) =~= Seq::<BatchView>::empty());
            return Ok(out);
        }
        let right_schema = if rs.len() > 0 {
            rs[0].schema.copy()
        } else {
            self.get_schema(right, scans, rstart)?
        };
        let op = HashJoinOperator::new(left_key.clone(), right_key.clone(), join_type, ls[0].schema.copy(), right_schema)?;
        proof {
            assert forall|j: int| 0 <= j < ls@.len() implies (#[trigger] ls@[j]).wf() by {
                assert(batch_views(ls@)[j] == ls@[j]@);
            }
            assert forall|j: int| 0 <= j < rs@.len() implies (#[trigger] rs@[j]).wf() by {
                assert(batch_views(rs@)[j] == rs@[j]@);
            }
        }
        let r = op.execute_join(ls.as_slice(), rs.as_slice());
        proof {
            if r is Ok {
                assert forall|j: int| 0 <= j < batch_views(r->Ok_0@).len() implies batch_wf(#[trigger] batch_views(r->Ok_0@)[j]) by {
                    assert(r->Ok_0@[j].wf());
                }
            }
        }
        r
    }
}

/// An exact copy of a batch.
fn copy_batch(b: &RecordBatch) -> (r: RecordBatch)
    ensures
        r@ == b@,
{
    let mut columns: Vec<ColumnData> = Vec::with_capacity(b.columns.len());
    let mut i: usize = 0;
    while i < b.columns.len()
        invariant
            i <= b.columns@.len(),
            columns@.len() == i,
            forall|j: int| 0 <= j < i ==> (#[trigger] columns@[j])@ == b.columns@[j]@,
        decreases b.columns@.len() - i,
    {
        columns.push(b.columns[i].copy());
        i += 1;
    }
    let r = RecordBatch { schema: b.schema.copy(), columns, num_rows: b.num_rows };
    assert(r@.columns =~= b@.columns);
    r
}

} // verus!
