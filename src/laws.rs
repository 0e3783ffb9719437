use vstd::prelude::*;
use crate::batch::{
    all_names_found, batch_wf, concat_values, concat_view, resolve_names, select_view, total_rows,
    BatchView, RecordBatch,
};
use crate::column::Datum;
use crate::filter::{eval_expr, eval_predicate, filter_result, filter_view, EvalError};
use crate::logical_plan::LogicalExpr;
use crate::aggregate::{count_key, firsts, is_aggregate_of, row_keys, agg_column_ok, number_views, Number};
use crate::logical_plan::{AggregateFunction, Aggregation, LogicalPlan};
use crate::executor::{trace_ok, scan_count, ScanOutput, Trace};
use crate::types::{find_field, lemma_find_field_bounds};

verus! {

/// Every column of a well-formed batch has exactly `num_rows` cells.
pub proof fn lemma_columns_have_num_rows(b: RecordBatch)
    requires
        b.wf(),
    ensures
        forall|i: int| 0 <= i < b.columns@.len() ==> (#[trigger] b.columns@[i]).spec_len() == b.num_rows,
{
    assert forall|i: int| 0 <= i < b.columns@.len() implies (#[trigger] b.columns@[i]).spec_len() == b.num_rows by {
        assert(b@.columns[i] == b.columns@[i]@);
    }
}

/// Concatenating one batch gives that batch; concatenating two adds their row counts.
pub proof fn lemma_concat_laws(b: BatchView, b1: BatchView, b2: BatchView)
    ensures
        concat_view(seq![b]) == b,
        total_rows(seq![b1, b2]) == b1.num_rows + b2.num_rows,
{
    let s = seq![b];
    assert(s.drop_last() =~= Seq::<BatchView>::empty());
    assert(s.last() == b);
    assert(total_rows(s.drop_last()) == 0);
    assert(total_rows(s) == b.num_rows);
    assert forall|c: int| 0 <= c < b.columns.len() implies concat_values(s, c) == b.columns[c].values by {
        assert(concat_values(s.drop_last(), c) =~= Seq::<Datum>::empty());
        assert(Seq::<Datum>::empty() + b.columns[c].values =~= b.columns[c].values);
    }
    assert(concat_view(s).columns =~= b.columns);
    let t = seq![b1, b2];
    assert(t.drop_last() =~= seq![b1]);
    assert(seq![b1].drop_last() =~= Seq::<BatchView>::empty());
    assert(total_rows(seq![b1].drop_last()) == 0);
    assert(total_rows(seq![b1]) == b1.num_rows);
    assert(t.last() == b2);
}

/// The projected schema carries exactly the selected names.
proof fn lemma_selected_names(b: BatchView, names: Seq<Seq<char>>)
    requires
        all_names_found(b.schema, names),
    ensures
        forall|k: int| 0 <= k < names.len() ==> (#[trigger] select_view(b, resolve_names(b.schema, names)).schema[k]).name == names[k],
{
    assert forall|k: int| 0 <= k < names.len() implies (#[trigger] select_view(b, resolve_names(b.schema, names)).schema[k]).name == names[k] by {
        assert(find_field(b.schema, names[k]) is Some);
        lemma_find_field_bounds(b.schema, names[k]);
    }
}

/// Looking a name up in a projection finds the first selected position of that name.
proof fn lemma_find_in_selection(b: BatchView, names: Seq<Seq<char>>, n: Seq<char>)
    requires
        all_names_found(b.schema, names),
        exists|k: int| 0 <= k < names.len() && names[k] == n,
    ensures
        ({
            let s = select_view(b, resolve_names(b.schema, names));
            &&& find_field(s.schema, n) is Some
            &&& s.columns[find_field(s.schema, n)->Some_0] == b.columns[find_field(b.schema, n)->Some_0]
            &&& s.schema[find_field(s.schema, n)->Some_0] == b.schema[find_field(b.schema, n)->Some_0]
        }),
{
    let s = select_view(b, resolve_names(b.schema, names));
    lemma_selected_names(b, names);
    let k0 = choose|k: int| 0 <= k < names.len() && names[k] == n;
    lemma_find_field_bounds(s.schema, n);
    let f = find_field(s.schema, n);
    if f is None {
        assert(s.schema[k0].name == n);
    }
    let k = f->Some_0;
    assert(s.schema[k].name == n);
    assert(names[k] == n);
}

/// Selecting `names1` after selecting a superset `names2` is selecting `names1`.
pub proof fn lemma_select_select(b: BatchView, names1: Seq<Seq<char>>, names2: Seq<Seq<char>>)
    requires
        all_names_found(b.schema, names2),
        forall|i: int| 0 <= i < names1.len() ==> exists|k: int| 0 <= k < names2.len() && names2[k] == #[trigger] names1[i],
    ensures
        ({
            let s2 = select_view(b, resolve_names(b.schema, names2));
            &&& all_names_found(b.schema, names1)
            &&& all_names_found(s2.schema, names1)
            &&& select_view(s2, resolve_names(s2.schema, names1)) == select_view(b, resolve_names(b.schema, names1))
        }),
{
    let s2 = select_view(b, resolve_names(b.schema, names2));
    assert forall|i: int| 0 <= i < names1.len() implies (#[trigger] find_field(b.schema, names1[i])) is Some && find_field(s2.schema, names1[i]) is Some by {
        let k = choose|k: int| 0 <= k < names2.len() && names2[k] == names1[i];
        assert(find_field(b.schema, names2[k]) is Some);
        lemma_find_in_selection(b, names2, names1[i]);
    }
    assert forall|i: int| 0 <= i < names1.len() implies (#[trigger] find_field(s2.schema, names1[i])) is Some by {
        lemma_find_in_selection(b, names2, names1[i]);
    }
    let lhs = select_view(s2, resolve_names(s2.schema, names1));
    let rhs = select_view(b, resolve_names(b.schema, names1));
    assert forall|i: int| 0 <= i < names1.len() implies lhs.columns[i] == rhs.columns[i] && lhs.schema[i] == rhs.schema[i] by {
        lemma_find_in_selection(b, names2, names1[i]);
    }
    assert(lhs.columns =~= rhs.columns);
    assert(lhs.schema =~= rhs.schema);
    if names1.len() > 0 {
        let k = choose|k: int| 0 <= k < names2.len() && names2[k] == names1[0];
        assert(names2.len() > 0);
    }
}

/// Every column an expression names is one of `names`.
pub open spec fn expr_columns_in(e: LogicalExpr, names: Seq<Seq<char>>) -> bool
    decreases e,
{
    match e {
        LogicalExpr::Column(n) => exists|k: int| 0 <= k < names.len() && names[k] == n@,
        LogicalExpr::Literal(_) => true,
        LogicalExpr::BinaryExpr { left, right, .. } => expr_columns_in(*left, names) && expr_columns_in(*right, names),
    }
}

/// An expression that reads only selected columns evaluates alike before and after the selection.
proof fn lemma_eval_after_select(b: BatchView, names: Seq<Seq<char>>, e: LogicalExpr)
    requires
        names.len() > 0,
        all_names_found(b.schema, names),
        expr_columns_in(e, names),
    ensures
        eval_expr(select_view(b, resolve_names(b.schema, names)), e) == eval_expr(b, e),
    decreases e,
{
    match e {
        LogicalExpr::Column(n) => {
            lemma_find_in_selection(b, names, n@);
        },
        LogicalExpr::Literal(_) => {},
        LogicalExpr::BinaryExpr { left, right, .. } => {
            lemma_eval_after_select(b, names, *left);
            lemma_eval_after_select(b, names, *right);
        },
    }
}

/// Filtering commutes with a selection that keeps every column the predicate reads.
pub proof fn lemma_filter_select_commute(b: BatchView, names: Seq<Seq<char>>, p: LogicalExpr)
    requires
        batch_wf(b),
        names.len() > 0,
        all_names_found(b.schema, names),
        expr_columns_in(p, names),
    ensures
        ({
            let idx = resolve_names(b.schema, names);
            match filter_result(b, p) {
                Ok(f) => filter_result(select_view(b, idx), p) == Ok::<BatchView, EvalError>(
                    select_view(f, resolve_names(f.schema, names)),
                ),
                Err(e) => filter_result(select_view(b, idx), p) == Err::<BatchView, EvalError>(e),
            }
        }),
{
    let idx = resolve_names(b.schema, names);
    let s = select_view(b, idx);
    match p {
        LogicalExpr::BinaryExpr { .. } => {
            lemma_eval_after_select(b, names, p);
        },
        _ => {},
    }
    assert(eval_predicate(s, p) == eval_predicate(b, p));
    match eval_predicate(b, p) {
        Ok(mask) => {
            let f = filter_view(b, mask);
            let lhs = filter_view(s, mask);
            let rhs = select_view(f, resolve_names(f.schema, names));
            assert(resolve_names(f.schema, names) == idx);
            assert forall|k: int| 0 <= k < idx.len() implies 0 <= #[trigger] idx[k] < b.columns.len() by {
                assert(find_field(b.schema, names[k]) is Some);
                lemma_find_field_bounds(b.schema, names[k]);
            }
            assert(lhs.columns =~= rhs.columns);
            assert(lhs.schema =~= rhs.schema);
        },
        Err(_) => {},
    }
}

/// The group keys, in order of first occurrence.
pub open spec fn group_keys(keys: Seq<Seq<Datum>>) -> Seq<Seq<Datum>> {
    firsts(keys).map_values(|r: usize| keys[r as int])
}

/// Sum over the keys `ks` of the number of rows with that key.
pub open spec fn sum_counts(keys: Seq<Seq<Datum>>, ks: Seq<Seq<Datum>>) -> nat
    decreases ks.len(),
{
    if ks.len() == 0 {
        0
    } else {
        sum_counts(keys, ks.drop_last()) + count_key(keys, ks.last())
    }
}

/// Number of positions of `ks` holding `k`.
pub open spec fn occurrences(ks: Seq<Seq<Datum>>, k: Seq<Datum>) -> nat
    decreases ks.len(),
{
    if ks.len() == 0 {
        0
    } else {
        occurrences(ks.drop_last(), k) + if ks.last() == k { 1nat } else { 0nat }
    }
}

/// Row `j`'s key is the key of some group.
pub open spec fn has_group(keys: Seq<Seq<Datum>>, j: int) -> bool {
    exists|a: int| 0 <= a < firsts(keys).len() && keys[#[trigger] firsts(keys)[a] as int] == keys[j]
}

proof fn lemma_firsts_props(keys: Seq<Seq<Datum>>)
    requires
        keys.len() <= usize::MAX,
    ensures
        forall|a: int| 0 <= a < firsts(keys).len() ==> (#[trigger] firsts(keys)[a]) < keys.len(),
        forall|a: int, c: int| 0 <= a < firsts(keys).len() && 0 <= c < firsts(keys).len() && a != c ==>
            keys[firsts(keys)[a] as int] != keys[firsts(keys)[c] as int],
        forall|j: int| 0 <= j < keys.len() ==> #[trigger] has_group(keys, j),
    decreases keys.len(),
{
    if keys.len() > 0 {
        let init = keys.drop_last();
        lemma_firsts_props(init);
        assert(forall|j: int| 0 <= j < init.len() ==> init[j] == keys[j]);
        let f0 = firsts(init);
        if exists|j: int| 0 <= j < keys.len() - 1 && keys[j] == keys.last() {
            assert(firsts(keys) == f0);
            assert forall|j: int| 0 <= j < keys.len() implies #[trigger] has_group(keys, j) by {
                if j < keys.len() - 1 {
                    assert(init[j] == keys[j]);
                    assert(has_group(init, j));
                    let a = choose|a: int| 0 <= a < f0.len() && init[#[trigger] f0[a] as int] == init[j];
                    assert(keys[firsts(keys)[a] as int] == keys[j]);
                } else {
                    let j2 = choose|j2: int| 0 <= j2 < keys.len() - 1 && keys[j2] == keys.last();
                    assert(init[j2] == keys[j2]);
                    assert(has_group(init, j2));
                    let a = choose|a: int| 0 <= a < f0.len() && init[#[trigger] f0[a] as int] == init[j2];
                    assert(keys[firsts(keys)[a] as int] == keys[j]);
                }
            }
        } else {
            let f = firsts(keys);
            assert(f == f0.push((keys.len() - 1) as usize));
            assert forall|a: int, c: int| 0 <= a < f.len() && 0 <= c < f.len() && a != c implies
                keys[f[a] as int] != keys[f[c] as int] by {
                if a < f0.len() && c < f0.len() {
                    assert(init[f0[a] as int] != init[f0[c] as int]);
                } else if a < f0.len() {
                    assert(f0[a] < init.len());
                    assert(f[c] as int == keys.len() - 1);
                    assert(!(0 <= f0[a] < keys.len() - 1 && keys[f0[a] as int] == keys.last()));
                } else {
                    assert(f0[c] < init.len());
                    assert(f[a] as int == keys.len() - 1);
                    assert(!(0 <= f0[c] < keys.len() - 1 && keys[f0[c] as int] == keys.last()));
                }
            }
            assert forall|j: int| 0 <= j < keys.len() implies #[trigger] has_group(keys, j) by {
                if j < keys.len() - 1 {
                    assert(has_group(init, j));
                    let a = choose|a: int| 0 <= a < f0.len() && init[#[trigger] f0[a] as int] == init[j];
                    assert(f[a] == f0[a]);
                } else {
                    assert(f[f0.len() as int] as int == j);
                }
            }
        }
    }
}

proof fn lemma_sum_counts_step(keys: Seq<Seq<Datum>>, ks: Seq<Seq<Datum>>)
    requires
        keys.len() > 0,
    ensures
        sum_counts(keys, ks) == sum_counts(keys.drop_last(), ks) + occurrences(ks, keys.last()),
    decreases ks.len(),
{
    if ks.len() > 0 {
        lemma_sum_counts_step(keys, ks.drop_last());
    }
}

proof fn lemma_occurrences_distinct(ks: Seq<Seq<Datum>>, k: Seq<Datum>)
    requires
        forall|a: int, c: int| 0 <= a < ks.len() && 0 <= c < ks.len() && a != c ==> ks[a] != ks[c],
    ensures
        (exists|a: int| 0 <= a < ks.len() && ks[a] == k) ==> occurrences(ks, k) == 1,
        !(exists|a: int| 0 <= a < ks.len() && ks[a] == k) ==> occurrences(ks, k) == 0,
    decreases ks.len(),
{
    if ks.len() > 0 {
        let init = ks.drop_last();
        lemma_occurrences_distinct(init, k);
        if ks.last() == k {
            assert forall|a: int| 0 <= a < init.len() implies init[a] != k by {
                assert(ks[a] != ks[ks.len() - 1]);
            }
        } else {
            if exists|a: int| 0 <= a < ks.len() && ks[a] == k {
                let a = choose|a: int| 0 <= a < ks.len() && ks[a] == k;
                assert(init[a] == k);
            }
        }
    }
}

proof fn lemma_count_key_absent(keys: Seq<Seq<Datum>>, k: Seq<Datum>)
    requires
        forall|j: int| 0 <= j < keys.len() ==> keys[j] != k,
    ensures
        count_key(keys, k) == 0,
    decreases keys.len(),
{
    if keys.len() > 0 {
        lemma_count_key_absent(keys.drop_last(), k);
    }
}

/// Summed over the groups, the per-group row counts (`COUNT(*)`) give the input row count.
pub proof fn lemma_group_counts_sum(keys: Seq<Seq<Datum>>)
    requires
        keys.len() <= usize::MAX,
    ensures
        sum_counts(keys, group_keys(keys)) == keys.len(),
    decreases keys.len(),
{
    if keys.len() > 0 {
        let init = keys.drop_last();
        let last = keys.last();
        lemma_group_counts_sum(init);
        lemma_firsts_props(init);
        lemma_firsts_props(keys);
        let g0 = group_keys(init);
        assert(forall|j: int| 0 <= j < init.len() ==> init[j] == keys[j]);
        assert(g0 =~= firsts(init).map_values(|r: usize| keys[r as int]));
        lemma_occurrences_distinct(g0, last);
        if exists|j: int| 0 <= j < keys.len() - 1 && keys[j] == keys.last() {
            assert(group_keys(keys) == g0);
            let j = choose|j: int| 0 <= j < keys.len() - 1 && keys[j] == keys.last();
            assert(has_group(init, j));
            let a = choose|a: int| 0 <= a < firsts(init).len() && init[#[trigger] firsts(init)[a] as int] == init[j];
            assert(g0[a] == last);
            lemma_sum_counts_step(keys, g0);
        } else {
            let g = group_keys(keys);
            assert(g =~= g0.push(last));
            assert(g.drop_last() =~= g0);
            lemma_sum_counts_step(keys, g0);
            assert forall|a: int| 0 <= a < g0.len() implies g0[a] != last by {
                assert(firsts(init)[a] < init.len());
            }
            lemma_count_key_absent(init, last);
        }
    }
}

/// Sum of the Int64 cells of a column.
pub open spec fn int64_sum(vals: Seq<Datum>) -> int
    decreases vals.len(),
{
    if vals.len() == 0 {
        0
    } else {
        int64_sum(vals.drop_last()) + match vals.last() {
            Datum::Int64(x) => x as int,
            _ => 0,
        }
    }
}

proof fn lemma_count_key_bound(keys: Seq<Seq<Datum>>, k: Seq<Datum>)
    ensures
        count_key(keys, k) <= keys.len(),
    decreases keys.len(),
{
    if keys.len() > 0 {
        lemma_count_key_bound(keys.drop_last(), k);
    }
}

proof fn lemma_count_column_sum(keys: Seq<Seq<Datum>>, ks: Seq<Seq<Datum>>)
    requires
        keys.len() <= i64::MAX,
    ensures
        int64_sum(Seq::new(ks.len(), |g: int| Datum::Int64(count_key(keys, ks[g]) as i64))) == sum_counts(keys, ks),
    decreases ks.len(),
{
    if ks.len() > 0 {
        let init = ks.drop_last();
        lemma_count_column_sum(keys, init);
        let col = Seq::new(ks.len(), |g: int| Datum::Int64(count_key(keys, ks[g]) as i64));
        assert(col.drop_last() =~= Seq::new(init.len(), |g: int| Datum::Int64(count_key(keys, init[g]) as i64)));
        lemma_count_key_bound(keys, ks.last());
    }
}

/// The `COUNT(*)` column of an aggregate sums to the input row count.
pub proof fn lemma_count_star_total<F: Fn(AggregateFunction, Vec<Number>) -> Option<u64>>(
    b: BatchView,
    group_by: Seq<Seq<char>>,
    aggs: Seq<Aggregation>,
    finish: F,
    out: BatchView,
    a: int,
)
    requires
        b.num_rows <= i64::MAX,
        b.num_rows <= usize::MAX,
        0 <= a < aggs.len(),
        aggs[a].function == AggregateFunction::Count,
        aggs[a].column is None,
        is_aggregate_of(b, group_by, aggs, finish, out),
    ensures
        int64_sum(out.columns[group_by.len() + a].values) == b.num_rows,
{
    let keys = row_keys(b, resolve_names(b.schema, group_by));
    let reps = firsts(keys);
    assert(agg_column_ok(b, group_by, aggs[a], finish, out.columns[group_by.len() + a]));
    let gk = group_keys(keys);
    assert(out.columns[group_by.len() + a].values =~= Seq::new(gk.len(), |g: int| Datum::Int64(count_key(keys, gk[g]) as i64)));
    lemma_count_column_sum(keys, gk);
    lemma_group_counts_sum(keys);
}

/// `finish` gives one result for one function and one list of inputs.
pub open spec fn deterministic<F: Fn(AggregateFunction, Vec<Number>) -> Option<u64>>(finish: F) -> bool {
    forall|f: AggregateFunction, v1: Vec<Number>, v2: Vec<Number>, o1: Option<u64>, o2: Option<u64>|
        #![trigger finish.ensures((f, v1), o1), finish.ensures((f, v2), o2)]
        number_views(v1@) == number_views(v2@) && finish.ensures((f, v1), o1) && finish.ensures((f, v2), o2)
            ==> o1 == o2
}

/// With a deterministic float computation, an aggregate has one possible output.
proof fn lemma_aggregate_unique<F: Fn(AggregateFunction, Vec<Number>) -> Option<u64>>(
    b: BatchView,
    group_by: Seq<Seq<char>>,
    aggs: Seq<Aggregation>,
    finish: F,
    o1: BatchView,
    o2: BatchView,
)
    requires
        deterministic(finish),
        is_aggregate_of(b, group_by, aggs, finish, o1),
        is_aggregate_of(b, group_by, aggs, finish, o2),
    ensures
        o1 == o2,
{
    let ng = group_by.len();
    assert forall|c: int| 0 <= c < o1.columns.len() implies o1.columns[c] == o2.columns[c] by {
        if c >= ng {
            let a = c - ng;
            assert(agg_column_ok(b, group_by, aggs[a], finish, o1.columns[ng + a]));
            assert(agg_column_ok(b, group_by, aggs[a], finish, o2.columns[ng + a]));
            if aggs[a].function != AggregateFunction::Count {
                let c1 = o1.columns[c];
                let c2 = o2.columns[c];
                assert forall|g: int| 0 <= g < c1.values.len() implies c1.values[g] == c2.values[g] by {
                    let keys = row_keys(b, resolve_names(b.schema, group_by));
                    let reps = firsts(keys);
                    let inputs = crate::aggregate::numeric_inputs(keys, crate::aggregate::agg_values(b, aggs[a]), keys[reps[g] as int]);
                    assert(crate::aggregate::float_cell_ok(finish, aggs[a].function, inputs, c1.values[g]));
                    assert(crate::aggregate::float_cell_ok(finish, aggs[a].function, inputs, c2.values[g]));
                    let (v1, r1) = choose|v: Vec<Number>, o: Option<u64>| crate::aggregate::number_views(v@) == inputs
                        && #[trigger] finish.ensures((aggs[a].function, v), o) && c1.values[g] == crate::column::f64_datum(o);
                    let (v2, r2) = choose|v: Vec<Number>, o: Option<u64>| crate::aggregate::number_views(v@) == inputs
                        && #[trigger] finish.ensures((aggs[a].function, v), o) && c2.values[g] == crate::column::f64_datum(o);
                    assert(r1 == r2);
                }
                assert(c1.values =~= c2.values);
            }
        }
    }
    assert(o1.columns =~= o2.columns);
}

proof fn lemma_sort_node_unique(bs: Seq<BatchView>, order: Seq<(Seq<char>, bool)>, o1: Option<Seq<BatchView>>, o2: Option<Seq<BatchView>>)
    requires
        crate::executor::sort_node_ok(bs, order, o1),
        crate::executor::sort_node_ok(bs, order, o2),
    ensures
        o1 == o2,
{
    if bs.len() > 0 && crate::sort::order_columns_found(bs[0].schema, order) {
        let r1 = choose|r: Result<Vec<RecordBatch>, crate::error::EngineError>|
            #[trigger] crate::sort::sort_many_ok(bs, order, r) && o1 == crate::executor::result_view(r);
        let r2 = choose|r: Result<Vec<RecordBatch>, crate::error::EngineError>|
            #[trigger] crate::sort::sort_many_ok(bs, order, r) && o2 == crate::executor::result_view(r);
        if r1 is Ok && r2 is Ok {
            assert(crate::batch::batch_views(r1->Ok_0@) =~= crate::batch::batch_views(r2->Ok_0@));
        }
    }
}

proof fn lemma_aggregate_node_unique<F: Fn(AggregateFunction, Vec<Number>) -> Option<u64>>(
    bs: Seq<BatchView>,
    gb: Seq<Seq<char>>,
    aggs: Seq<Aggregation>,
    finish: F,
    input_schema: Option<Seq<crate::types::FieldView>>,
    o1: Option<Seq<BatchView>>,
    o2: Option<Seq<BatchView>>,
)
    requires
        deterministic(finish),
        crate::executor::aggregate_node_ok(bs, gb, aggs, finish, input_schema, o1),
        crate::executor::aggregate_node_ok(bs, gb, aggs, finish, input_schema, o2),
    ensures
        o1 == o2,
{
    if bs.len() > 0 && crate::aggregate::aggregate_ok(bs[0].schema, gb, aggs) {
        let r1 = choose|r: Result<Vec<RecordBatch>, crate::error::EngineError>|
            #[trigger] crate::aggregate::aggregate_many_ok(bs, gb, aggs, finish, r) && o1 == crate::executor::result_view(r);
        let r2 = choose|r: Result<Vec<RecordBatch>, crate::error::EngineError>|
            #[trigger] crate::aggregate::aggregate_many_ok(bs, gb, aggs, finish, r) && o2 == crate::executor::result_view(r);
        if r1 is Ok && r2 is Ok {
            lemma_aggregate_unique(concat_view(bs), gb, aggs, finish, r1->Ok_0@[0]@, r2->Ok_0@[0]@);
            assert(crate::batch::batch_views(r1->Ok_0@) =~= crate::batch::batch_views(r2->Ok_0@));
        }
    }
}

/// Executing a plan twice on the same scan outputs, with a deterministic
/// float computation, gives the same outcome.
pub proof fn lemma_execution_deterministic<F: Fn(AggregateFunction, Vec<Number>) -> Option<u64>>(
    p: LogicalPlan,
    t1: Trace,
    t2: Trace,
    scans: Seq<ScanOutput>,
    start: int,
    finish: F,
    o1: Option<Seq<BatchView>>,
    o2: Option<Seq<BatchView>>,
)
    requires
        deterministic(finish),
        trace_ok(p, t1, scans, start, finish, o1),
        trace_ok(p, t2, scans, start, finish, o2),
    ensures
        o1 == o2,
    decreases p,
{
    match (p, t1, t2) {
        (LogicalPlan::Scan { .. }, _, _) => {},
        (LogicalPlan::Project { input, .. }, Trace::One(tc1, c1), Trace::One(tc2, c2)) => {
            lemma_execution_deterministic(*input, *tc1, *tc2, scans, start, finish, c1, c2);
        },
        (LogicalPlan::Filter { input, .. }, Trace::One(tc1, c1), Trace::One(tc2, c2)) => {
            lemma_execution_deterministic(*input, *tc1, *tc2, scans, start, finish, c1, c2);
        },
        (LogicalPlan::Sort { input, order_by }, Trace::One(tc1, c1), Trace::One(tc2, c2)) => {
            lemma_execution_deterministic(*input, *tc1, *tc2, scans, start, finish, c1, c2);
            if let Some(bs) = c1 {
                lemma_sort_node_unique(bs, crate::sort::order_views(order_by@), o1, o2);
            }
        },
        (LogicalPlan::Aggregate { input, group_by, aggs }, Trace::One(tc1, c1), Trace::One(tc2, c2)) => {
            lemma_execution_deterministic(*input, *tc1, *tc2, scans, start, finish, c1, c2);
            if let Some(bs) = c1 {
                lemma_aggregate_node_unique(
                    bs,
                    crate::logical_plan::string_views(group_by@),
                    aggs@,
                    finish,
                    crate::executor::schema_spec(*input, scans, start),
                    o1,
                    o2,
                );
            }
        },
        (LogicalPlan::Join { left, right, .. }, Trace::Two(tl1, l1, tr1, r1), Trace::Two(tl2, l2, tr2, r2)) => {
            lemma_execution_deterministic(*left, *tl1, *tl2, scans, start, finish, l1, l2);
            if l1 is Some {
                lemma_execution_deterministic(*right, *tr1, *tr2, scans, start + scan_count(*left), finish, r1, r2);
            }
        },
        _ => {},
    }
}

proof fn lemma_drop_empty_schema(bs: Seq<BatchView>, fs: Seq<crate::types::FieldView>)
    requires
        crate::executor::all_have_schema(bs, fs),
    ensures
        crate::executor::all_have_schema(crate::executor::drop_empty(bs), fs),
    decreases bs.len(),
{
    if bs.len() > 0 {
        lemma_drop_empty_schema(bs.drop_last(), fs);
        let d = crate::executor::drop_empty(bs.drop_last());
        if bs.last().num_rows > 0 {
            assert forall|i: int| 0 <= i < d.push(bs.last()).len() implies (#[trigger] d.push(bs.last())[i]).schema == fs by {
                if i < d.len() {
                    assert(d.push(bs.last())[i] == d[i]);
                }
            }
        }
    }
}

proof fn lemma_project_schema(cbs: Seq<BatchView>, cfs: Seq<crate::types::FieldView>, names: Seq<Seq<char>>, fs: Seq<crate::types::FieldView>, bs: Seq<BatchView>)
    requires
        crate::executor::all_have_schema(cbs, cfs),
        crate::executor::project_node(cbs, names) == Some(bs),
        crate::logical_plan::project_fields(cfs, names) == Some(fs),
    ensures
        crate::executor::all_have_schema(bs, fs),
{
    if cbs.len() > 0 {
        let idx = resolve_names(cbs[0].schema, names);
        assert(cbs[0].schema == cfs);
        assert forall|i: int| 0 <= i < bs.len() implies (#[trigger] bs[i]).schema == fs by {
            assert(bs[i] == select_view(cbs[i], idx));
            assert(cbs[i].schema == cfs);
            assert(bs[i].schema =~= fs);
        }
    }
}

proof fn lemma_filter_schema(cbs: Seq<BatchView>, pred: LogicalExpr, fs: Seq<crate::types::FieldView>, bs: Seq<BatchView>)
    requires
        crate::executor::all_have_schema(cbs, fs),
        crate::executor::filter_node(cbs, pred) == Some(bs),
    ensures
        crate::executor::all_have_schema(bs, fs),
{
    let f = crate::executor::filtered_upto(cbs, pred, cbs.len() as int);
    assert forall|i: int| 0 <= i < f.len() implies (#[trigger] f[i]).schema == fs by {
        assert(cbs[i].schema == fs);
    }
    lemma_drop_empty_schema(f, fs);
}

#[verifier::rlimit(60)]
proof fn lemma_sort_schema(cbs: Seq<BatchView>, order: Seq<(Seq<char>, bool)>, fs: Seq<crate::types::FieldView>, bs: Seq<BatchView>)
    requires
        crate::executor::all_have_schema(cbs, fs),
        crate::executor::sort_node_ok(cbs, order, Some(bs)),
    ensures
        crate::executor::all_have_schema(bs, fs),
{
    if cbs.len() > 0 && crate::sort::order_columns_found(cbs[0].schema, order) {
        let r = choose|r: Result<Vec<RecordBatch>, crate::error::EngineError>|
            #[trigger] crate::sort::sort_many_ok(cbs, order, r) && Some(bs) == crate::executor::result_view(r);
        assert(cbs[0].schema == fs);
        let v = r->Ok_0;
        assert(bs == crate::batch::batch_views(v@));
        let c = concat_view(cbs);
        if c.num_rows != 0 {
            assert(v@.len() == 1);
            assert(v@[0]@.schema == c.schema);
            assert(bs[0] == v@[0]@);
        }
    }
}

/// Where a plan's schema is known without executing it, every batch its
/// execution produces has that schema.
pub proof fn lemma_schema_matches_execution<F: Fn(AggregateFunction, Vec<Number>) -> Option<u64>>(
    p: LogicalPlan,
    t: Trace,
    scans: Seq<ScanOutput>,
    start: int,
    finish: F,
    fs: Seq<crate::types::FieldView>,
    bs: Seq<BatchView>,
)
    requires
        trace_ok(p, t, scans, start, finish, Some(bs)),
        crate::executor::schema_spec(p, scans, start) == Some(fs),
    ensures
        crate::executor::all_have_schema(bs, fs),
    decreases p,
{
    match (p, t) {
        (LogicalPlan::Scan { .. }, _) => {},
        (LogicalPlan::Project { input, columns }, Trace::One(tc, c)) => {
            let cfs = crate::executor::schema_spec(*input, scans, start)->Some_0;
            lemma_schema_matches_execution(*input, *tc, scans, start, finish, cfs, c->Some_0);
            lemma_project_schema(c->Some_0, cfs, crate::logical_plan::string_views(columns@), fs, bs);
        },
        (LogicalPlan::Filter { input, predicate }, Trace::One(tc, c)) => {
            lemma_schema_matches_execution(*input, *tc, scans, start, finish, fs, c->Some_0);
            lemma_filter_schema(c->Some_0, predicate, fs, bs);
        },
        (LogicalPlan::Sort { input, order_by }, Trace::One(tc, c)) => {
            lemma_schema_matches_execution(*input, *tc, scans, start, finish, fs, c->Some_0);
            lemma_sort_schema(c->Some_0, crate::sort::order_views(order_by@), fs, bs);
        },
        _ => {},
    }
}

} // verus!
