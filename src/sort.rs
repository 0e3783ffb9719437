use vstd::prelude::*;
use vstd::utf8::encode_utf8;
use std::sync::Arc;
use arrow::array::{ArrayRef, BooleanArray, Int64Array, LargeStringArray};
use arrow_ord::sort::{lexsort_to_indices, SortColumn, SortOptions};
use crate::batch::{batch_views, batch_wf, concat_view, same_schemas, total_rows, BatchView, RecordBatch};
use crate::column::{ColumnData, ColumnView, Datum, take_seq};
use crate::error::EngineError;
use crate::filter::{bytes_lt, float_key, float_order_key};
use crate::logical_plan::OrderByExpr;
use crate::types::{find_field, lemma_find_field_bounds, FieldView, Schema};

verus! {

/// A sort key cell: integers (and floats, by their totalOrder position),
/// UTF-8 bytes, or booleans.
pub enum KeyCell {
    Null,
    Int(int),
    Bytes(Seq<u8>),
    Bool(bool),
}

/// The sort key of a cell.
pub open spec fn datum_key(d: Datum) -> KeyCell {
    match d {
        Datum::Null => KeyCell::Null,
        Datum::Int32(x) => KeyCell::Int(x as int),
        Datum::Int64(x) => KeyCell::Int(x as int),
        Datum::Float64(b) => KeyCell::Int(float_key(b)),
        Datum::Utf8(s) => KeyCell::Bytes(encode_utf8(s)),
        Datum::Boolean(b) => KeyCell::Bool(b),
    }
}

/// Ascending comparison of two non-null key cells of one kind: -1, 0 or 1.
pub open spec fn value_cmp(a: KeyCell, b: KeyCell) -> int {
    match (a, b) {
        (KeyCell::Int(x), KeyCell::Int(y)) => if x < y { -1 } else if x == y { 0 } else { 1 },
        (KeyCell::Bytes(x), KeyCell::Bytes(y)) => if bytes_lt(x, y) { -1 } else if x == y { 0 } else { 1 },
        (KeyCell::Bool(x), KeyCell::Bool(y)) => if !x && y { -1 } else if x == y { 0 } else { 1 },
        _ => 0,
    }
}

/// Comparison of two cells of one key: nulls before or after all values,
/// values reversed when descending.
pub open spec fn cell_cmp(a: KeyCell, b: KeyCell, descending: bool, nulls_first: bool) -> int {
    if a is Null && b is Null {
        0
    } else if a is Null {
        if nulls_first { -1 } else { 1 }
    } else if b is Null {
        if nulls_first { 1 } else { -1 }
    } else if descending {
        -value_cmp(a, b)
    } else {
        value_cmp(a, b)
    }
}

/// A sort key as a mathematical value.
pub struct KeyView {
    pub cells: Seq<KeyCell>,
    pub descending: bool,
    pub nulls_first: bool,
}

/// Lexicographic comparison of rows `i` and `j` over the keys `keys[from..]`.
pub open spec fn rows_cmp(keys: Seq<KeyView>, from: int, i: int, j: int) -> int
    decreases keys.len() - from,
{
    if from < 0 || from >= keys.len() {
        0
    } else {
        let c = cell_cmp(keys[from].cells[i], keys[from].cells[j], keys[from].descending, keys[from].nulls_first);
        if c != 0 {
            c
        } else {
            rows_cmp(keys, from + 1, i, j)
        }
    }
}

/// `p` lists each of `0..n` exactly once.
pub open spec fn is_permutation(p: Seq<usize>, n: nat) -> bool {
    &&& p.len() == n
    &&& forall|k: int| 0 <= k < n ==> #[trigger] p[k] < n
    &&& forall|a: int, b: int| 0 <= a < b < n ==> p[a] != p[b]
}

/// Rows taken in the order `p` are in key order.
pub open spec fn sorted_by(keys: Seq<KeyView>, p: Seq<usize>) -> bool {
    forall|k: int| 0 <= k < p.len() - 1 ==> rows_cmp(keys, 0, #[trigger] p[k] as int, p[k + 1] as int) <= 0
}

/// The values of a sort key column as arrow's sort kernel takes them.
pub enum SortKeyValues {
    Int(Vec<Option<i64>>),
    Utf8(Vec<Option<String>>),
    Boolean(Vec<Option<bool>>),
}

pub struct SortKey {
    pub values: SortKeyValues,
    pub descending: bool,
    pub nulls_first: bool,
}

impl SortKey {
    pub open spec fn view(&self) -> KeyView {
        KeyView {
            cells: match self.values {
                SortKeyValues::Int(v) => v@.map_values(
                    |o: Option<i64>|
                        match o {
                            Some(x) => KeyCell::Int(x as int),
                            None => KeyCell::Null,
                        },
                ),
                SortKeyValues::Utf8(v) => v@.map_values(
                    |o: Option<String>|
                        match o {
                            Some(s) => KeyCell::Bytes(encode_utf8(s@)),
                            None => KeyCell::Null,
                        },
                ),
                SortKeyValues::Boolean(v) => v@.map_values(
                    |o: Option<bool>|
                        match o {
                            Some(x) => KeyCell::Bool(x),
                            None => KeyCell::Null,
                        },
                ),
            },
            descending: self.descending,
            nulls_first: self.nulls_first,
        }
    }
}

pub open spec fn key_views(keys: Seq<SortKey>) -> Seq<KeyView> {
    keys.map_values(|k: SortKey| k.view())
}

/// The row order arrow's lexicographic sort gives for these keys.
pub uninterp spec fn lexsort_order(keys: Seq<KeyView>) -> Seq<usize>;

/// Relies on arrow_ord::sort::lexsort_to_indices, with each key's direction
/// and null placement: the result, a function of the keys, lists every row
/// once, in lexicographic key order. String keys go in as `LargeUtf8`, whose
/// 64-bit offsets hold any column that fits in memory.
#[verifier::external_body]
fn lexsort_indices(keys: &Vec<SortKey>, n: usize) -> (r: Vec<usize>)
    requires
        keys@.len() > 0,
        n <= u32::MAX,
        forall|k: int| 0 <= k < keys@.len() ==> (#[trigger] keys@[k]).view().cells.len() == n,
    ensures
        r@ == lexsort_order(key_views(keys@)),
        is_permutation(r@, n as nat),
        sorted_by(key_views(keys@), r@),
{
    let columns: Vec<SortColumn> = keys.iter().map(|k| SortColumn {
        values: match &k.values {
            SortKeyValues::Int(v) => Arc::new(Int64Array::from(v.clone())) as ArrayRef,
            SortKeyValues::Utf8(v) => Arc::new(LargeStringArray::from(v.clone())),
            SortKeyValues::Boolean(v) => Arc::new(BooleanArray::from(v.clone())),
        },
        options: Some(SortOptions { descending: k.descending, nulls_first: k.nulls_first }),
    }).collect();
    let indices = lexsort_to_indices(&columns, None).unwrap();
    indices.values().iter().map(|i| *i as usize).collect()
}

pub open spec fn cell_keys(values: Seq<Datum>) -> Seq<KeyCell> {
    values.map_values(|d: Datum| datum_key(d))
}

/// The sort key made from a column.
fn key_of(c: &ColumnData, descending: bool, nulls_first: bool) -> (r: SortKey)
    ensures
        r.view() == (KeyView { cells: cell_keys(c.values()), descending, nulls_first }),
{
    let r = match c {
        ColumnData::Int32(v) => {
            let mut out: Vec<Option<i64>> = Vec::with_capacity(v.len());
            let mut i: usize = 0;
            while i < v.len()
                invariant
                    i <= v@.len(),
                    out@.len() == i,
                    forall|k: int| 0 <= k < i ==> #[trigger] out@[k] == match v@[k] {
                        Some(x) => Some(x as i64),
                        None => None::<i64>,
                    },
                decreases v@.len() - i,
            {
                out.push(match v[i] {
                    Some(x) => Some(x as i64),
                    None => None,
                });
                i += 1;
            }
            SortKey { values: SortKeyValues::Int(out), descending, nulls_first }
        },
        ColumnData::Int64(v) => {
            let mut out: Vec<Option<i64>> = Vec::with_capacity(v.len());
            let mut i: usize = 0;
            while i < v.len()
                invariant
                    i <= v@.len(),
                    out@.len() == i,
                    forall|k: int| 0 <= k < i ==> #[trigger] out@[k] == v@[k],
                decreases v@.len() - i,
            {
                out.push(v[i]);
                i += 1;
            }
            SortKey { values: SortKeyValues::Int(out), descending, nulls_first }
        },
        ColumnData::Float64(v) => {
            let mut out: Vec<Option<i64>> = Vec::with_capacity(v.len());
            let mut i: usize = 0;
            while i < v.len()
                invariant
                    i <= v@.len(),
                    out@.len() == i,
                    forall|k: int| 0 <= k < i ==> #[trigger] out@[k] == match v@[k] {
                        Some(b) => Some(float_key(b) as i64),
                        None => None::<i64>,
                    },
                    forall|k: int| 0 <= k < i ==> (#[trigger] v@[k] matches Some(b) ==> out@[k]->Some_0 as int == float_key(b)),
                decreases v@.len() - i,
            {
                out.push(match v[i] {
                    Some(b) => Some(float_order_key(b)),
                    None => None,
                });
                i += 1;
            }
            SortKey { values: SortKeyValues::Int(out), descending, nulls_first }
        },
        ColumnData::Utf8(v) => {
            let mut out: Vec<Option<String>> = Vec::with_capacity(v.len());
            let mut i: usize = 0;
            while i < v.len()
                invariant
                    i <= v@.len(),
                    out@.len() == i,
                    forall|k: int| 0 <= k < i ==> #[trigger] out@[k] == v@[k],
                decreases v@.len() - i,
            {
                out.push(match &v[i] {
                    Some(s) => Some(s.clone()),
                    None => None,
                });
                i += 1;
            }
            SortKey { values: SortKeyValues::Utf8(out), descending, nulls_first }
        },
        ColumnData::Boolean(v) => {
            let mut out: Vec<Option<bool>> = Vec::with_capacity(v.len());
            let mut i: usize = 0;
            while i < v.len()
                invariant
                    i <= v@.len(),
                    out@.len() == i,
                    forall|k: int| 0 <= k < i ==> #[trigger] out@[k] == v@[k],
                decreases v@.len() - i,
            {
                out.push(v[i]);
                i += 1;
            }
            SortKey { values: SortKeyValues::Boolean(out), descending, nulls_first }
        },
    };
    assert(r.view().cells =~= cell_keys(c.values()));
    r
}

pub open spec fn order_views(order: Seq<OrderByExpr>) -> Seq<(Seq<char>, bool)> {
    order.map_values(|o: OrderByExpr| (o.column@, !o.ascending))
}

/// Whether every ORDER BY column is in the schema.
pub open spec fn order_columns_found(schema: Seq<FieldView>, order: Seq<(Seq<char>, bool)>) -> bool {
    forall|k: int| 0 <= k < order.len() ==> (#[trigger] find_field(schema, order[k].0)) is Some
}

/// The sort keys of a batch for an ORDER BY list.
pub open spec fn order_keys(b: BatchView, order: Seq<(Seq<char>, bool)>) -> Seq<KeyView> {
    Seq::new(
        order.len(),
        |k: int|
            KeyView {
                cells: cell_keys(b.columns[find_field(b.schema, order[k].0)->Some_0].values),
                descending: order[k].1,
                nulls_first: true,
            },
    )
}

/// The rows of `b` in the order `p`.
pub open spec fn take_rows(b: BatchView, p: Seq<usize>) -> BatchView {
    BatchView {
        schema: b.schema,
        columns: Seq::new(
            b.columns.len(),
            |c: int| ColumnView { data_type: b.columns[c].data_type, values: take_seq(b.columns[c].values, p) },
        ),
        num_rows: p.len(),
    }
}

/// The order in which sorting puts the rows of `b`: arrow's lexicographic
/// order, or the rows as they are when there is nothing to sort.
pub open spec fn sort_order(b: BatchView, order: Seq<(Seq<char>, bool)>) -> Seq<usize> {
    if b.num_rows == 0 || order.len() == 0 {
        Seq::new(b.num_rows, |i: int| i as usize)
    } else {
        lexsort_order(order_keys(b, order))
    }
}

/// `out` holds the rows of `input`, each once, in key order.
#[verifier::opaque]
pub open spec fn is_sorted_result(input: BatchView, order: Seq<(Seq<char>, bool)>, out: BatchView) -> bool {
    exists|p: Seq<usize>|
        is_permutation(p, input.num_rows) && out == take_rows(input, p) && (order_columns_found(
            input.schema,
            order,
        ) ==> sorted_by(order_keys(input, order), p))
}

fn identity(n: usize) -> (r: Vec<usize>)
    ensures
        r@ == Seq::new(n as nat, |i: int| i as usize),
{
    let mut r: Vec<usize> = Vec::with_capacity(n);
    let mut i: usize = 0;
    while i < n
        invariant
            i <= n,
            r@ =~= Seq::new(i as nat, |k: int| k as usize),
        decreases n - i,
    {
        r.push(i);
        i += 1;
    }
    r
}

/// The batch with its rows in the order `idx`.
pub fn take_batch(batch: &RecordBatch, idx: &Vec<usize>) -> (r: RecordBatch)
    requires
        batch.wf(),
        forall|k: int| 0 <= k < idx@.len() ==> #[trigger] idx@[k] < batch.num_rows,
        batch.columns@.len() == 0 ==> idx@.len() == 0,
    ensures
        r.wf(),
        r@ == take_rows(batch@, idx@),
{
    let mut columns: Vec<ColumnData> = Vec::with_capacity(batch.columns.len());
    let mut c: usize = 0;
    while c < batch.columns.len()
        invariant
            c <= batch.columns@.len(),
            batch.wf(),
            forall|k: int| 0 <= k < idx@.len() ==> #[trigger] idx@[k] < batch.num_rows,
            batch.columns@.len() == 0 ==> idx@.len() == 0,
            columns@.len() == c,
            forall|j: int| 0 <= j < c ==> (#[trigger] columns@[j])@ == (ColumnView {
                data_type: batch@.columns[j].data_type,
                values: take_seq(batch@.columns[j].values, idx@),
            }),
        decreases batch.columns@.len() - c,
    {
        assert(batch@.columns[c as int] == batch.columns@[c as int]@);
        columns.push(batch.columns[c].take(idx));
        c += 1;
    }
    let r = RecordBatch { schema: batch.schema.copy(), columns, num_rows: idx.len() };
    assert(r@.columns =~= take_rows(batch@, idx@).columns);
    r
}

/// Sorts one batch by the ORDER BY list (nulls first in every key).
#[verifier::rlimit(40)]
pub fn sort_batch(batch: &RecordBatch, order_by: &Vec<OrderByExpr>) -> (r: Result<RecordBatch, EngineError>)
    requires
        batch.wf(),
    ensures
        r is Ok <==> batch.num_rows == 0 || order_by@.len() == 0 || (order_columns_found(
            batch.schema@,
            order_views(order_by@),
        ) && batch.num_rows <= u32::MAX),
        r matches Ok(b) ==> b.wf() && is_sorted_result(batch@, order_views(order_by@), b@) && b@ == take_rows(
            batch@,
            sort_order(batch@, order_views(order_by@)),
        ),
        r matches Err(e) ==> (e is UnknownColumn && !order_columns_found(batch.schema@, order_views(order_by@)))
            || (e is OutOfRange && batch.num_rows > u32::MAX),
{
    reveal(is_sorted_result);
    let ghost ov = order_views(order_by@);
    let n = batch.num_rows;
    if n == 0 || order_by.len() == 0 {
        let idx = identity(n);
        proof {
            assert(batch.columns@.len() == 0 ==> n == 0);
        }
        let out = take_batch(batch, &idx);
        proof {
            assert(idx@ == sort_order(batch@, ov));
            assert(is_permutation(idx@, n as nat));
            if order_columns_found(batch.schema@, ov) {
                assert forall|k: int| 0 <= k < idx@.len() - 1 implies rows_cmp(order_keys(batch@, ov), 0, #[trigger] idx@[k] as int, idx@[k + 1] as int) <= 0 by {}
            }
        }
        return Ok(out);
    }
    let mut keys: Vec<SortKey> = Vec::with_capacity(order_by.len());
    let mut k: usize = 0;
    while k < order_by.len()
        invariant
            k <= order_by@.len(),
            batch.wf(),
            n == batch.num_rows,
            n > 0,
            order_by@.len() > 0,
            ov == order_views(order_by@),
            keys@.len() == k,
            forall|j: int| 0 <= j < k ==> (#[trigger] find_field(batch.schema@, ov[j].0)) is Some,
            forall|j: int| 0 <= j < k ==> (#[trigger] keys@[j]).view() == order_keys(batch@, ov)[j],
        decreases order_by@.len() - k,
    {
        let o = &order_by[k];
        proof {
            lemma_find_field_bounds(batch.schema@, o.column@);
        }
        match batch.column_by_name(o.column.as_str()) {
            Some(col) => {
                proof {
                    let i = find_field(batch.schema@, o.column@)->Some_0;
                    assert(batch@.columns[i] == batch.columns@[i]@);
                }
                keys.push(key_of(col, !o.ascending, true));
            },
            None => {
                assert(ov[k as int].0 == order_by@[k as int].column@);
                return Err(EngineError::UnknownColumn(o.column.clone()));
            },
        }
        k += 1;
    }
    if n > 4294967295usize {
        return Err(EngineError::OutOfRange);
    }
    proof {
        assert(key_views(keys@) =~= order_keys(batch@, ov));
        assert forall|j: int| 0 <= j < keys@.len() implies (#[trigger] keys@[j]).view().cells.len() == n by {
            let i = find_field(batch.schema@, ov[j].0)->Some_0;
            lemma_find_field_bounds(batch.schema@, ov[j].0);
        }
    }
    let idx = lexsort_indices(&keys, n);
    proof {
        assert(idx@ == sort_order(batch@, ov));
        assert(batch.columns@.len() == 0 ==> n == 0);
    }
    Ok(take_batch(batch, &idx))
}

/// Sort operator: a global ORDER BY.
pub struct SortOperator {
    pub order_by: Vec<OrderByExpr>,
    pub schema: Schema,
}

impl SortOperator {
    /// Checks that every ORDER BY column is in `input_schema`.
    pub fn new(order_by: Vec<OrderByExpr>, input_schema: Schema) -> (r: Result<SortOperator, EngineError>)
        ensures
            r is Ok <==> order_columns_found(input_schema@, order_views(order_by@)),
            r is Err ==> r matches Err(EngineError::UnknownColumn(_)),
            r matches Ok(op) ==> op.order_by == order_by && op.schema == input_schema,
    {
        validate_order(&input_schema, &order_by)?;
        Ok(SortOperator { order_by, schema: input_schema })
    }

    pub fn schema(&self) -> (r: &Schema)
        ensures
            r == &self.schema,
    {
        &self.schema
    }

    /// Sorts one batch on its own.
    pub fn execute(&self, input: &RecordBatch) -> (r: Result<RecordBatch, EngineError>)
        requires
            input.wf(),
        ensures
            r is Ok <==> input.num_rows == 0 || self.order_by@.len() == 0 || (order_columns_found(
                input.schema@,
                order_views(self.order_by@),
            ) && input.num_rows <= u32::MAX),
            r matches Ok(b) ==> b.wf() && is_sorted_result(input@, order_views(self.order_by@), b@) && b@
                == take_rows(input@, sort_order(input@, order_views(self.order_by@))),
    {
        sort_batch(input, &self.order_by)
    }

    /// Sorts all input rows together: the batches are concatenated first.
    pub fn execute_many(&self, inputs: &[RecordBatch]) -> (r: Result<Vec<RecordBatch>, EngineError>)
        requires
            forall|i: int| 0 <= i < inputs@.len() ==> (#[trigger] inputs@[i]).wf(),
        ensures
            sort_many_ok(batch_views(inputs@), order_views(self.order_by@), r),
    {
        sort_many(inputs, &self.order_by)
    }
}

/// Checks that every ORDER BY column is in `schema`.
pub fn validate_order(schema: &Schema, order_by: &Vec<OrderByExpr>) -> (r: Result<(), EngineError>)
    ensures
        r is Ok <==> order_columns_found(schema@, order_views(order_by@)),
        r is Err ==> r matches Err(EngineError::UnknownColumn(_)),
{
    let ghost ov = order_views(order_by@);
    let mut k: usize = 0;
    while k < order_by.len()
        invariant
            k <= order_by@.len(),
            ov == order_views(order_by@),
            forall|j: int| 0 <= j < k ==> (#[trigger] find_field(schema@, ov[j].0)) is Some,
        decreases order_by@.len() - k,
    {
        assert(ov[k as int].0 == order_by@[k as int].column@);
        if schema.index_of(order_by[k].column.as_str()).is_none() {
            return Err(EngineError::UnknownColumn(order_by[k].column.clone()));
        }
        k += 1;
    }
    Ok(())
}

/// Sorts the rows of all batches together into at most one batch.
pub fn sort_many(inputs: &[RecordBatch], order_by: &Vec<OrderByExpr>) -> (r: Result<Vec<RecordBatch>, EngineError>)
    requires
        forall|i: int| 0 <= i < inputs@.len() ==> (#[trigger] inputs@[i]).wf(),
    ensures
        sort_many_ok(batch_views(inputs@), order_views(order_by@), r),
{
    reveal(is_sorted_result);
    if inputs.len() == 0 {
        return Ok(Vec::new());
    }
    let combined = RecordBatch::concat(inputs)?;
    let sorted = sort_batch(&combined, order_by)?;
    if sorted.num_rows == 0 {
        Ok(Vec::new())
    } else {
        let mut out: Vec<RecordBatch> = Vec::new();
        out.push(sorted);
        Ok(out)
    }
}

/// What sorting a list of batches gives: nothing for no rows, else one batch
/// holding every row in key order.
pub open spec fn sort_many_ok(
    bs: Seq<BatchView>,
    order: Seq<(Seq<char>, bool)>,
    r: Result<Vec<RecordBatch>, EngineError>,
) -> bool {
    if bs.len() == 0 {
        r matches Ok(v) && v@.len() == 0
    } else if !(same_schemas(bs) && total_rows(bs) <= usize::MAX) {
        r is Err
    } else {
        let c = concat_view(bs);
        if !(c.num_rows == 0 || order.len() == 0 || (order_columns_found(c.schema, order) && c.num_rows <= u32::MAX)) {
            r is Err
        } else {
            r matches Ok(v) && (if c.num_rows == 0 {
                v@.len() == 0
            } else {
                v@.len() == 1 && v@[0].wf() && is_sorted_result(c, order, v@[0]@) && v@[0]@ == take_rows(
                    c,
                    sort_order(c, order),
                )
            })
        }
    }
}

} // verus!
