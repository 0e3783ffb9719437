use vstd::prelude::*;
use vstd::string::StringSliceAdditionalSpecFns;
use vstd::utf8::encode_utf8;
use crate::batch::{batch_wf, BatchView, RecordBatch};
use crate::column::{
    bool_datum, filter_seq, lemma_filter_len, ColumnData, ColumnView, Datum,
};
use crate::error::EngineError;
use crate::logical_plan::{BinaryOp, LogicalExpr, LogicalValue};
use crate::types::{find_field, lemma_find_field_bounds, str_eq, DataType, Schema};

verus! {

/// Position of a float in IEEE-754 totalOrder, from its bit pattern.
pub open spec fn float_key(bits: u64) -> int {
    if bits < 0x8000_0000_0000_0000u64 {
        bits as int
    } else {
        0x7FFF_FFFF_FFFF_FFFFint - bits as int
    }
}

/// Lexicographic order of byte strings.
pub open spec fn bytes_lt(a: Seq<u8>, b: Seq<u8>) -> bool
    decreases a.len(),
{
    if a.len() == 0 {
        b.len() > 0
    } else if b.len() == 0 {
        false
    } else if a[0] != b[0] {
        a[0] < b[0]
    } else {
        bytes_lt(a.drop_first(), b.drop_first())
    }
}

/// Strict order of two non-null cells of one type: numbers by value, floats by
/// totalOrder, strings by their UTF-8 bytes, `false` before `true`.
pub open spec fn value_lt(x: Datum, y: Datum) -> bool {
    match (x, y) {
        (Datum::Int32(a), Datum::Int32(b)) => a < b,
        (Datum::Int64(a), Datum::Int64(b)) => a < b,
        (Datum::Float64(a), Datum::Float64(b)) => float_key(a) < float_key(b),
        (Datum::Utf8(a), Datum::Utf8(b)) => bytes_lt(encode_utf8(a), encode_utf8(b)),
        (Datum::Boolean(a), Datum::Boolean(b)) => !a && b,
        _ => false,
    }
}

pub open spec fn is_comparison(op: BinaryOp) -> bool {
    !(op == BinaryOp::And || op == BinaryOp::Or)
}

/// A comparison given whether `x < y`, `x == y` and `y < x`.
pub open spec fn comparison_outcome(op: BinaryOp, lt: bool, eq: bool, gt: bool) -> bool {
    match op {
        BinaryOp::Eq => eq,
        BinaryOp::Neq => !eq,
        BinaryOp::Lt => lt,
        BinaryOp::Le => lt || eq,
        BinaryOp::Gt => gt,
        BinaryOp::Ge => gt || eq,
        _ => false,
    }
}

/// One cell of `left op right`; a null operand gives null.
pub open spec fn combine_datum(op: BinaryOp, x: Datum, y: Datum) -> Datum {
    if x is Null || y is Null {
        Datum::Null
    } else if is_comparison(op) {
        Datum::Boolean(comparison_outcome(op, value_lt(x, y), x == y, value_lt(y, x)))
    } else {
        match (x, y) {
            (Datum::Boolean(a), Datum::Boolean(b)) => Datum::Boolean(
                if op == BinaryOp::And {
                    a && b
                } else {
                    a || b
                },
            ),
            _ => Datum::Null,
        }
    }
}

/// Why an expression cannot be evaluated.
pub enum EvalError {
    UnknownColumn,
    TypeMismatch,
    NonBooleanPredicate,
}

pub open spec fn literal_type(v: LogicalValue) -> DataType {
    match v {
        LogicalValue::Int32(_) => DataType::Int32,
        LogicalValue::Int64(_) => DataType::Int64,
        LogicalValue::Float64(_) => DataType::Float64,
        LogicalValue::String(_) => DataType::Utf8,
        LogicalValue::Boolean(_) => DataType::Boolean,
    }
}

pub open spec fn literal_datum(v: LogicalValue) -> Datum {
    match v {
        LogicalValue::Int32(x) => Datum::Int32(x),
        LogicalValue::Int64(x) => Datum::Int64(x),
        LogicalValue::Float64(x) => Datum::Float64(x),
        LogicalValue::String(s) => Datum::Utf8(s@),
        LogicalValue::Boolean(x) => Datum::Boolean(x),
    }
}

/// `left op right` on two evaluated columns: comparisons need equal types,
/// `And` and `Or` need two boolean columns.
pub open spec fn combine_columns(op: BinaryOp, a: ColumnView, c: ColumnView) -> Result<
    ColumnView,
    EvalError,
> {
    if (is_comparison(op) && a.data_type != c.data_type) || (!is_comparison(op) && (a.data_type
        != DataType::Boolean || c.data_type != DataType::Boolean)) {
        Err(EvalError::TypeMismatch)
    } else {
        Ok(
            ColumnView {
                data_type: DataType::Boolean,
                values: Seq::new(
                    a.values.len(),
                    |i: int| combine_datum(op, a.values[i], c.values[i]),
                ),
            },
        )
    }
}

/// The column an expression evaluates to over a batch.
pub open spec fn eval_expr(b: BatchView, e: LogicalExpr) -> Result<ColumnView, EvalError>
    decreases e,
{
    match e {
        LogicalExpr::Column(n) => match find_field(b.schema, n@) {
            Some(i) => Ok(b.columns[i]),
            None => Err(EvalError::UnknownColumn),
        },
        LogicalExpr::Literal(v) => Ok(
            ColumnView {
                data_type: literal_type(v),
                values: Seq::new(b.num_rows, |i: int| literal_datum(v)),
            },
        ),
        LogicalExpr::BinaryExpr { left, op, right } => match eval_expr(b, *left) {
            Err(err) => Err(err),
            Ok(a) => match eval_expr(b, *right) {
                Err(err) => Err(err),
                Ok(c) => combine_columns(op, a, c),
            },
        },
    }
}

pub open spec fn datum_as_mask(d: Datum) -> Option<bool> {
    match d {
        Datum::Boolean(x) => Some(x),
        _ => None,
    }
}

/// The boolean mask a predicate evaluates to: a bare column or a non-boolean
/// literal is no predicate.
pub open spec fn eval_predicate(b: BatchView, e: LogicalExpr) -> Result<Seq<Option<bool>>, EvalError> {
    match e {
        LogicalExpr::Column(_) => Err(EvalError::NonBooleanPredicate),
        LogicalExpr::Literal(LogicalValue::Boolean(x)) => Ok(Seq::new(b.num_rows, |i: int| Some(x))),
        LogicalExpr::Literal(_) => Err(EvalError::NonBooleanPredicate),
        LogicalExpr::BinaryExpr { .. } => match eval_expr(b, e) {
            Ok(c) => Ok(c.values.map_values(|d: Datum| datum_as_mask(d))),
            Err(err) => Err(err),
        },
    }
}

/// The batch of the rows whose mask entry is true.
pub open spec fn filter_view(b: BatchView, mask: Seq<Option<bool>>) -> BatchView {
    BatchView {
        schema: b.schema,
        columns: Seq::new(
            b.columns.len(),
            |c: int| ColumnView { data_type: b.columns[c].data_type, values: filter_seq(b.columns[c].values, mask) },
        ),
        num_rows: filter_seq(Seq::new(b.num_rows, |i: int| i), mask).len(),
    }
}

/// The batch a filter produces, or why it fails.
pub open spec fn filter_result(b: BatchView, e: LogicalExpr) -> Result<BatchView, EvalError> {
    match eval_predicate(b, e) {
        Ok(mask) => Ok(filter_view(b, mask)),
        Err(err) => Err(err),
    }
}

pub open spec fn error_matches(r: EngineError, e: EvalError) -> bool {
    match e {
        EvalError::UnknownColumn => r is UnknownColumn,
        EvalError::TypeMismatch => r is TypeMismatch,
        EvalError::NonBooleanPredicate => r is NonBooleanPredicate,
    }
}

pub proof fn lemma_filter_same_len<A, B>(s: Seq<A>, t: Seq<B>, mask: Seq<Option<bool>>)
    requires
        s.len() == t.len(),
    ensures
        filter_seq(s, mask).len() == filter_seq(t, mask).len(),
    decreases s.len(),
{
    if s.len() > 0 {
        lemma_filter_same_len(s.drop_last(), t.drop_last(), mask);
    }
}

pub fn float_order_key(bits: u64) -> (r: i64)
    ensures
        r as int == float_key(bits),
{
    if bits < 0x8000_0000_0000_0000u64 {
        bits as i64
    } else {
        let d: u64 = bits - 0x8000_0000_0000_0000u64;
        -1i64 - (d as i64)
    }
}

/// Byte-wise lexicographic `a < b`.
pub fn str_lt(a: &str, b: &str) -> (r: bool)
    ensures
        r == bytes_lt(a.spec_bytes(), b.spec_bytes()),
{
    let x = a.as_bytes();
    let y = b.as_bytes();
    assert(x@.subrange(0, x@.len() as int) =~= x@);
    assert(y@.subrange(0, y@.len() as int) =~= y@);
    let mut i: usize = 0;
    while i < x.len() && i < y.len()
        invariant
            i <= x@.len(),
            i <= y@.len(),
            x@ == a.spec_bytes(),
            y@ == b.spec_bytes(),
            bytes_lt(x@, y@) == bytes_lt(x@.subrange(i as int, x@.len() as int), y@.subrange(i as int, y@.len() as int)),
        decreases x@.len() - i,
    {
        let ghost xs = x@.subrange(i as int, x@.len() as int);
        let ghost ys = y@.subrange(i as int, y@.len() as int);
        assert(xs[0] == x@[i as int]);
        assert(ys[0] == y@[i as int]);
        if x[i] != y[i] {
            return x[i] < y[i];
        }
        assert(xs.drop_first() =~= x@.subrange(i + 1, x@.len() as int));
        assert(ys.drop_first() =~= y@.subrange(i + 1, y@.len() as int));
        i += 1;
    }
    let ghost xs = x@.subrange(i as int, x@.len() as int);
    let ghost ys = y@.subrange(i as int, y@.len() as int);
    i >= x.len() && i < y.len()
}

fn comparison_of(op: BinaryOp, lt: bool, eq: bool, gt: bool) -> (r: bool)
    ensures
        r == comparison_outcome(op, lt, eq, gt),
{
    match op {
        BinaryOp::Eq => eq,
        BinaryOp::Neq => !eq,
        BinaryOp::Lt => lt,
        BinaryOp::Le => lt || eq,
        BinaryOp::Gt => gt,
        BinaryOp::Ge => gt || eq,
        _ => false,
    }
}

/// Cell `i` of `a op b`, for two columns of one type (two boolean columns for `And`/`Or`).
fn combine_cell(op: BinaryOp, a: &ColumnData, b: &ColumnData, i: usize) -> (r: Option<bool>)
    requires
        a.spec_type() == b.spec_type(),
        !is_comparison(op) ==> a.spec_type() == DataType::Boolean,
        i < a.spec_len(),
        i < b.spec_len(),
    ensures
        bool_datum(r) == combine_datum(op, a.values()[i as int], b.values()[i as int]),
{
    let cmp = is_cmp(op);
    match (a, b) {
        (ColumnData::Int32(x), ColumnData::Int32(y)) => match (x[i], y[i]) {
            (Some(p), Some(q)) => Some(comparison_of(op, p < q, p == q, q < p)),
            _ => None,
        },
        (ColumnData::Int64(x), ColumnData::Int64(y)) => match (x[i], y[i]) {
            (Some(p), Some(q)) => Some(comparison_of(op, p < q, p == q, q < p)),
            _ => None,
        },
        (ColumnData::Float64(x), ColumnData::Float64(y)) => match (x[i], y[i]) {
            (Some(p), Some(q)) => {
                let kp = float_order_key(p);
                let kq = float_order_key(q);
                Some(comparison_of(op, kp < kq, p == q, kq < kp))
            },
            _ => None,
        },
        (ColumnData::Utf8(x), ColumnData::Utf8(y)) => match (&x[i], &y[i]) {
            (Some(p), Some(q)) => {
                let lt = str_lt(p.as_str(), q.as_str());
                let eq = str_eq(p.as_str(), q.as_str());
                let gt = str_lt(q.as_str(), p.as_str());
                Some(comparison_of(op, lt, eq, gt))
            },
            _ => None,
        },
        (ColumnData::Boolean(x), ColumnData::Boolean(y)) => match (x[i], y[i]) {
            (Some(p), Some(q)) => {
                if cmp {
                    Some(comparison_of(op, !p && q, p == q, !q && p))
                } else if op == BinaryOp::And {
                    Some(p && q)
                } else {
                    Some(p || q)
                }
            },
            _ => None,
        },
        _ => None,
    }
}

fn is_cmp(op: BinaryOp) -> (r: bool)
    ensures
        r == is_comparison(op),
{
    !(op == BinaryOp::And || op == BinaryOp::Or)
}

/// Column `a op b`, or a type mismatch.
pub fn combine(op: BinaryOp, a: &ColumnData, b: &ColumnData) -> (r: Result<ColumnData, EngineError>)
    requires
        a.spec_len() == b.spec_len(),
    ensures
        match combine_columns(op, a@, b@) {
            Ok(c) => r matches Ok(col) && col@ == c,
            Err(e) => r matches Err(err) && error_matches(err, e),
        },
{
    let ta = a.data_type();
    let tb = b.data_type();
    let cmp = is_cmp(op);
    if (cmp && ta != tb) || (!cmp && (ta != DataType::Boolean || tb != DataType::Boolean)) {
        return Err(EngineError::TypeMismatch);
    }
    let n = a.len();
    let mut out: Vec<Option<bool>> = Vec::with_capacity(n);
    let mut i: usize = 0;
    while i < n
        invariant
            i <= n,
            n == a.spec_len(),
            n == b.spec_len(),
            a.spec_type() == b.spec_type(),
            !is_comparison(op) ==> a.spec_type() == DataType::Boolean,
            out@.len() == i,
            forall|k: int| 0 <= k < i ==> bool_datum(#[trigger] out@[k]) == combine_datum(op, a.values()[k], b.values()[k]),
        decreases n - i,
    {
        out.push(combine_cell(op, a, b, i));
        i += 1;
    }
    let r = ColumnData::Boolean(out);
    assert(r@.values =~= Seq::new(n as nat, |k: int| combine_datum(op, a@.values[k], b@.values[k])));
    Ok(r)
}

fn literal_type_of(v: &LogicalValue) -> (r: DataType)
    ensures
        r == literal_type(*v),
{
    match v {
        LogicalValue::Int32(_) => DataType::Int32,
        LogicalValue::Int64(_) => DataType::Int64,
        LogicalValue::Float64(_) => DataType::Float64,
        LogicalValue::String(_) => DataType::Utf8,
        LogicalValue::Boolean(_) => DataType::Boolean,
    }
}

fn fill<T: Copy>(x: T, n: usize) -> (r: Vec<Option<T>>)
    ensures
        r@ == Seq::new(n as nat, |i: int| Some(x)),
{
    let mut r: Vec<Option<T>> = Vec::with_capacity(n);
    let mut k: usize = 0;
    while k < n
        invariant
            k <= n,
            r@ =~= Seq::new(k as nat, |i: int| Some(x)),
        decreases n - k,
    {
        r.push(Some(x));
        k += 1;
    }
    r
}

fn fill_str(x: &String, n: usize) -> (r: Vec<Option<String>>)
    ensures
        r@ == Seq::new(n as nat, |i: int| Some(*x)),
{
    let mut r: Vec<Option<String>> = Vec::with_capacity(n);
    let mut k: usize = 0;
    while k < n
        invariant
            k <= n,
            r@ =~= Seq::new(k as nat, |i: int| Some(*x)),
        decreases n - k,
    {
        r.push(Some(x.clone()));
        k += 1;
    }
    r
}

/// A column of `n` copies of a literal.
pub fn broadcast(v: &LogicalValue, n: usize) -> (r: ColumnData)
    ensures
        r@ == (ColumnView {
            data_type: literal_type(*v),
            values: Seq::new(n as nat, |i: int| literal_datum(*v)),
        }),
{
    let r = match v {
        LogicalValue::Int32(x) => ColumnData::Int32(fill(*x, n)),
        LogicalValue::Int64(x) => ColumnData::Int64(fill(*x, n)),
        LogicalValue::Float64(x) => ColumnData::Float64(fill(*x, n)),
        LogicalValue::String(x) => ColumnData::Utf8(fill_str(x, n)),
        LogicalValue::Boolean(x) => ColumnData::Boolean(fill(*x, n)),
    };
    assert(r@.values =~= Seq::new(n as nat, |i: int| literal_datum(*v)));
    r
}

pub proof fn lemma_eval_len(b: BatchView, e: LogicalExpr)
    requires
        batch_wf(b),
    ensures
        eval_expr(b, e) matches Ok(c) ==> c.values.len() == b.num_rows,
    decreases e,
{
    match e {
        LogicalExpr::Column(n) => {
            lemma_find_field_bounds(b.schema, n@);
        },
        LogicalExpr::Literal(_) => {},
        LogicalExpr::BinaryExpr { left, op, right } => {
            lemma_eval_len(b, *left);
            lemma_eval_len(b, *right);
        },
    }
}

/// Evaluates an expression to a column of the batch's length.
pub fn evaluate_to_array(batch: &RecordBatch, expr: &LogicalExpr) -> (r: Result<ColumnData, EngineError>)
    requires
        batch.wf(),
    ensures
        match eval_expr(batch@, *expr) {
            Ok(c) => r matches Ok(col) && col@ == c,
            Err(e) => r matches Err(err) && error_matches(err, e),
        },
    decreases expr,
{
    match expr {
        LogicalExpr::Column(name) => {
            proof {
                lemma_find_field_bounds(batch.schema@, name@);
            }
            match batch.column_by_name(name.as_str()) {
                Some(c) => {
                    let col = c.copy();
                    proof {
                        let i = find_field(batch.schema@, name@)->Some_0;
                        assert(batch@.columns[i] == batch.columns@[i]@);
                    }
                    Ok(col)
                },
                None => Err(EngineError::UnknownColumn(name.clone())),
            }
        },
        LogicalExpr::Literal(v) => Ok(broadcast(v, batch.num_rows)),
        LogicalExpr::BinaryExpr { left, op, right } => {
            let l = evaluate_to_array(batch, left)?;
            let r = evaluate_to_array(batch, right)?;
            proof {
                lemma_eval_len(batch@, **left);
                lemma_eval_len(batch@, **right);
            }
            combine(*op, &l, &r)
        },
    }
}

/// Evaluates a predicate to a boolean mask over the batch's rows.
pub fn evaluate_expr(batch: &RecordBatch, expr: &LogicalExpr) -> (r: Result<Vec<Option<bool>>, EngineError>)
    requires
        batch.wf(),
    ensures
        match eval_predicate(batch@, *expr) {
            Ok(m) => r matches Ok(v) && v@ == m,
            Err(e) => r matches Err(err) && error_matches(err, e),
        },
{
    match expr {
        LogicalExpr::Column(_) => Err(EngineError::NonBooleanPredicate),
        LogicalExpr::Literal(LogicalValue::Boolean(x)) => Ok(fill(*x, batch.num_rows)),
        LogicalExpr::Literal(_) => Err(EngineError::NonBooleanPredicate),
        LogicalExpr::BinaryExpr { .. } => {
            let c = evaluate_to_array(batch, expr)?;
            match c {
                ColumnData::Boolean(v) => {
                    assert(v@ =~= c@.values.map_values(|d: Datum| datum_as_mask(d)));
                    Ok(v)
                },
                _ => Err(EngineError::NonBooleanPredicate),
            }
        },
    }
}

/// Number of true entries of `mask` among its first `n` positions.
fn count_kept(mask: &Vec<Option<bool>>) -> (r: usize)
    ensures
        r == filter_seq(Seq::new(mask@.len(), |i: int| i), mask@).len(),
{
    let n = mask.len();
    let ghost ids = Seq::new(n as nat, |i: int| i);
    let mut count: usize = 0;
    let mut i: usize = 0;
    while i < n
        invariant
            i <= n,
            n == mask@.len(),
            ids == Seq::new(n as nat, |i: int| i),
            count == filter_seq(ids.subrange(0, i as int), mask@).len(),
            count <= i,
        decreases n - i,
    {
        assert(ids.subrange(0, i + 1).drop_last() =~= ids.subrange(0, i as int));
        if mask[i] == Some(true) {
            count += 1;
        }
        i += 1;
    }
    assert(ids.subrange(0, n as int) =~= ids);
    count
}

/// The rows of `batch` where `predicate` holds; null counts as false.
pub fn apply_filter(batch: &RecordBatch, predicate: &LogicalExpr) -> (r: Result<RecordBatch, EngineError>)
    requires
        batch.wf(),
    ensures
        match filter_result(batch@, *predicate) {
            Ok(v) => r matches Ok(b) && b.wf() && b@ == v,
            Err(e) => r matches Err(err) && error_matches(err, e),
        },
{
    let mask = evaluate_expr(batch, predicate)?;
    assert(mask@.len() == batch.num_rows) by {
        lemma_eval_len(batch@, *predicate);
    }
    let mut columns: Vec<ColumnData> = Vec::with_capacity(batch.columns.len());
    let mut c: usize = 0;
    while c < batch.columns.len()
        invariant
            c <= batch.columns@.len(),
            batch.wf(),
            mask@.len() == batch.num_rows,
            columns@.len() == c,
            forall|j: int| 0 <= j < c ==> (#[trigger] columns@[j])@ == (ColumnView {
                data_type: batch@.columns[j].data_type,
                values: filter_seq(batch@.columns[j].values, mask@),
            }),
        decreases batch.columns@.len() - c,
    {
        assert(batch@.columns[c as int] == batch.columns@[c as int]@);
        columns.push(batch.columns[c].filter(&mask));
        c += 1;
    }
    let num_rows = count_kept(&mask);
    let b = RecordBatch { schema: batch.schema.copy(), columns, num_rows };
    proof {
        let fv = filter_view(batch@, mask@);
        assert(b@.columns =~= fv.columns);
        let ids = Seq::new(batch.num_rows as nat, |i: int| i);
        assert forall|j: int| 0 <= j < b@.columns.len() implies (#[trigger] b@.columns[j]).values.len()
            == b@.num_rows && b@.columns[j].data_type == b@.schema[j].data_type by {
            lemma_filter_same_len(batch@.columns[j].values, ids, mask@);
        }
        if batch.columns@.len() == 0 {
            assert(ids.len() == 0);
            lemma_filter_len(ids, mask@);
        }
    }
    Ok(b)
}

/// Filter operator: keeps the rows of each batch where the predicate holds.
pub struct FilterOperator {
    pub predicate: LogicalExpr,
    pub schema: Schema,
}

impl FilterOperator {
    /// A filter over batches of `input_schema`; the output schema is the input's.
    pub fn new(predicate: LogicalExpr, input_schema: Schema) -> (r: Result<FilterOperator, EngineError>)
        ensures
            r matches Ok(op) && op.predicate == predicate && op.schema == input_schema,
    {
        Ok(FilterOperator { predicate, schema: input_schema })
    }

    pub fn schema(&self) -> (r: &Schema)
        ensures
            r == &self.schema,
    {
        &self.schema
    }

    /// Filters one batch.
    pub fn execute(&self, input: &RecordBatch) -> (r: Result<RecordBatch, EngineError>)
        requires
            input.wf(),
        ensures
            match filter_result(input@, self.predicate) {
                Ok(v) => r matches Ok(b) && b.wf() && b@ == v,
                Err(e) => r matches Err(err) && error_matches(err, e),
            },
    {
        apply_filter(input, &self.predicate)
    }
}

} // verus!
