use vstd::prelude::*;
use crate::column::{ColumnData, ColumnView, Datum};
use crate::error::EngineError;
use crate::types::{find_field, lemma_find_field_bounds, Field, FieldView, Schema};

verus! {

/// A batch as a mathematical value.
pub struct BatchView {
    pub schema: Seq<FieldView>,
    pub columns: Seq<ColumnView>,
    pub num_rows: nat,
}

/// The batch invariant: one column per field, each of the field's type and of
/// length `num_rows`; a batch without columns has no rows.
pub open spec fn batch_wf(b: BatchView) -> bool {
    &&& b.columns.len() == b.schema.len()
    &&& b.columns.len() == 0 ==> b.num_rows == 0
    &&& forall|i: int|
        0 <= i < b.columns.len() ==> (#[trigger] b.columns[i]).values.len() == b.num_rows
            && b.columns[i].data_type == b.schema[i].data_type
}

/// The batch made of the columns at `idx`, in that order.
pub open spec fn select_view(b: BatchView, idx: Seq<int>) -> BatchView {
    BatchView {
        schema: Seq::new(idx.len(), |k: int| b.schema[idx[k]]),
        columns: Seq::new(idx.len(), |k: int| b.columns[idx[k]]),
        num_rows: if idx.len() == 0 { 0 } else { b.num_rows },
    }
}

/// Indices as integers.
pub open spec fn usize_ints(v: Seq<usize>) -> Seq<int> {
    v.map_values(|i: usize| i as int)
}

/// Index of each name in the fields (meaningful when every name is found).
pub open spec fn resolve_names(fields: Seq<FieldView>, names: Seq<Seq<char>>) -> Seq<int> {
    Seq::new(names.len(), |k: int| find_field(fields, names[k])->Some_0)
}

pub open spec fn all_names_found(fields: Seq<FieldView>, names: Seq<Seq<char>>) -> bool {
    forall|k: int| 0 <= k < names.len() ==> (#[trigger] find_field(fields, names[k])) is Some
}

/// Total row count of a list of batches.
pub open spec fn total_rows(bs: Seq<BatchView>) -> nat
    decreases bs.len(),
{
    if bs.len() == 0 {
        0
    } else {
        total_rows(bs.drop_last()) + bs.last().num_rows
    }
}

/// The cells of column `c` of every batch, one batch after the other.
pub open spec fn concat_values(bs: Seq<BatchView>, c: int) -> Seq<Datum>
    decreases bs.len(),
{
    if bs.len() == 0 {
        Seq::empty()
    } else {
        concat_values(bs.drop_last(), c) + bs.last().columns[c].values
    }
}

pub open spec fn batch_views(bs: Seq<RecordBatch>) -> Seq<BatchView> {
    bs.map_values(|b: RecordBatch| b@)
}

/// The concatenation of batches that share the first batch's schema.
pub open spec fn concat_view(bs: Seq<BatchView>) -> BatchView {
    BatchView {
        schema: bs[0].schema,
        columns: Seq::new(
            bs[0].columns.len(),
            |c: int| ColumnView { data_type: bs[0].columns[c].data_type, values: concat_values(bs, c) },
        ),
        num_rows: total_rows(bs),
    }
}

pub open spec fn same_schemas(bs: Seq<BatchView>) -> bool {
    forall|i: int| 0 <= i < bs.len() ==> (#[trigger] bs[i]).schema == bs[0].schema
}

pub proof fn lemma_total_rows_prefix(bs: Seq<BatchView>, i: int)
    requires
        0 <= i <= bs.len(),
    ensures
        total_rows(bs.subrange(0, i)) <= total_rows(bs),
    decreases bs.len() - i,
{
    if i < bs.len() {
        lemma_total_rows_prefix(bs, i + 1);
        assert(bs.subrange(0, i + 1).drop_last() =~= bs.subrange(0, i));
    } else {
        assert(bs.subrange(0, i) =~= bs);
    }
}

pub proof fn lemma_total_rows_zero(bs: Seq<BatchView>)
    requires
        forall|i: int| 0 <= i < bs.len() ==> (#[trigger] bs[i]).num_rows == 0,
    ensures
        total_rows(bs) == 0,
    decreases bs.len(),
{
    if bs.len() > 0 {
        lemma_total_rows_zero(bs.drop_last());
    }
}

pub proof fn lemma_concat_values_len(bs: Seq<BatchView>, c: int)
    requires
        forall|i: int| 0 <= i < bs.len() ==> batch_wf(#[trigger] bs[i]) && 0 <= c < bs[i].columns.len(),
    ensures
        concat_values(bs, c).len() == total_rows(bs),
    decreases bs.len(),
{
    if bs.len() > 0 {
        lemma_concat_values_len(bs.drop_last(), c);
        assert(batch_wf(bs[bs.len() - 1]));
    }
}

/// A schema plus equal-length typed columns.
#[derive(Clone, Debug)]
pub struct RecordBatch {
    pub schema: Schema,
    pub columns: Vec<ColumnData>,
    pub num_rows: usize,
}

impl View for RecordBatch {
    type V = BatchView;

    open spec fn view(&self) -> BatchView {
        BatchView {
            schema: self.schema@,
            columns: self.columns@.map_values(|c: ColumnData| c@),
            num_rows: self.num_rows as nat,
        }
    }
}

pub open spec fn columns_same_len(cols: Seq<ColumnData>) -> bool {
    forall|i: int| 0 <= i < cols.len() ==> (#[trigger] cols[i]).spec_len() == cols[0].spec_len()
}

pub open spec fn columns_match_schema(schema: Seq<FieldView>, cols: Seq<ColumnData>) -> bool {
    forall|i: int| 0 <= i < cols.len() ==> (#[trigger] cols[i]).spec_type() == schema[i].data_type
}

impl RecordBatch {
    pub open spec fn wf(&self) -> bool {
        batch_wf(self@)
    }

    /// Builds a batch, checking the column count, the column lengths and the column types.
    pub fn try_new(schema: Schema, columns: Vec<ColumnData>) -> (r: Result<RecordBatch, EngineError>)
        ensures
            r is Ok <==> schema@.len() == columns@.len() && columns_same_len(columns@)
                && columns_match_schema(schema@, columns@),
            schema@.len() != columns@.len() ==> r matches Err(EngineError::SchemaMismatch),
            schema@.len() == columns@.len() && !columns_same_len(columns@) ==> r matches Err(
                EngineError::ColumnLengthMismatch,
            ),
            schema@.len() == columns@.len() && columns_same_len(columns@) && !columns_match_schema(
                schema@,
                columns@,
            ) ==> r matches Err(EngineError::SchemaMismatch),
            r matches Ok(b) ==> b.wf() && b.schema@ == schema@ && b.columns@ == columns@
                && b.num_rows == (if columns@.len() == 0 { 0 } else { columns@[0].spec_len() }),
    {
        if schema.fields.len() != columns.len() {
            proof {
                assert(schema@.len() == schema.fields@.len());
            }
            return Err(EngineError::SchemaMismatch);
        }
        let num_rows: usize = if columns.len() == 0 {
            0
        } else {
            columns[0].len()
        };
        let mut i: usize = 0;
        while i < columns.len()
            invariant
                i <= columns@.len(),
                schema@.len() == columns@.len(),
                num_rows == (if columns@.len() == 0 { 0 } else { columns@[0].spec_len() }),
                forall|k: int| 0 <= k < i ==> (#[trigger] columns@[k]).spec_len() == num_rows,
            decreases columns@.len() - i,
        {
            if columns[i].len() != num_rows {
                return Err(EngineError::ColumnLengthMismatch);
            }
            i += 1;
        }
        let mut j: usize = 0;
        while j < columns.len()
            invariant
                j <= columns@.len(),
                columns@.len() == schema@.len(),
                columns_same_len(columns@),
                forall|k: int| 0 <= k < j ==> (#[trigger] columns@[k]).spec_type() == schema@[k].data_type,
            decreases columns@.len() - j,
        {
            if columns[j].data_type() != schema.fields[j].data_type {
                return Err(EngineError::SchemaMismatch);
            }
            j += 1;
        }
        let b = RecordBatch { schema, columns, num_rows };
        proof {
            assert(b@.columns.len() == b.columns@.len());
            assert forall|k: int| 0 <= k < b@.columns.len() implies (#[trigger] b@.columns[k]).values.len()
                == b@.num_rows && b@.columns[k].data_type == b@.schema[k].data_type by {
                assert(b@.columns[k] == b.columns@[k]@);
            }
        }
        Ok(b)
    }

    pub fn schema(&self) -> (r: &Schema)
        ensures
            r == &self.schema,
    {
        &self.schema
    }

    pub fn num_rows(&self) -> (r: usize)
        ensures
            r == self.num_rows,
    {
        self.num_rows
    }

    pub fn num_columns(&self) -> (r: usize)
        ensures
            r == self.columns@.len(),
    {
        self.columns.len()
    }

    pub fn columns(&self) -> (r: &Vec<ColumnData>)
        ensures
            r == &self.columns,
    {
        &self.columns
    }

    pub fn is_empty(&self) -> (r: bool)
        ensures
            r == (self.num_rows == 0),
    {
        self.num_rows == 0
    }

    /// The column at `index`.
    pub fn column(&self, index: usize) -> (r: Result<&ColumnData, EngineError>)
        ensures
            r is Ok <==> index < self.columns@.len(),
            r matches Ok(c) ==> c == &self.columns@[index as int],
            r is Err ==> r matches Err(EngineError::OutOfRange),
    {
        if index < self.columns.len() {
            Ok(&self.columns[index])
        } else {
            Err(EngineError::OutOfRange)
        }
    }

    /// The column of the first field called `name`; `None` when there is none.
    pub fn column_by_name(&self, name: &str) -> (r: Option<&ColumnData>)
        requires
            self.wf(),
        ensures
            r is Some <==> find_field(self.schema@, name@) is Some,
            r matches Some(c) ==> c == &self.columns@[find_field(self.schema@, name@)->Some_0],
    {
        proof {
            lemma_find_field_bounds(self.schema@, name@);
        }
        match self.schema.index_of(name) {
            Some(i) => Some(&self.columns[i]),
            None => None,
        }
    }

    /// The batch of the columns at `indices`, in that order.
    pub fn select_columns(&self, indices: &[usize]) -> (r: Result<RecordBatch, EngineError>)
        requires
            self.wf(),
        ensures
            r is Ok <==> forall|k: int| 0 <= k < indices@.len() ==> #[trigger] indices@[k] < self.columns@.len(),
            r is Err ==> r matches Err(EngineError::OutOfRange),
            r matches Ok(b) ==> b.wf() && b@ == select_view(self@, usize_ints(indices@)),
    {
        let mut fields: Vec<Field> = Vec::with_capacity(indices.len());
        let mut columns: Vec<ColumnData> = Vec::with_capacity(indices.len());
        let mut k: usize = 0;
        while k < indices.len()
            invariant
                k <= indices@.len(),
                self.wf(),
                fields@.len() == k,
                columns@.len() == k,
                forall|j: int| 0 <= j < k ==> #[trigger] indices@[j] < self.columns@.len(),
                forall|j: int| 0 <= j < k ==> (#[trigger] fields@[j])@ == self.schema@[indices@[j] as int],
                forall|j: int| 0 <= j < k ==> (#[trigger] columns@[j])@ == self@.columns[indices@[j] as int],
            decreases indices@.len() - k,
        {
            let i = indices[k];
            if i >= self.columns.len() {
                return Err(EngineError::OutOfRange);
            }
            fields.push(self.schema.fields[i].copy());
            columns.push(self.columns[i].copy());
            k += 1;
        }
        let num_rows = if indices.len() == 0 {
            0
        } else {
            self.num_rows
        };
        let b = RecordBatch { schema: Schema { fields }, columns, num_rows };
        proof {
            let sv = select_view(self@, usize_ints(indices@));
            assert(b@.schema =~= sv.schema);
            assert(b@.columns =~= sv.columns);
        }
        Ok(b)
    }

    /// The batch of the columns called `names`, in that order.
    pub fn select_columns_by_name(&self, names: &[&str]) -> (r: Result<RecordBatch, EngineError>)
        requires
            self.wf(),
        ensures
            r is Ok <==> all_names_found(self.schema@, names@.map_values(|s: &str| s@)),
            r is Err ==> r matches Err(EngineError::UnknownColumn(_)),
            r matches Ok(b) ==> b.wf() && b@ == select_view(
                self@,
                resolve_names(self.schema@, names@.map_values(|s: &str| s@)),
            ),
    {
        let ghost nv = names@.map_values(|s: &str| s@);
        let mut indices: Vec<usize> = Vec::with_capacity(names.len());
        let mut k: usize = 0;
        while k < names.len()
            invariant
                k <= names@.len(),
                self.wf(),
                nv == names@.map_values(|s: &str| s@),
                indices@.len() == k,
                forall|j: int| 0 <= j < k ==> (#[trigger] find_field(self.schema@, nv[j])) is Some,
                forall|j: int| 0 <= j < k ==> #[trigger] indices@[j] as int == find_field(self.schema@, nv[j])->Some_0,
                forall|j: int| 0 <= j < k ==> #[trigger] indices@[j] < self.columns@.len(),
            decreases names@.len() - k,
        {
            proof {
                lemma_find_field_bounds(self.schema@, nv[k as int]);
            }
            match self.schema.index_of(names[k]) {
                Some(i) => {
                    indices.push(i);
                },
                None => {
                    return Err(EngineError::UnknownColumn(names[k].to_owned()));
                },
            }
            k += 1;
        }
        proof {
            assert(usize_ints(indices@) =~= resolve_names(self.schema@, nv));
        }
        self.select_columns(indices.as_slice())
    }

    /// The rows `offset .. offset + length`.
    pub fn slice(&self, offset: usize, length: usize) -> (r: Result<RecordBatch, EngineError>)
        requires
            self.wf(),
        ensures
            r is Ok <==> offset + length <= self.num_rows,
            r is Err ==> r matches Err(EngineError::OutOfRange),
            r matches Ok(b) ==> b.wf() && b@.schema == self@.schema && b@.num_rows == length
                && b@.columns.len() == self@.columns.len() && forall|c: int|
                0 <= c < b@.columns.len() ==> (#[trigger] b@.columns[c]).data_type
                    == self@.columns[c].data_type && b@.columns[c].values
                    == self@.columns[c].values.subrange(offset as int, offset + length),
    {
        if offset > self.num_rows || length > self.num_rows - offset {
            return Err(EngineError::OutOfRange);
        }
        let mut columns: Vec<ColumnData> = Vec::with_capacity(self.columns.len());
        let mut c: usize = 0;
        while c < self.columns.len()
            invariant
                c <= self.columns@.len(),
                self.wf(),
                offset + length <= self.num_rows,
                columns@.len() == c,
                forall|j: int| 0 <= j < c ==> (#[trigger] columns@[j]).spec_type()
                    == self.columns@[j].spec_type() && columns@[j].values()
                    == self.columns@[j].values().subrange(offset as int, offset + length),
            decreases self.columns@.len() - c,
        {
            assert(self@.columns[c as int] == self.columns@[c as int]@);
            columns.push(self.columns[c].slice(offset, length));
            c += 1;
        }
        let b = RecordBatch { schema: self.schema.copy(), columns, num_rows: length };
        proof {
            assert forall|j: int| 0 <= j < b@.columns.len() implies (#[trigger] b@.columns[j]).values.len()
                == b@.num_rows && b@.columns[j].data_type == b@.schema[j].data_type by {
                assert(b@.columns[j] == b.columns@[j]@);
                assert(self@.columns[j] == self.columns@[j]@);
            }
            assert forall|j: int| 0 <= j < b@.columns.len() implies (#[trigger] b@.columns[j]).data_type
                == self@.columns[j].data_type && b@.columns[j].values
                == self@.columns[j].values.subrange(offset as int, offset + length) by {
                assert(b@.columns[j] == b.columns@[j]@);
                assert(self@.columns[j] == self.columns@[j]@);
            }
        }
        Ok(b)
    }
    /// Concatenates batches that share one schema; the result has the first batch's schema.
    pub fn concat(batches: &[RecordBatch]) -> (r: Result<RecordBatch, EngineError>)
        requires
            forall|i: int| 0 <= i < batches@.len() ==> (#[trigger] batches@[i]).wf(),
        ensures
            r is Ok <==> batches@.len() > 0 && same_schemas(batch_views(batches@)) && total_rows(
                batch_views(batches@),
            ) <= usize::MAX,
            batches@.len() > 0 && same_schemas(batch_views(batches@)) && total_rows(
                batch_views(batches@),
            ) > usize::MAX ==> r matches Err(EngineError::OutOfRange),
            batches@.len() == 0 ==> r matches Err(EngineError::EmptyInput),
            batches@.len() > 0 && !same_schemas(batch_views(batches@)) ==> r matches Err(
                EngineError::SchemaMismatch,
            ),
            r matches Ok(b) ==> b.wf() && b@ == concat_view(batch_views(batches@)),
    {
        let ghost bv = batch_views(batches@);
        if batches.len() == 0 {
            return Err(EngineError::EmptyInput);
        }
        let n = batches.len();
        let mut i: usize = 1;
        while i < n
            invariant
                1 <= i <= n,
                n == batches@.len(),
                bv == batch_views(batches@),
                forall|k: int| 0 <= k < i ==> (#[trigger] bv[k]).schema == bv[0].schema,
            decreases n - i,
        {
            assert(bv[i as int].schema == batches@[i as int].schema@);
            assert(bv[0].schema == batches@[0].schema@);
            if !batches[i].schema.same_as(&batches[0].schema) {
                return Err(EngineError::SchemaMismatch);
            }
            i += 1;
        }
        assert(same_schemas(bv));
        proof {
            assert forall|k: int| 0 <= k < bv.len() implies batch_wf(#[trigger] bv[k]) by {
                assert(batches@[k].wf());
            }
        }
        let mut total: usize = 0;
        let mut i: usize = 0;
        while i < n
            invariant
                i <= n,
                n == batches@.len(),
                bv == batch_views(batches@),
                same_schemas(bv),
                total == total_rows(bv.subrange(0, i as int)),
            decreases n - i,
        {
            proof {
                lemma_total_rows_prefix(bv, i + 1);
                assert(bv.subrange(0, i + 1).drop_last() =~= bv.subrange(0, i as int));
            }
            if batches[i].num_rows > usize::MAX - total {
                return Err(EngineError::OutOfRange);
            }
            total = total + batches[i].num_rows;
            i += 1;
        }
        assert(bv.subrange(0, n as int) =~= bv);
        let first = &batches[0];
        let ncols = first.columns.len();
        let mut columns: Vec<ColumnData> = Vec::with_capacity(ncols);
        let mut c: usize = 0;
        while c < ncols
            invariant
                c <= ncols,
                n == batches@.len(),
                n > 0,
                first == &batches@[0],
                ncols == first.columns@.len(),
                bv == batch_views(batches@),
                same_schemas(bv),
                forall|k: int| 0 <= k < bv.len() ==> batch_wf(#[trigger] bv[k]),
                total_rows(bv) <= usize::MAX,
                columns@.len() == c,
                forall|j: int| 0 <= j < c ==> (#[trigger] columns@[j])@ == (ColumnView {
                    data_type: bv[0].columns[j].data_type,
                    values: concat_values(bv, j),
                }),
            decreases ncols - c,
        {
            let mut acc = first.columns[c].copy();
            proof {
                let s1 = bv.subrange(0, 1);
                assert(s1.drop_last() =~= Seq::<BatchView>::empty());
                assert(concat_values(s1.drop_last(), c as int) =~= Seq::<Datum>::empty());
                assert(acc@ == first.columns@[c as int]@);
                assert(bv.subrange(0, 1).last() == bv[0]);
                assert(bv[0].columns[c as int] == first.columns@[c as int]@);
                assert(Seq::<Datum>::empty() + acc.values() =~= acc.values());
                assert(acc.values() == concat_values(bv.subrange(0, 1), c as int));
            }
            let mut i: usize = 1;
            while i < n
                invariant
                    1 <= i <= n,
                    n == batches@.len(),
                    c < ncols,
                    ncols == first.columns@.len(),
                    first == &batches@[0],
                    bv == batch_views(batches@),
                    same_schemas(bv),
                    forall|k: int| 0 <= k < bv.len() ==> batch_wf(#[trigger] bv[k]),
                    total_rows(bv) <= usize::MAX,
                    acc.spec_type() == bv[0].columns[c as int].data_type,
                    acc.values() == concat_values(bv.subrange(0, i as int), c as int),
                decreases n - i,
            {
                let ghost pre = bv.subrange(0, i + 1);
                proof {
                    assert(pre.drop_last() =~= bv.subrange(0, i as int));
                    assert forall|k: int| 0 <= k < pre.len() implies batch_wf(#[trigger] pre[k])
                        && 0 <= c < pre[k].columns.len() by {
                        assert(pre[k] == bv[k]);
                        assert(bv[k].schema == bv[0].schema);
                    }
                    lemma_concat_values_len(pre, c as int);
                    lemma_total_rows_prefix(bv, i + 1);
                    assert(bv[i as int].schema == bv[0].schema);
                    assert(batch_wf(bv[i as int]));
                    assert(bv[i as int].columns[c as int] == batches@[i as int].columns@[c as int]@);
                    assert(bv[0].columns[c as int] == batches@[0].columns@[c as int]@);
                }
                match acc.append(&batches[i].columns[c]) {
                    Some(next) => {
                        acc = next;
                    },
                    None => {
                        return Err(EngineError::SchemaMismatch);
                    },
                }
                i += 1;
            }
            assert(bv.subrange(0, n as int) =~= bv);
            columns.push(acc);
            c += 1;
        }
        let num_rows = if ncols == 0 { 0 } else { total };
        let b = RecordBatch { schema: first.schema.copy(), columns, num_rows };
        proof {
            let cv = concat_view(bv);
            assert(bv[0] == first@);
            if ncols == 0 {
                assert forall|k: int| 0 <= k < bv.len() implies (#[trigger] bv[k]).num_rows == 0 by {
                    assert(bv[k].schema == bv[0].schema);
                }
                lemma_total_rows_zero(bv);
            }
            assert(b@.columns =~= cv.columns);
            assert forall|j: int| 0 <= j < b@.columns.len() implies (#[trigger] b@.columns[j]).values.len()
                == b@.num_rows && b@.columns[j].data_type == b@.schema[j].data_type by {
                lemma_concat_values_len(bv, j);
            }
        }
        Ok(b)
    }

    /// Whether the batch meets the batch invariant.
    pub fn validate(&self) -> (r: bool)
        ensures
            r == self.wf(),
    {
        if self.columns.len() != self.schema.fields.len() {
            assert(self@.columns.len() != self@.schema.len());
            return false;
        }
        if self.columns.len() == 0 {
            return self.num_rows == 0;
        }
        let mut i: usize = 0;
        while i < self.columns.len()
            invariant
                i <= self.columns@.len(),
                self.columns@.len() == self.schema@.len(),
                self.columns@.len() > 0,
                forall|k: int| 0 <= k < i ==> (#[trigger] self@.columns[k]).values.len() == self@.num_rows
                    && self@.columns[k].data_type == self@.schema[k].data_type,
            decreases self.columns@.len() - i,
        {
            assert(self@.columns[i as int] == self.columns@[i as int]@);
            if self.columns[i].len() != self.num_rows || self.columns[i].data_type() != self.schema.fields[i].data_type {
                return false;
            }
            i += 1;
        }
        true
    }

    /// A batch with no rows and one empty column per field.
    pub fn empty_of(schema: &Schema) -> (r: RecordBatch)
        ensures
            r.wf(),
            r@ == empty_view(schema@),
    {
        let mut columns: Vec<ColumnData> = Vec::with_capacity(schema.fields.len());
        let mut i: usize = 0;
        while i < schema.fields.len()
            invariant
                i <= schema@.len(),
                columns@.len() == i,
                forall|k: int| 0 <= k < i ==> (#[trigger] columns@[k])@ == (ColumnView {
                    data_type: schema@[k].data_type,
                    values: Seq::empty(),
                }),
            decreases schema@.len() - i,
        {
            columns.push(ColumnData::new_empty(schema.fields[i].data_type));
            i += 1;
        }
        let r = RecordBatch { schema: schema.copy(), columns, num_rows: 0 };
        assert(r@.columns =~= empty_view(schema@).columns);
        r
    }
}

/// The batch of `schema` with no rows.
pub open spec fn empty_view(schema: Seq<FieldView>) -> BatchView {
    BatchView {
        schema,
        columns: Seq::new(schema.len(), |k: int| ColumnView { data_type: schema[k].data_type, values: Seq::empty() }),
        num_rows: 0,
    }
}

} // verus!
