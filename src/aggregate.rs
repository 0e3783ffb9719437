use vstd::prelude::*;
use std::collections::HashMap;
use crate::batch::{all_names_found, usize_ints, batch_views, concat_view, resolve_names, same_schemas, total_rows, BatchView, RecordBatch};
use crate::column::{ColumnData, ColumnView, Datum};
use crate::error::EngineError;
use crate::logical_plan::{project_fields, string_views, AggregateFunction, Aggregation};
use crate::types::{find_field, lemma_find_field_bounds, DataType, Field, FieldView, Schema};

verus! {

/// The group key of row `r`: its cells in the grouping columns.
pub open spec fn row_key(b: BatchView, gcols: Seq<int>, r: int) -> Seq<Datum> {
    Seq::new(gcols.len(), |k: int| b.columns[gcols[k]].values[r])
}

pub open spec fn row_keys(b: BatchView, gcols: Seq<int>) -> Seq<Seq<Datum>> {
    Seq::new(b.num_rows, |r: int| row_key(b, gcols, r))
}

/// The first row of each distinct key, in order of first occurrence.
pub open spec fn firsts(keys: Seq<Seq<Datum>>) -> Seq<usize>
    decreases keys.len(),
{
    if keys.len() == 0 {
        Seq::empty()
    } else {
        let rest = firsts(keys.drop_last());
        if exists|j: int| 0 <= j < keys.len() - 1 && keys[j] == keys.last() {
            rest
        } else {
            rest.push((keys.len() - 1) as usize)
        }
    }
}

/// Number of rows whose key is `k`.
pub open spec fn count_key(keys: Seq<Seq<Datum>>, k: Seq<Datum>) -> nat
    decreases keys.len(),
{
    if keys.len() == 0 {
        0
    } else {
        count_key(keys.drop_last(), k) + if keys.last() == k { 1nat } else { 0nat }
    }
}

/// Number of rows whose key is `k` and whose cell in `vals` is not null.
pub open spec fn count_non_null(keys: Seq<Seq<Datum>>, vals: Seq<Datum>, k: Seq<Datum>) -> nat
    decreases keys.len(),
{
    if keys.len() == 0 {
        0
    } else {
        count_non_null(keys.drop_last(), vals, k) + if keys.last() == k && !(vals[keys.len() - 1] is Null) {
            1nat
        } else {
            0nat
        }
    }
}

pub open spec fn is_number(d: Datum) -> bool {
    d is Int32 || d is Int64 || d is Float64
}

/// The numeric cells of `vals` in rows whose key is `k`, in row order.
pub open spec fn numeric_inputs(keys: Seq<Seq<Datum>>, vals: Seq<Datum>, k: Seq<Datum>) -> Seq<Datum>
    decreases keys.len(),
{
    if keys.len() == 0 {
        Seq::empty()
    } else {
        let rest = numeric_inputs(keys.drop_last(), vals, k);
        if keys.last() == k && is_number(vals[keys.len() - 1]) {
            rest.push(vals[keys.len() - 1])
        } else {
            rest
        }
    }
}

/// Whether cells `i` and `j` of a column are equal (two nulls are equal).
fn cells_equal(c: &ColumnData, i: usize, j: usize) -> (r: bool)
    requires
        i < c.spec_len(),
        j < c.spec_len(),
    ensures
        r == (c.values()[i as int] == c.values()[j as int]),
{
    match c {
        ColumnData::Int32(v) => match (v[i], v[j]) {
            (Some(p), Some(q)) => p == q,
            (None, None) => true,
            _ => false,
        },
        ColumnData::Int64(v) => match (v[i], v[j]) {
            (Some(p), Some(q)) => p == q,
            (None, None) => true,
            _ => false,
        },
        ColumnData::Float64(v) => match (v[i], v[j]) {
            (Some(p), Some(q)) => p == q,
            (None, None) => true,
            _ => false,
        },
        ColumnData::Utf8(v) => match (&v[i], &v[j]) {
            (Some(p), Some(q)) => crate::types::str_eq(p.as_str(), q.as_str()),
            (None, None) => true,
            _ => false,
        },
        ColumnData::Boolean(v) => match (v[i], v[j]) {
            (Some(p), Some(q)) => p == q,
            (None, None) => true,
            _ => false,
        },
    }
}

pub open spec fn gcols_ok(b: BatchView, gcols: Seq<int>) -> bool {
    forall|k: int| 0 <= k < gcols.len() ==> 0 <= #[trigger] gcols[k] < b.columns.len()
}

/// Whether rows `i` and `j` have the same group key.
fn same_key(b: &RecordBatch, gcols: &Vec<usize>, i: usize, j: usize) -> (r: bool)
    requires
        b.wf(),
        gcols_ok(b@, usize_ints(gcols@)),
        i < b.num_rows,
        j < b.num_rows,
    ensures
        r == (row_key(b@, usize_ints(gcols@), i as int) == row_key(b@, usize_ints(gcols@), j as int)),
{
    let ghost gc = usize_ints(gcols@);
    let mut k: usize = 0;
    while k < gcols.len()
        invariant
            k <= gcols@.len(),
            b.wf(),
            gc == usize_ints(gcols@),
            gcols_ok(b@, gc),
            i < b.num_rows,
            j < b.num_rows,
            forall|m: int| 0 <= m < k ==> b@.columns[gc[m]].values[i as int] == b@.columns[gc[m]].values[j as int],
        decreases gcols@.len() - k,
    {
        let c = gcols[k];
        assert(gc[k as int] == c as int);
        assert(b@.columns[c as int] == b.columns@[c as int]@);
        if !cells_equal(&b.columns[c], i, j) {
            assert(row_key(b@, gc, i as int)[k as int] != row_key(b@, gc, j as int)[k as int]);
            return false;
        }
        k += 1;
    }
    assert(row_key(b@, gc, i as int) =~= row_key(b@, gc, j as int));
    true
}

/// The grouping of a batch's rows: the first row of each group, in order of
/// first occurrence, and the group of every row.
pub struct Grouping {
    pub firsts: Vec<usize>,
    pub group_of: Vec<usize>,
}

pub open spec fn grouping_ok(keys: Seq<Seq<Datum>>, g: Grouping) -> bool {
    &&& g.firsts@ == firsts(keys)
    &&& g.group_of@.len() == keys.len()
    &&& forall|r: int| 0 <= r < keys.len() ==> (#[trigger] g.group_of@[r]) < g.firsts@.len()
    &&& forall|r: int| 0 <= r < keys.len() ==> keys[g.firsts@[#[trigger] g.group_of@[r] as int] as int] == keys[r]
    &&& forall|a: int| 0 <= a < g.firsts@.len() ==> (#[trigger] g.firsts@[a]) < keys.len()
    &&& forall|a: int, c: int| 0 <= a < g.firsts@.len() && 0 <= c < g.firsts@.len() && a != c ==>
        keys[g.firsts@[a] as int] != keys[g.firsts@[c] as int]
}

/// Hash of a group key: the FNV-1a mix of its cells' hashes.
pub open spec fn key_seq_hash(key: Seq<Datum>) -> u64
    decreases key.len(),
{
    if key.len() == 0 {
        0xcbf29ce484222325u64
    } else {
        crate::join::mix(key_seq_hash(key.drop_last()), crate::join::key_hash(key.last()))
    }
}

/// The keys of the groups found so far.
pub open spec fn rep_keys(keys: Seq<Seq<Datum>>, reps: Seq<usize>) -> Seq<Seq<Datum>> {
    Seq::new(reps.len(), |a: int| keys[reps[a] as int])
}

/// The groups whose key hashes to `h`, in ascending order.
pub open spec fn hash_groups(gk: Seq<Seq<Datum>>, h: u64) -> Seq<usize>
    decreases gk.len(),
{
    if gk.len() == 0 {
        Seq::empty()
    } else {
        let rest = hash_groups(gk.drop_last(), h);
        if key_seq_hash(gk.last()) == h {
            rest.push((gk.len() - 1) as usize)
        } else {
            rest
        }
    }
}

/// `t@[h]` lists the groups whose key hashes to `h`.
pub open spec fn group_table_ok(t: Map<u64, Vec<usize>>, gk: Seq<Seq<Datum>>) -> bool {
    forall|h: u64| #[trigger] hash_groups(gk, h) == if t.contains_key(h) { t[h]@ } else { Seq::<usize>::empty() }
}

proof fn lemma_hash_groups_bounds(gk: Seq<Seq<Datum>>, h: u64)
    requires
        gk.len() <= usize::MAX,
    ensures
        forall|q: int| 0 <= q < hash_groups(gk, h).len() ==> (#[trigger] hash_groups(gk, h)[q]) < gk.len(),
    decreases gk.len(),
{
    if gk.len() > 0 {
        let init = gk.drop_last();
        lemma_hash_groups_bounds(init, h);
        let hg = hash_groups(gk, h);
        let h0 = hash_groups(init, h);
        assert forall|q: int| 0 <= q < hg.len() implies (#[trigger] hg[q]) < gk.len() by {
            if q < h0.len() {
                assert(hg[q] == h0[q]);
            }
        }
    }
}

proof fn lemma_hash_groups_complete(gk: Seq<Seq<Datum>>, h: u64, a: int)
    requires
        gk.len() <= usize::MAX,
        0 <= a < gk.len(),
        key_seq_hash(gk[a]) == h,
    ensures
        exists|q: int| 0 <= q < hash_groups(gk, h).len() && hash_groups(gk, h)[q] == a,
    decreases gk.len(),
{
    let init = gk.drop_last();
    let hg = hash_groups(gk, h);
    if a == gk.len() - 1 {
        assert(hg[hg.len() - 1] == a);
    } else {
        lemma_hash_groups_complete(init, h, a);
        let q = choose|q: int| 0 <= q < hash_groups(init, h).len() && hash_groups(init, h)[q] == a;
        assert(hg[q] == a);
    }
}

/// The hash of row `r`'s group key.
fn row_hash(b: &RecordBatch, gcols: &Vec<usize>, r: usize) -> (h: u64)
    requires
        b.wf(),
        gcols_ok(b@, usize_ints(gcols@)),
        r < b.num_rows,
    ensures
        h == key_seq_hash(row_key(b@, usize_ints(gcols@), r as int)),
{
    let ghost key = row_key(b@, usize_ints(gcols@), r as int);
    let mut h: u64 = 0xcbf29ce484222325u64;
    let mut k: usize = 0;
    assert(key.subrange(0, 0).len() == 0);
    while k < gcols.len()
        invariant
            k <= gcols@.len(),
            b.wf(),
            gcols_ok(b@, usize_ints(gcols@)),
            r < b.num_rows,
            key == row_key(b@, usize_ints(gcols@), r as int),
            h == key_seq_hash(key.subrange(0, k as int)),
        decreases gcols@.len() - k,
    {
        let c = gcols[k];
        assert(usize_ints(gcols@)[k as int] == c as int);
        assert(b@.columns[c as int] == b.columns@[c as int]@);
        let cell = match crate::join::hash_at(&b.columns[c], r) {
            Some(x) => x,
            None => 0,
        };
        assert(key.subrange(0, k + 1).drop_last() =~= key.subrange(0, k as int));
        h = crate::join::mix_exec(h, cell);
        k += 1;
    }
    assert(key.subrange(0, k as int) =~= key);
    h
}

/// A copy of the table's list for `h`; empty when there is none.
fn bucket_of(table: &HashMap<u64, Vec<usize>>, h: u64) -> (r: Vec<usize>)
    ensures
        r@ == if table@.contains_key(h) { table@[h]@ } else { Seq::<usize>::empty() },
{
    broadcast use vstd::std_specs::hash::group_hash_axioms;
    match table.get(&h) {
        Some(v) => {
            let mut out: Vec<usize> = Vec::with_capacity(v.len());
            let mut k: usize = 0;
            while k < v.len()
                invariant
                    k <= v@.len(),
                    out@ =~= v@.subrange(0, k as int),
                decreases v@.len() - k,
            {
                out.push(v[k]);
                k += 1;
            }
            assert(v@.subrange(0, k as int) =~= v@);
            out
        },
        None => Vec::new(),
    }
}

/// Assigns every row of `b` to the group of its key. Groups are kept in a
/// hash table keyed by the hash of their key; a row is compared only with
/// the groups of its bucket.
pub fn assign_groups(b: &RecordBatch, gcols: &Vec<usize>) -> (r: Grouping)
    requires
        b.wf(),
        gcols_ok(b@, usize_ints(gcols@)),
    ensures
        grouping_ok(row_keys(b@, usize_ints(gcols@)), r),
{
    broadcast use vstd::std_specs::hash::group_hash_axioms;
    let ghost keys = row_keys(b@, usize_ints(gcols@));
    let n = b.num_rows;
    let mut reps: Vec<usize> = Vec::new();
    let mut group_of: Vec<usize> = Vec::with_capacity(n);
    let mut table: HashMap<u64, Vec<usize>> = HashMap::new();
    assert(group_table_ok(table@, rep_keys(keys, reps@)));
    let mut r: usize = 0;
    while r < n
        invariant
            r <= n,
            n == b.num_rows,
            b.wf(),
            gcols_ok(b@, usize_ints(gcols@)),
            keys == row_keys(b@, usize_ints(gcols@)),
            reps@ == firsts(keys.subrange(0, r as int)),
            reps@.len() <= r,
            group_table_ok(table@, rep_keys(keys, reps@)),
            group_of@.len() == r,
            forall|j: int| 0 <= j < r ==> (#[trigger] group_of@[j]) < reps@.len(),
            forall|j: int| 0 <= j < r ==> keys[reps@[#[trigger] group_of@[j] as int] as int] == keys[j],
            forall|a: int| 0 <= a < reps@.len() ==> (#[trigger] reps@[a]) < r,
            forall|a: int, c: int| 0 <= a < reps@.len() && 0 <= c < reps@.len() && a != c ==>
                keys[reps@[a] as int] != keys[reps@[c] as int],
        decreases n - r,
    {
        let ghost pre = keys.subrange(0, r + 1);
        let ghost gk = rep_keys(keys, reps@);
        assert(pre.drop_last() =~= keys.subrange(0, r as int));
        let h = row_hash(b, gcols, r);
        let mut bucket = bucket_of(&table, h);
        proof {
            assert(hash_groups(gk, h) == bucket@);
            lemma_hash_groups_bounds(gk, h);
        }
        let mut q: usize = 0;
        let mut found = false;
        while q < bucket.len() && !found
            invariant
                q <= bucket@.len(),
                bucket@ == hash_groups(gk, h),
                forall|k: int| 0 <= k < bucket@.len() ==> (#[trigger] bucket@[k]) < reps@.len(),
                gk == rep_keys(keys, reps@),
                r < n,
                n == b.num_rows,
                b.wf(),
                gcols_ok(b@, usize_ints(gcols@)),
                keys == row_keys(b@, usize_ints(gcols@)),
                forall|a: int| 0 <= a < reps@.len() ==> (#[trigger] reps@[a]) < r,
                found ==> q < bucket@.len() && keys[reps@[bucket@[q as int] as int] as int] == keys[r as int],
                !found ==> forall|k: int| 0 <= k < q ==> keys[reps@[#[trigger] bucket@[k] as int] as int] != keys[r as int],
            decreases bucket@.len() - q + (if found { 0int } else { 1int }),
        {
            if same_key(b, gcols, reps[bucket[q]], r) {
                found = true;
            } else {
                q += 1;
            }
        }
        if found {
            let g = bucket[q];
            proof {
                let j = reps@[g as int] as int;
                assert(0 <= j < pre.len() - 1 && pre[j] == pre.last());
            }
            group_of.push(g);
        } else {
            proof {
                assert forall|a: int| 0 <= a < reps@.len() implies keys[reps@[a] as int] != keys[r as int] by {
                    if keys[reps@[a] as int] == keys[r as int] {
                        assert(gk[a] == keys[r as int]);
                        lemma_hash_groups_complete(gk, h, a);
                        let k = choose|k: int| 0 <= k < hash_groups(gk, h).len() && hash_groups(gk, h)[k] == a;
                        assert(keys[reps@[bucket@[k] as int] as int] != keys[r as int]);
                    }
                }
                assert forall|j: int| 0 <= j < pre.len() - 1 implies pre[j] != pre.last() by {
                    assert(keys[reps@[group_of@[j] as int] as int] == keys[j]);
                }
            }
            let g = reps.len();
            let ghost before = table@;
            reps.push(r);
            group_of.push(g);
            bucket.push(g);
            table.insert(h, bucket);
            proof {
                let gk2 = rep_keys(keys, reps@);
                assert(gk2.drop_last() =~= gk);
                assert(gk2.last() == keys[r as int]);
                assert forall|h2: u64| #[trigger] hash_groups(gk2, h2) == if table@.contains_key(h2) { table@[h2]@ } else { Seq::<usize>::empty() } by {
                    if h2 != h {
                        assert(hash_groups(gk, h2) == if before.contains_key(h2) { before[h2]@ } else { Seq::<usize>::empty() });
                    }
                }
            }
        }
        r += 1;
    }
    assert(keys.subrange(0, n as int) =~= keys);
    Grouping { firsts: reps, group_of }
}

/// A numeric input of SUM, AVG, MIN or MAX; a `Float64` is a bit pattern.
#[derive(Clone, Copy, Debug)]
pub enum Number {
    Int32(i32),
    Int64(i64),
    Float64(u64),
}

impl View for Number {
    type V = Datum;

    open spec fn view(&self) -> Datum {
        match *self {
            Number::Int32(x) => Datum::Int32(x),
            Number::Int64(x) => Datum::Int64(x),
            Number::Float64(x) => Datum::Float64(x),
        }
    }
}

pub open spec fn number_views(v: Seq<Number>) -> Seq<Datum> {
    v.map_values(|n: Number| n@)
}

/// Number of rows of group `g`.
fn count_group(group_of: &Vec<usize>, g: usize, keys: Ghost<Seq<Seq<Datum>>>, grouping: Ghost<Grouping>) -> (r: usize)
    requires
        grouping_ok(keys@, grouping@),
        group_of@ == grouping@.group_of@,
        g < grouping@.firsts@.len(),
    ensures
        r == count_key(keys@, keys@[grouping@.firsts@[g as int] as int]),
{
    let ghost kg = keys@[grouping@.firsts@[g as int] as int];
    let mut count: usize = 0;
    let mut r: usize = 0;
    while r < group_of.len()
        invariant
            r <= group_of@.len(),
            grouping_ok(keys@, grouping@),
            group_of@ == grouping@.group_of@,
            g < grouping@.firsts@.len(),
            kg == keys@[grouping@.firsts@[g as int] as int],
            count == count_key(keys@.subrange(0, r as int), kg),
            count <= r,
        decreases group_of@.len() - r,
    {
        assert(keys@.subrange(0, r + 1).drop_last() =~= keys@.subrange(0, r as int));
        let gr = group_of[r];
        assert(keys@[grouping@.firsts@[gr as int] as int] == keys@[r as int]);
        if gr == g {
            count += 1;
        }
        r += 1;
    }
    assert(keys@.subrange(0, r as int) =~= keys@);
    count
}

/// Number of rows of group `g` whose cell in `col` is not null.
fn count_group_non_null(
    col: &ColumnData,
    group_of: &Vec<usize>,
    g: usize,
    keys: Ghost<Seq<Seq<Datum>>>,
    grouping: Ghost<Grouping>,
) -> (r: usize)
    requires
        grouping_ok(keys@, grouping@),
        group_of@ == grouping@.group_of@,
        g < grouping@.firsts@.len(),
        col.spec_len() == keys@.len(),
    ensures
        r == count_non_null(keys@, col.values(), keys@[grouping@.firsts@[g as int] as int]),
{
    let ghost kg = keys@[grouping@.firsts@[g as int] as int];
    let mut count: usize = 0;
    let mut r: usize = 0;
    while r < group_of.len()
        invariant
            r <= group_of@.len(),
            grouping_ok(keys@, grouping@),
            group_of@ == grouping@.group_of@,
            col.spec_len() == keys@.len(),
            g < grouping@.firsts@.len(),
            kg == keys@[grouping@.firsts@[g as int] as int],
            count == count_non_null(keys@.subrange(0, r as int), col.values(), kg),
            count <= r,
        decreases group_of@.len() - r,
    {
        assert(keys@.subrange(0, r + 1).drop_last() =~= keys@.subrange(0, r as int));
        let gr = group_of[r];
        assert(keys@[grouping@.firsts@[gr as int] as int] == keys@[r as int]);
        if gr == g && !col.is_null(r) {
            count += 1;
        }
        r += 1;
    }
    assert(keys@.subrange(0, r as int) =~= keys@);
    count
}

/// Cell `r` of a column as a number, if it is a non-null number.
fn number_at(col: &ColumnData, r: usize) -> (o: Option<Number>)
    requires
        r < col.spec_len(),
    ensures
        o is Some <==> is_number(col.values()[r as int]),
        o matches Some(x) ==> x@ == col.values()[r as int],
{
    match col {
        ColumnData::Int32(v) => match v[r] {
            Some(x) => Some(Number::Int32(x)),
            None => None,
        },
        ColumnData::Int64(v) => match v[r] {
            Some(x) => Some(Number::Int64(x)),
            None => None,
        },
        ColumnData::Float64(v) => match v[r] {
            Some(x) => Some(Number::Float64(x)),
            None => None,
        },
        _ => None,
    }
}

/// The numeric cells of `col` in the rows of group `g`, in row order.
fn group_numbers(
    col: &ColumnData,
    group_of: &Vec<usize>,
    g: usize,
    keys: Ghost<Seq<Seq<Datum>>>,
    grouping: Ghost<Grouping>,
) -> (r: Vec<Number>)
    requires
        grouping_ok(keys@, grouping@),
        group_of@ == grouping@.group_of@,
        g < grouping@.firsts@.len(),
        col.spec_len() == keys@.len(),
    ensures
        number_views(r@) == numeric_inputs(keys@, col.values(), keys@[grouping@.firsts@[g as int] as int]),
{
    let ghost kg = keys@[grouping@.firsts@[g as int] as int];
    let mut out: Vec<Number> = Vec::new();
    let mut r: usize = 0;
    while r < group_of.len()
        invariant
            r <= group_of@.len(),
            grouping_ok(keys@, grouping@),
            group_of@ == grouping@.group_of@,
            col.spec_len() == keys@.len(),
            g < grouping@.firsts@.len(),
            kg == keys@[grouping@.firsts@[g as int] as int],
            number_views(out@) == numeric_inputs(keys@.subrange(0, r as int), col.values(), kg),
        decreases group_of@.len() - r,
    {
        assert(keys@.subrange(0, r + 1).drop_last() =~= keys@.subrange(0, r as int));
        let gr = group_of[r];
        assert(keys@[grouping@.firsts@[gr as int] as int] == keys@[r as int]);
        if gr == g {
            match number_at(col, r) {
                Some(x) => {
                    let ghost before = out@;
                    out.push(x);
                    assert(number_views(out@) =~= number_views(before).push(x@));
                },
                None => {},
            }
        }
        r += 1;
    }
    assert(keys@.subrange(0, r as int) =~= keys@);
    out
}

/// The output field of an aggregation: COUNT gives Int64, the others Float64.
pub open spec fn agg_field(a: Aggregation) -> FieldView {
    FieldView {
        name: a.alias@,
        data_type: if a.function == AggregateFunction::Count { DataType::Int64 } else { DataType::Float64 },
        nullable: true,
    }
}

pub open spec fn agg_fields(aggs: Seq<Aggregation>) -> Seq<FieldView> {
    aggs.map_values(|a: Aggregation| agg_field(a))
}

/// Every aggregation input column is in the schema.
pub open spec fn agg_columns_found(schema: Seq<FieldView>, aggs: Seq<Aggregation>) -> bool {
    forall|a: int| 0 <= a < aggs.len() ==> ((#[trigger] aggs[a]).column matches Some(c) ==> find_field(schema, c@) is Some)
}

/// The output schema: the group fields, then one field per aggregation.
pub open spec fn aggregate_schema(input: Seq<FieldView>, group_by: Seq<Seq<char>>, aggs: Seq<Aggregation>) -> Seq<FieldView> {
    project_fields(input, group_by)->Some_0 + agg_fields(aggs)
}

/// The cells an aggregation reads: its column, or nothing for `COUNT(*)`.
pub open spec fn agg_values(b: BatchView, a: Aggregation) -> Seq<Datum> {
    match a.column {
        Some(c) => b.columns[find_field(b.schema, c@)->Some_0].values,
        None => Seq::new(b.num_rows, |r: int| Datum::Null),
    }
}

/// A float result cell is what `finish` returns for the group's numeric inputs.
pub open spec fn float_cell_ok<F: Fn(AggregateFunction, Vec<Number>) -> Option<u64>>(
    finish: F,
    func: AggregateFunction,
    inputs: Seq<Datum>,
    cell: Datum,
) -> bool {
    exists|v: Vec<Number>, o: Option<u64>|
        number_views(v@) == inputs && #[trigger] finish.ensures((func, v), o) && cell == crate::column::f64_datum(o)
}

/// Column `a` of the aggregations is right for batch `b`.
pub open spec fn agg_column_ok<F: Fn(AggregateFunction, Vec<Number>) -> Option<u64>>(
    b: BatchView,
    group_by: Seq<Seq<char>>,
    agg: Aggregation,
    finish: F,
    col: ColumnView,
) -> bool {
    let keys = row_keys(b, resolve_names(b.schema, group_by));
    let reps = firsts(keys);
    let vals = agg_values(b, agg);
    if agg.function == AggregateFunction::Count {
        col == (ColumnView {
            data_type: DataType::Int64,
            values: Seq::new(
                reps.len(),
                |g: int|
                    Datum::Int64(
                        (if agg.column is None { count_key(keys, keys[reps[g] as int]) } else {
                            count_non_null(keys, vals, keys[reps[g] as int])
                        }) as i64,
                    ),
            ),
        })
    } else {
        &&& col.data_type == DataType::Float64
        &&& col.values.len() == reps.len()
        &&& forall|g: int| 0 <= g < reps.len() ==> float_cell_ok(
            finish,
            agg.function,
            numeric_inputs(keys, vals, keys[reps[g] as int]),
            #[trigger] col.values[g],
        )
    }
}

/// The aggregated batch: one row per distinct group key in order of first
/// occurrence; group columns from each group's first row; COUNT columns exact;
/// SUM, AVG, MIN and MAX columns as `finish` computes them from the group's
/// numeric inputs in row order.
pub open spec fn is_aggregate_of<F: Fn(AggregateFunction, Vec<Number>) -> Option<u64>>(
    b: BatchView,
    group_by: Seq<Seq<char>>,
    aggs: Seq<Aggregation>,
    finish: F,
    out: BatchView,
) -> bool {
    let gcols = resolve_names(b.schema, group_by);
    let reps = firsts(row_keys(b, gcols));
    let ng = group_by.len();
    &&& out.schema == aggregate_schema(b.schema, group_by, aggs)
    &&& out.num_rows == (if ng + aggs.len() == 0 { 0 } else { reps.len() })
    &&& out.columns.len() == ng + aggs.len()
    &&& forall|k: int| 0 <= k < ng ==> (#[trigger] out.columns[k]) == (ColumnView {
        data_type: b.columns[gcols[k]].data_type,
        values: crate::column::take_seq(b.columns[gcols[k]].values, reps),
    })
    &&& forall|a: int| 0 <= a < aggs.len() ==> agg_column_ok(b, group_by, aggs[a], finish, #[trigger] out.columns[ng + a])
}

/// The column of group `g`'s COUNT.
fn count_column(
    b: &RecordBatch,
    agg_col: Option<usize>,
    grouping: &Grouping,
    keys: Ghost<Seq<Seq<Datum>>>,
) -> (r: ColumnData)
    requires
        b.wf(),
        keys@.len() == b.num_rows,
        b.num_rows <= i64::MAX,
        grouping_ok(keys@, *grouping),
        agg_col matches Some(c) ==> c < b.columns@.len(),
    ensures
        r@ == (ColumnView {
            data_type: DataType::Int64,
            values: Seq::new(
                grouping.firsts@.len(),
                |g: int|
                    Datum::Int64(
                        (match agg_col {
                            None => count_key(keys@, keys@[grouping.firsts@[g] as int]),
                            Some(c) => count_non_null(keys@, b@.columns[c as int].values, keys@[grouping.firsts@[g] as int]),
                        }) as i64,
                    ),
            ),
        }),
{
    let ng = grouping.firsts.len();
    let mut out: Vec<Option<i64>> = Vec::with_capacity(ng);
    let mut g: usize = 0;
    while g < ng
        invariant
            g <= ng,
            ng == grouping.firsts@.len(),
            b.wf(),
            keys@.len() == b.num_rows,
            b.num_rows <= i64::MAX,
            grouping_ok(keys@, *grouping),
            agg_col matches Some(c) ==> c < b.columns@.len(),
            out@.len() == g,
            forall|j: int| 0 <= j < g ==> (#[trigger] out@[j]) == Some(
                (match agg_col {
                    None => count_key(keys@, keys@[grouping.firsts@[j] as int]),
                    Some(c) => count_non_null(keys@, b@.columns[c as int].values, keys@[grouping.firsts@[j] as int]),
                }) as i64,
            ),
        decreases ng - g,
    {
        let n = match agg_col {
            None => count_group(&grouping.group_of, g, keys, Ghost(*grouping)),
            Some(c) => {
                assert(b@.columns[c as int] == b.columns@[c as int]@);
                count_group_non_null(&b.columns[c], &grouping.group_of, g, keys, Ghost(*grouping))
            },
        };
        out.push(Some(n as i64));
        g += 1;
    }
    let r = ColumnData::Int64(out);
    assert(r@.values =~= Seq::new(
        grouping.firsts@.len(),
        |g: int|
            Datum::Int64(
                (match agg_col {
                    None => count_key(keys@, keys@[grouping.firsts@[g] as int]),
                    Some(c) => count_non_null(keys@, b@.columns[c as int].values, keys@[grouping.firsts@[g] as int]),
                }) as i64,
            ),
    ));
    r
}

/// The column of a SUM, AVG, MIN or MAX: `finish` applied to each group's numeric inputs.
fn float_column<F: Fn(AggregateFunction, Vec<Number>) -> Option<u64>>(
    b: &RecordBatch,
    func: AggregateFunction,
    agg_col: Option<usize>,
    grouping: &Grouping,
    keys: Ghost<Seq<Seq<Datum>>>,
    finish: &F,
) -> (r: ColumnData)
    requires
        b.wf(),
        keys@.len() == b.num_rows,
        grouping_ok(keys@, *grouping),
        agg_col matches Some(c) ==> c < b.columns@.len(),
        forall|f: AggregateFunction, v: Vec<Number>| #[trigger] finish.requires((f, v)),
    ensures
        r@.data_type == DataType::Float64,
        r@.values.len() == grouping.firsts@.len(),
        forall|g: int| 0 <= g < grouping.firsts@.len() ==> float_cell_ok(
            *finish,
            func,
            match agg_col {
                None => Seq::<Datum>::empty(),
                Some(c) => numeric_inputs(keys@, b@.columns[c as int].values, keys@[grouping.firsts@[g] as int]),
            },
            #[trigger] r@.values[g],
        ),
{
    let ng = grouping.firsts.len();
    let mut out: Vec<Option<u64>> = Vec::with_capacity(ng);
    let mut g: usize = 0;
    while g < ng
        invariant
            g <= ng,
            ng == grouping.firsts@.len(),
            b.wf(),
            keys@.len() == b.num_rows,
            grouping_ok(keys@, *grouping),
            agg_col matches Some(c) ==> c < b.columns@.len(),
            forall|f: AggregateFunction, v: Vec<Number>| #[trigger] finish.requires((f, v)),
            out@.len() == g,
            forall|j: int| 0 <= j < g ==> float_cell_ok(
                *finish,
                func,
                match agg_col {
                    None => Seq::<Datum>::empty(),
                    Some(c) => numeric_inputs(keys@, b@.columns[c as int].values, keys@[grouping.firsts@[j] as int]),
                },
                #[trigger] crate::column::f64_datum(out@[j]),
            ),
        decreases ng - g,
    {
        let nums = match agg_col {
            None => Vec::new(),
            Some(c) => {
                assert(b@.columns[c as int] == b.columns@[c as int]@);
                group_numbers(&b.columns[c], &grouping.group_of, g, keys, Ghost(*grouping))
            },
        };
        let ghost gv = nums;
        proof {
            if agg_col is None {
                assert(number_views(gv@) =~= Seq::<Datum>::empty());
            }
        }
        let o = finish(func, nums);
        out.push(o);
        g += 1;
    }
    let r = ColumnData::Float64(out);
    assert forall|g: int| 0 <= g < grouping.firsts@.len() implies r@.values[g] == crate::column::f64_datum(out@[g]) by {}
    r
}

/// Aggregate operator: GROUP BY with COUNT, SUM, AVG, MIN and MAX. Rows are
/// grouped by comparing their key with the first row of each group.
pub struct AggregateOperator {
    pub group_by: Vec<String>,
    pub aggs: Vec<Aggregation>,
    pub schema: Schema,
}

pub open spec fn aggregate_ok(schema: Seq<FieldView>, group_by: Seq<Seq<char>>, aggs: Seq<Aggregation>) -> bool {
    all_names_found(schema, group_by) && agg_columns_found(schema, aggs)
}

/// The output fields of the aggregations.
fn agg_output_fields(aggs: &Vec<Aggregation>) -> (r: Vec<Field>)
    ensures
        r@.map_values(|f: Field| f@) == agg_fields(aggs@),
{
    let mut out: Vec<Field> = Vec::with_capacity(aggs.len());
    let mut a: usize = 0;
    while a < aggs.len()
        invariant
            a <= aggs@.len(),
            out@.len() == a,
            forall|j: int| 0 <= j < a ==> (#[trigger] out@[j])@ == agg_field(aggs@[j]),
        decreases aggs@.len() - a,
    {
        let t = if aggs[a].function == AggregateFunction::Count {
            DataType::Int64
        } else {
            DataType::Float64
        };
        out.push(Field { name: aggs[a].alias.clone(), data_type: t, nullable: true });
        a += 1;
    }
    assert(out@.map_values(|f: Field| f@) =~= agg_fields(aggs@));
    out
}

/// Resolves each aggregation's input column.
fn resolve_agg_columns(schema: &Schema, aggs: &Vec<Aggregation>) -> (r: Result<Vec<Option<usize>>, EngineError>)
    ensures
        r is Ok <==> agg_columns_found(schema@, aggs@),
        r is Err ==> r matches Err(EngineError::UnknownColumn(_)),
        r matches Ok(v) ==> v@.len() == aggs@.len() && forall|a: int| 0 <= a < aggs@.len() ==> match (#[trigger] aggs@[a]).column {
            None => v@[a] is None,
            Some(c) => v@[a] matches Some(i) && i as int == find_field(schema@, c@)->Some_0 && i < schema@.len(),
        },
{
    let mut out: Vec<Option<usize>> = Vec::with_capacity(aggs.len());
    let mut a: usize = 0;
    while a < aggs.len()
        invariant
            a <= aggs@.len(),
            out@.len() == a,
            forall|j: int| 0 <= j < a ==> match (#[trigger] aggs@[j]).column {
                None => out@[j] is None,
                Some(c) => find_field(schema@, c@) is Some && (out@[j] matches Some(i) && i as int == find_field(schema@, c@)->Some_0 && i < schema@.len()),
            },
        decreases aggs@.len() - a,
    {
        match &aggs[a].column {
            None => {
                out.push(None);
            },
            Some(c) => {
                proof {
                    lemma_find_field_bounds(schema@, c@);
                }
                match schema.index_of(c.as_str()) {
                    Some(i) => {
                        out.push(Some(i));
                    },
                    None => {
                        return Err(EngineError::UnknownColumn(c.clone()));
                    },
                }
            },
        }
        a += 1;
    }
    Ok(out)
}

/// Resolves the group columns.
pub fn resolve_group_columns(schema: &Schema, names: &Vec<String>) -> (r: Result<Vec<usize>, EngineError>)
    ensures
        r is Ok <==> all_names_found(schema@, string_views(names@)),
        r is Err ==> r matches Err(EngineError::UnknownColumn(_)),
        r matches Ok(v) ==> usize_ints(v@) == resolve_names(schema@, string_views(names@))
            && forall|k: int| 0 <= k < v@.len() ==> #[trigger] v@[k] < schema@.len(),
{
    let ghost nv = string_views(names@);
    let mut out: Vec<usize> = Vec::with_capacity(names.len());
    let mut k: usize = 0;
    while k < names.len()
        invariant
            k <= names@.len(),
            nv == string_views(names@),
            out@.len() == k,
            forall|j: int| 0 <= j < k ==> (#[trigger] find_field(schema@, nv[j])) is Some,
            forall|j: int| 0 <= j < k ==> #[trigger] out@[j] as int == find_field(schema@, nv[j])->Some_0,
            forall|j: int| 0 <= j < k ==> #[trigger] out@[j] < schema@.len(),
        decreases names@.len() - k,
    {
        proof {
            lemma_find_field_bounds(schema@, nv[k as int]);
        }
        match schema.index_of(names[k].as_str()) {
            Some(i) => {
                out.push(i);
            },
            None => {
                return Err(EngineError::UnknownColumn(names[k].clone()));
            },
        }
        k += 1;
    }
    assert(usize_ints(out@) =~= resolve_names(schema@, nv));
    Ok(out)
}

impl AggregateOperator {
    /// Checks the group and aggregation columns and fixes the output schema.
    pub fn new(group_by: Vec<String>, aggs: Vec<Aggregation>, input_schema: Schema) -> (r: Result<AggregateOperator, EngineError>)
        ensures
            r is Ok <==> aggregate_ok(input_schema@, string_views(group_by@), aggs@),
            r is Err ==> r matches Err(EngineError::UnknownColumn(_)),
            r matches Ok(op) ==> op.group_by == group_by && op.aggs == aggs && op.schema@
                == aggregate_schema(input_schema@, string_views(group_by@), aggs@),
    {
        let schema = output_schema(&input_schema, &group_by, &aggs)?;
        Ok(AggregateOperator { group_by, aggs, schema })
    }

    pub fn schema(&self) -> (r: &Schema)
        ensures
            r == &self.schema,
    {
        &self.schema
    }

    /// Aggregates the rows of one batch into one batch.
    pub fn hash_aggregate<F: Fn(AggregateFunction, Vec<Number>) -> Option<u64>>(
        &self,
        b: &RecordBatch,
        finish: &F,
    ) -> (r: Result<RecordBatch, EngineError>)
        requires
            b.wf(),
            forall|f: AggregateFunction, v: Vec<Number>| #[trigger] finish.requires((f, v)),
        ensures
            r is Ok <==> aggregate_ok(b.schema@, string_views(self.group_by@), self.aggs@) && b.num_rows <= i64::MAX,
            r matches Ok(out) ==> out.wf() && is_aggregate_of(b@, string_views(self.group_by@), self.aggs@, *finish, out@),
    {
        aggregate_batch(b, &self.group_by, &self.aggs, finish)
    }

    /// Aggregates all input rows together into one batch; with no input, one
    /// empty batch of the output schema.
    pub fn execute_many<F: Fn(AggregateFunction, Vec<Number>) -> Option<u64>>(
        &self,
        inputs: &[RecordBatch],
        finish: &F,
    ) -> (r: Result<Vec<RecordBatch>, EngineError>)
        requires
            forall|i: int| 0 <= i < inputs@.len() ==> (#[trigger] inputs@[i]).wf(),
            forall|f: AggregateFunction, v: Vec<Number>| #[trigger] finish.requires((f, v)),
        ensures
            inputs@.len() == 0 ==> (r matches Ok(v) && v@.len() == 1 && v@[0].wf() && v@[0]@
                == crate::batch::empty_view(self.schema@)),
            inputs@.len() > 0 ==> aggregate_many_ok(batch_views(inputs@), string_views(self.group_by@), self.aggs@, *finish, r),
    {
        if inputs.len() == 0 {
            let mut out: Vec<RecordBatch> = Vec::new();
            out.push(RecordBatch::empty_of(&self.schema));
            return Ok(out);
        }
        aggregate_many(inputs, &self.group_by, &self.aggs, finish)
    }
}

/// Aggregates the rows of one batch into one batch.
pub fn aggregate_batch<F: Fn(AggregateFunction, Vec<Number>) -> Option<u64>>(
    b: &RecordBatch,
    group_by: &Vec<String>,
    aggs: &Vec<Aggregation>,
    finish: &F,
) -> (r: Result<RecordBatch, EngineError>)
    requires
        b.wf(),
        forall|f: AggregateFunction, v: Vec<Number>| #[trigger] finish.requires((f, v)),
    ensures
        r is Ok <==> aggregate_ok(b.schema@, string_views(group_by@), aggs@) && b.num_rows <= i64::MAX,
        r matches Err(e) ==> (e is UnknownColumn && !aggregate_ok(b.schema@, string_views(group_by@), aggs@))
            || (e is OutOfRange && b.num_rows > i64::MAX),
        r matches Ok(out) ==> out.wf() && is_aggregate_of(b@, string_views(group_by@), aggs@, *finish, out@),
{
    let ghost gb = string_views(group_by@);
    let gcols = resolve_group_columns(&b.schema, &group_by)?;
    let acols = resolve_agg_columns(&b.schema, &aggs)?;
    if b.num_rows as u64 > i64::MAX as u64 {
        return Err(EngineError::OutOfRange);
    }
    let ghost gc = usize_ints(gcols@);
    let ghost keys = row_keys(b@, gc);
    assert(gc.len() == gcols@.len());
    assert(resolve_names(b.schema@, gb).len() == gb.len());
    let grouping = assign_groups(b, &gcols);
    let ngroups = grouping.firsts.len();
    let mut fields: Vec<Field> = Vec::new();
    let mut columns: Vec<ColumnData> = Vec::new();
    let mut k: usize = 0;
    while k < gcols.len()
        invariant
            k <= gcols@.len(),
            b.wf(),
            gc == usize_ints(gcols@),
            forall|j: int| 0 <= j < gcols@.len() ==> #[trigger] gcols@[j] < b.schema@.len(),
            grouping_ok(keys, grouping),
            keys == row_keys(b@, gc),
            fields@.len() == k,
            columns@.len() == k,
            forall|j: int| 0 <= j < k ==> (#[trigger] fields@[j])@ == b.schema@[gcols@[j] as int],
            forall|j: int| 0 <= j < k ==> (#[trigger] columns@[j])@ == (ColumnView {
                data_type: b@.columns[gc[j]].data_type,
                values: crate::column::take_seq(b@.columns[gc[j]].values, grouping.firsts@),
            }),
        decreases gcols@.len() - k,
    {
        let c = gcols[k];
        assert(b@.columns[c as int] == b.columns@[c as int]@);
        fields.push(b.schema.fields[c].copy());
        columns.push(b.columns[c].take(&grouping.firsts));
        k += 1;
    }
    let ng = gcols.len();
    let mut a: usize = 0;
    while a < aggs.len()
        invariant
            a <= aggs@.len(),
            b.wf(),
            ng == gcols@.len(),
            ng == gb.len(),
            gb == string_views(group_by@),
            gc == usize_ints(gcols@),
            gc == resolve_names(b.schema@, gb),
            b.num_rows <= i64::MAX,
            acols@.len() == aggs@.len(),
            forall|j: int| 0 <= j < aggs@.len() ==> match (#[trigger] aggs@[j]).column {
                None => acols@[j] is None,
                Some(c) => acols@[j] matches Some(i) && i as int == find_field(b.schema@, c@)->Some_0 && i < b.schema@.len(),
            },
            forall|f: AggregateFunction, v: Vec<Number>| #[trigger] finish.requires((f, v)),
            grouping_ok(keys, grouping),
            keys == row_keys(b@, gc),
            fields@.len() == ng + a,
            columns@.len() == ng + a,
            forall|j: int| 0 <= j < a ==> (#[trigger] fields@[ng + j])@ == agg_field(aggs@[j]),
            forall|j: int| 0 <= j < a ==> agg_column_ok(b@, gb, aggs@[j], *finish, (#[trigger] columns@[ng + j])@),
            forall|j: int| 0 <= j < ng ==> (#[trigger] fields@[j])@ == b.schema@[gcols@[j] as int],
            forall|j: int| 0 <= j < ng ==> (#[trigger] columns@[j])@ == (ColumnView {
                data_type: b@.columns[gc[j]].data_type,
                values: crate::column::take_seq(b@.columns[gc[j]].values, grouping.firsts@),
            }),
        decreases aggs@.len() - a,
    {
        let agg = &aggs[a];
        let t = if agg.function == AggregateFunction::Count {
            DataType::Int64
        } else {
            DataType::Float64
        };
        fields.push(Field { name: agg.alias.clone(), data_type: t, nullable: true });
        let ac = acols[a];
        let col = if agg.function == AggregateFunction::Count {
            count_column(b, ac, &grouping, Ghost(keys))
        } else {
            float_column(b, agg.function, ac, &grouping, Ghost(keys), finish)
        };
        proof {
            let reps = grouping.firsts@;
            let vals = agg_values(b@, *agg);
            if agg.column is None {
                assert(vals =~= Seq::new(b@.num_rows, |r: int| Datum::Null));
                if agg.function != AggregateFunction::Count {
                    assert forall|g: int| 0 <= g < reps.len() implies numeric_inputs(keys, vals, keys[reps[g] as int])
                        == Seq::<Datum>::empty() by {
                        lemma_numeric_inputs_nulls(keys, vals, keys[reps[g] as int]);
                    }
                }
            }
            if agg.function == AggregateFunction::Count {
                assert(col@.values =~= Seq::new(
                    reps.len(),
                    |g: int|
                        Datum::Int64(
                            (if agg.column is None { count_key(keys, keys[reps[g] as int]) } else {
                                count_non_null(keys, vals, keys[reps[g] as int])
                            }) as i64,
                        ),
                ));
            }
        }
        columns.push(col);
        a += 1;
    }
    let num_rows = if ng == 0 && aggs.len() == 0 {
        0
    } else {
        ngroups
    };
    let out = RecordBatch { schema: Schema { fields }, columns, num_rows };
    proof {
        let target = aggregate_schema(b.schema@, gb, aggs@);
        assert(project_fields(b.schema@, gb) is Some);
        assert forall|j: int| 0 <= j < out@.schema.len() implies out@.schema[j] == target[j] by {
            if j < ng {
                assert(gc[j] == gcols@[j] as int);
                assert(resolve_names(b.schema@, gb)[j] == find_field(b.schema@, gb[j])->Some_0);
                assert(fields@[j]@ == b.schema@[gcols@[j] as int]);
            } else {
                assert(fields@[ng + (j - ng)]@ == agg_field(aggs@[j - ng]));
            }
        }
        assert(out@.schema =~= target);
        assert forall|j: int| 0 <= j < out@.columns.len() implies (#[trigger] out@.columns[j]).values.len()
            == out@.num_rows && out@.columns[j].data_type == out@.schema[j].data_type by {
            if j < ng {
                assert(columns@[j]@ == out@.columns[j]);
            } else {
                assert(columns@[ng + (j - ng)]@ == out@.columns[j]);
                assert(agg_column_ok(b@, gb, aggs@[j - ng], *finish, columns@[ng + (j - ng)]@));
            }
        }
        assert forall|j: int| 0 <= j < ng implies (#[trigger] out@.columns[j]) == (ColumnView {
            data_type: b@.columns[gc[j]].data_type,
            values: crate::column::take_seq(b@.columns[gc[j]].values, grouping.firsts@),
        }) by {
            assert(columns@[j]@ == out@.columns[j]);
        }
        assert forall|j: int| 0 <= j < aggs@.len() implies agg_column_ok(b@, gb, aggs@[j], *finish, #[trigger] out@.columns[ng + j]) by {
            assert(columns@[ng + j]@ == out@.columns[ng + j]);
        }
    }
    Ok(out)
}

/// The output schema of an aggregation over `input`: the group fields, then
/// one field per aggregation.
pub fn output_schema(input: &Schema, group_by: &Vec<String>, aggs: &Vec<Aggregation>) -> (r: Result<Schema, EngineError>)
    ensures
        r is Ok <==> aggregate_ok(input@, string_views(group_by@), aggs@),
        r is Err ==> r matches Err(EngineError::UnknownColumn(_)),
        r matches Ok(s) ==> s@ == aggregate_schema(input@, string_views(group_by@), aggs@),
{
    let gs = crate::logical_plan::project_schema(input, group_by)?;
    let _ = resolve_agg_columns(input, aggs)?;
    let mut fields = gs.fields;
    let mut extra = agg_output_fields(aggs);
    fields.append(&mut extra);
    let schema = Schema { fields };
    proof {
        assert(schema@ =~= aggregate_schema(input@, string_views(group_by@), aggs@));
    }
    Ok(schema)
}

/// Aggregates the rows of a non-empty list of batches together into one batch.
pub fn aggregate_many<F: Fn(AggregateFunction, Vec<Number>) -> Option<u64>>(
    inputs: &[RecordBatch],
    group_by: &Vec<String>,
    aggs: &Vec<Aggregation>,
    finish: &F,
) -> (r: Result<Vec<RecordBatch>, EngineError>)
    requires
        inputs@.len() > 0,
        forall|i: int| 0 <= i < inputs@.len() ==> (#[trigger] inputs@[i]).wf(),
        forall|f: AggregateFunction, v: Vec<Number>| #[trigger] finish.requires((f, v)),
    ensures
        aggregate_many_ok(batch_views(inputs@), string_views(group_by@), aggs@, *finish, r),
{
    let combined = RecordBatch::concat(inputs)?;
    let b = aggregate_batch(&combined, group_by, aggs, finish)?;
    let mut out: Vec<RecordBatch> = Vec::new();
    out.push(b);
    Ok(out)
}

/// Checks the group and aggregation columns against `schema`.
pub fn check_aggregate(schema: &Schema, group_by: &Vec<String>, aggs: &Vec<Aggregation>) -> (r: Result<(), EngineError>)
    ensures
        r is Ok <==> aggregate_ok(schema@, string_views(group_by@), aggs@),
        r is Err ==> r matches Err(EngineError::UnknownColumn(_)),
{
    let _ = resolve_group_columns(schema, group_by)?;
    let _ = resolve_agg_columns(schema, aggs)?;
    Ok(())
}

pub proof fn lemma_numeric_inputs_nulls(keys: Seq<Seq<Datum>>, vals: Seq<Datum>, k: Seq<Datum>)
    requires
        vals.len() >= keys.len(),
        forall|r: int| 0 <= r < keys.len() ==> vals[r] is Null,
    ensures
        numeric_inputs(keys, vals, k) == Seq::<Datum>::empty(),
    decreases keys.len(),
{
    if keys.len() > 0 {
        lemma_numeric_inputs_nulls(keys.drop_last(), vals, k);
    }
}

/// What aggregating a non-empty list of batches gives.
pub open spec fn aggregate_many_ok<F: Fn(AggregateFunction, Vec<Number>) -> Option<u64>>(
    bs: Seq<BatchView>,
    group_by: Seq<Seq<char>>,
    aggs: Seq<Aggregation>,
    finish: F,
    r: Result<Vec<RecordBatch>, EngineError>,
) -> bool {
    if !(same_schemas(bs) && total_rows(bs) <= usize::MAX) {
        r is Err
    } else {
        let c = concat_view(bs);
        if !(aggregate_ok(c.schema, group_by, aggs) && c.num_rows <= i64::MAX) {
            r is Err
        } else {
            r matches Ok(v) && v@.len() == 1 && v@[0].wf() && is_aggregate_of(c, group_by, aggs, finish, v@[0]@)
        }
    }
}

} // verus!
