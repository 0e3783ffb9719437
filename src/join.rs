use vstd::prelude::*;
use crate::batch::{
    batch_views, batch_wf, concat_view, same_schemas, total_rows, BatchView, RecordBatch,
};
use crate::column::{ColumnData, ColumnView, Datum};
use crate::error::EngineError;
use crate::logical_plan::JoinType;
use crate::types::{find_field, lemma_find_field_bounds, str_eq, Field, FieldView, Schema};
use std::collections::HashMap;
use vstd::string::StringSliceAdditionalSpecFns;
use vstd::utf8::encode_utf8;

verus! {

/// Two join keys match when they are equal and not null; keys of different
/// types never match.
pub open spec fn keys_match(x: Datum, y: Datum) -> bool {
    !(x is Null) && x == y
}

/// The right rows whose key matches `x`, in ascending order.
pub open spec fn matching_rows(x: Datum, rk: Seq<Datum>) -> Seq<usize>
    decreases rk.len(),
{
    if rk.len() == 0 {
        Seq::empty()
    } else {
        let rest = matching_rows(x, rk.drop_last());
        if keys_match(x, rk.last()) {
            rest.push((rk.len() - 1) as usize)
        } else {
            rest
        }
    }
}

/// The output pairs of left row `i` with key `x`.
pub open spec fn row_pairs(i: int, x: Datum, rk: Seq<Datum>, jt: JoinType) -> Seq<(usize, Option<usize>)> {
    let m = matching_rows(x, rk);
    if m.len() > 0 {
        m.map_values(|j: usize| (i as usize, Some(j)))
    } else if jt == JoinType::Left {
        seq![(i as usize, None::<usize>)]
    } else {
        Seq::empty()
    }
}

/// The (left row, right row) pairs of the join, left-row-major, matches of
/// one left row in right-row order; `None` is an unmatched row of a left join.
pub open spec fn join_pairs(lk: Seq<Datum>, rk: Seq<Datum>, jt: JoinType) -> Seq<(usize, Option<usize>)>
    decreases lk.len(),
{
    if lk.len() == 0 {
        Seq::empty()
    } else {
        join_pairs(lk.drop_last(), rk, jt) + row_pairs(lk.len() - 1, lk.last(), rk, jt)
    }
}

/// The joined batch: left columns then right columns, one row per pair.
pub open spec fn join_view(l: BatchView, r: BatchView, pairs: Seq<(usize, Option<usize>)>) -> BatchView {
    BatchView {
        schema: l.schema + r.schema,
        columns: Seq::new(
            l.columns.len() + r.columns.len(),
            |c: int|
                if c < l.columns.len() {
                    ColumnView {
                        data_type: l.columns[c].data_type,
                        values: Seq::new(pairs.len(), |k: int| l.columns[c].values[pairs[k].0 as int]),
                    }
                } else {
                    ColumnView {
                        data_type: r.columns[c - l.columns.len()].data_type,
                        values: Seq::new(
                            pairs.len(),
                            |k: int|
                                match pairs[k].1 {
                                    Some(j) => r.columns[c - l.columns.len()].values[j as int],
                                    None => Datum::Null,
                                },
                        ),
                    }
                },
        ),
        num_rows: pairs.len(),
    }
}

/// The left rows with null right columns typed by `right_fields`.
pub open spec fn left_only_view(l: BatchView, right_fields: Seq<FieldView>) -> BatchView {
    BatchView {
        schema: l.schema + right_fields,
        columns: l.columns + Seq::new(
            right_fields.len(),
            |c: int|
                ColumnView {
                    data_type: right_fields[c].data_type,
                    values: Seq::new(l.num_rows, |k: int| Datum::Null),
                },
        ),
        num_rows: l.num_rows,
    }
}

pub open spec fn concat_ok(bs: Seq<BatchView>) -> bool {
    bs.len() > 0 && same_schemas(bs) && total_rows(bs) <= usize::MAX
}

/// What a join of batch lists produces; `None` when it fails. `schema` is the
/// operator's output schema, which must be the left fields then the right fields.
pub open spec fn join_result(
    ls: Seq<BatchView>,
    rs: Seq<BatchView>,
    left_key: Seq<char>,
    right_key: Seq<char>,
    jt: JoinType,
    right_fields: Seq<FieldView>,
    schema: Seq<FieldView>,
) -> Option<Seq<BatchView>> {
    if ls.len() == 0 {
        Some(Seq::empty())
    } else if !concat_ok(ls) {
        None
    } else if rs.len() == 0 {
        let l = concat_view(ls);
        if jt == JoinType::Inner || l.num_rows == 0 {
            Some(Seq::empty())
        } else if schema != l.schema + right_fields {
            None
        } else {
            Some(seq![left_only_view(l, right_fields)])
        }
    } else if !concat_ok(rs) {
        None
    } else {
        let l = concat_view(ls);
        let r = concat_view(rs);
        match (find_field(r.schema, right_key), find_field(l.schema, left_key)) {
            (Some(rc), Some(lc)) => {
                let pairs = join_pairs(l.columns[lc].values, r.columns[rc].values, jt);
                if pairs.len() == 0 {
                    Some(Seq::empty())
                } else if schema != l.schema + r.schema {
                    None
                } else {
                    Some(seq![join_view(l, r, pairs)])
                }
            },
            _ => None,
        }
    }
}

/// Whether `s` is the fields of `a` followed by those of `b`.
fn is_concat_schema(s: &Schema, a: &Schema, b: &Schema) -> (r: bool)
    ensures
        r == (s@ == a@ + b@),
{
    let mut x = a.copy();
    let mut y = b.copy();
    let ghost xv = x.fields@;
    let ghost yv = y.fields@;
    x.fields.append(&mut y.fields);
    assert(x@ =~= a@ + b@) by {
        assert(x.fields@ == xv + yv);
    }
    s.same_as(&x)
}

/// Whether cell `i` of `a` and cell `j` of `b` are matching join keys.
fn key_eq(a: &ColumnData, i: usize, b: &ColumnData, j: usize) -> (r: bool)
    requires
        i < a.spec_len(),
        j < b.spec_len(),
    ensures
        r == keys_match(a.values()[i as int], b.values()[j as int]),
{
    match (a, b) {
        (ColumnData::Int32(x), ColumnData::Int32(y)) => match (x[i], y[j]) {
            (Some(p), Some(q)) => p == q,
            _ => false,
        },
        (ColumnData::Int64(x), ColumnData::Int64(y)) => match (x[i], y[j]) {
            (Some(p), Some(q)) => p == q,
            _ => false,
        },
        (ColumnData::Float64(x), ColumnData::Float64(y)) => match (x[i], y[j]) {
            (Some(p), Some(q)) => p == q,
            _ => false,
        },
        (ColumnData::Utf8(x), ColumnData::Utf8(y)) => match (&x[i], &y[j]) {
            (Some(p), Some(q)) => str_eq(p.as_str(), q.as_str()),
            _ => false,
        },
        (ColumnData::Boolean(x), ColumnData::Boolean(y)) => match (x[i], y[j]) {
            (Some(p), Some(q)) => p == q,
            _ => false,
        },
        _ => false,
    }
}

/// One step of the FNV-1a hash.
pub open spec fn mix(h: u64, b: u64) -> u64 {
    (h ^ b).wrapping_mul(0x100000001b3u64)
}

pub open spec fn mix_bytes(h: u64, bytes: Seq<u8>) -> u64
    decreases bytes.len(),
{
    if bytes.len() == 0 {
        h
    } else {
        mix(mix_bytes(h, bytes.drop_last()), bytes.last() as u64)
    }
}

/// The hash of a join key: its type tag and its value, mixed with FNV-1a.
pub open spec fn key_hash(d: Datum) -> u64 {
    let seed = 0xcbf29ce484222325u64;
    match d {
        Datum::Null => 0,
        Datum::Int32(x) => mix(mix(seed, 1), x as u64),
        Datum::Int64(x) => mix(mix(seed, 2), x as u64),
        Datum::Float64(b) => mix(mix(seed, 3), b),
        Datum::Utf8(s) => mix_bytes(mix(seed, 4), encode_utf8(s)),
        Datum::Boolean(b) => mix(mix(seed, 5), if b { 1u64 } else { 0u64 }),
    }
}

pub(crate) fn mix_exec(h: u64, b: u64) -> (r: u64)
    ensures
        r == mix(h, b),
{
    (h ^ b).wrapping_mul(0x100000001b3u64)
}

/// The hash of cell `i`, or `None` for a null cell.
pub(crate) fn hash_at(c: &ColumnData, i: usize) -> (r: Option<u64>)
    requires
        i < c.spec_len(),
    ensures
        r == (if c.values()[i as int] is Null { None } else { Some(key_hash(c.values()[i as int])) }),
{
    let seed = 0xcbf29ce484222325u64;
    match c {
        ColumnData::Int32(v) => match v[i] {
            Some(x) => Some(mix_exec(mix_exec(seed, 1), x as u64)),
            None => None,
        },
        ColumnData::Int64(v) => match v[i] {
            Some(x) => Some(mix_exec(mix_exec(seed, 2), x as u64)),
            None => None,
        },
        ColumnData::Float64(v) => match v[i] {
            Some(x) => Some(mix_exec(mix_exec(seed, 3), x)),
            None => None,
        },
        ColumnData::Boolean(v) => match v[i] {
            Some(x) => Some(mix_exec(mix_exec(seed, 5), if x { 1u64 } else { 0u64 })),
            None => None,
        },
        ColumnData::Utf8(v) => match &v[i] {
            Some(s) => {
                let bytes = s.as_str().as_bytes();
                let mut h = mix_exec(seed, 4);
                let mut k: usize = 0;
                while k < bytes.len()
                    invariant
                        k <= bytes@.len(),
                        bytes@ == encode_utf8(s@),
                        h == mix_bytes(mix(seed, 4), bytes@.subrange(0, k as int)),
                    decreases bytes@.len() - k,
                {
                    assert(bytes@.subrange(0, k + 1).drop_last() =~= bytes@.subrange(0, k as int));
                    h = mix_exec(h, bytes[k] as u64);
                    k += 1;
                }
                assert(bytes@.subrange(0, k as int) =~= bytes@);
                Some(h)
            },
            None => None,
        },
    }
}

/// The non-null right rows whose key hashes to `h`, in ascending order.
pub open spec fn hash_rows(rk: Seq<Datum>, h: u64) -> Seq<usize>
    decreases rk.len(),
{
    if rk.len() == 0 {
        Seq::empty()
    } else {
        let rest = hash_rows(rk.drop_last(), h);
        if !(rk.last() is Null) && key_hash(rk.last()) == h {
            rest.push((rk.len() - 1) as usize)
        } else {
            rest
        }
    }
}

/// The rows of `rows` whose key matches `x`.
pub open spec fn keep_matching(x: Datum, rk: Seq<Datum>, rows: Seq<usize>) -> Seq<usize>
    decreases rows.len(),
{
    if rows.len() == 0 {
        Seq::empty()
    } else {
        let rest = keep_matching(x, rk, rows.drop_last());
        if keys_match(x, rk[rows.last() as int]) {
            rest.push(rows.last())
        } else {
            rest
        }
    }
}

proof fn lemma_keep_matching_prefix(x: Datum, rk: Seq<Datum>, rows: Seq<usize>)
    requires
        rk.len() > 0,
        forall|k: int| 0 <= k < rows.len() ==> (#[trigger] rows[k]) < rk.len() - 1,
    ensures
        keep_matching(x, rk, rows) == keep_matching(x, rk.drop_last(), rows),
    decreases rows.len(),
{
    if rows.len() > 0 {
        lemma_keep_matching_prefix(x, rk, rows.drop_last());
        assert(rows.last() == rows[rows.len() - 1]);
    }
}

proof fn lemma_hash_rows_bounds(rk: Seq<Datum>, h: u64)
    requires
        rk.len() <= usize::MAX,
    ensures
        forall|k: int| 0 <= k < hash_rows(rk, h).len() ==> (#[trigger] hash_rows(rk, h)[k]) < rk.len(),
    decreases rk.len(),
{
    if rk.len() > 0 {
        let init = rk.drop_last();
        lemma_hash_rows_bounds(init, h);
        let hr = hash_rows(rk, h);
        let h0 = hash_rows(init, h);
        assert forall|k: int| 0 <= k < hr.len() implies (#[trigger] hr[k]) < rk.len() by {
            if k < h0.len() {
                assert(hr[k] == h0[k]);
            }
        }
    }
}

/// Filtering the rows of a key's hash bucket by key equality finds exactly its matches.
proof fn lemma_bucket_matches(x: Datum, rk: Seq<Datum>)
    requires
        !(x is Null),
        rk.len() <= usize::MAX,
    ensures
        keep_matching(x, rk, hash_rows(rk, key_hash(x))) == matching_rows(x, rk),
    decreases rk.len(),
{
    if rk.len() > 0 {
        let init = rk.drop_last();
        lemma_bucket_matches(x, init);
        lemma_hash_rows_bounds(init, key_hash(x));
        lemma_keep_matching_prefix(x, rk, hash_rows(init, key_hash(x)));
        let hr = hash_rows(rk, key_hash(x));
        if !(rk.last() is Null) && key_hash(rk.last()) == key_hash(x) {
            assert(hr.drop_last() =~= hash_rows(init, key_hash(x)));
            assert(hr.last() as int == rk.len() - 1);
        }
    }
}

pub open spec fn zip_pairs(a: Seq<usize>, b: Seq<Option<usize>>) -> Seq<(usize, Option<usize>)> {
    Seq::new(a.len(), |k: int| (a[k], b[k]))
}

/// The right rows of each key hash: `table@[h]` lists the rows whose key hashes to `h`.
pub open spec fn table_ok(table: Map<u64, Vec<usize>>, rk: Seq<Datum>) -> bool {
    forall|h: u64| #[trigger] hash_rows(rk, h) == if table.contains_key(h) { table[h]@ } else { Seq::<usize>::empty() }
}

/// Builds the hash table of the right key column.
fn build_table(rcol: &ColumnData) -> (r: HashMap<u64, Vec<usize>>)
    ensures
        table_ok(r@, rcol.values()),
{
    broadcast use vstd::std_specs::hash::group_hash_axioms;
    let ghost rk = rcol.values();
    let n = rcol.len();
    let mut table: HashMap<u64, Vec<usize>> = HashMap::new();
    let mut r: usize = 0;
    assert(table_ok(table@, rk.subrange(0, 0))) by {
        assert forall|h: u64| #[trigger] hash_rows(rk.subrange(0, 0), h) == if table@.contains_key(h) { table@[h]@ } else { Seq::<usize>::empty() } by {
            assert(rk.subrange(0, 0).len() == 0);
        }
    }
    while r < n
        invariant
            r <= n,
            n == rk.len(),
            rk == rcol.values(),
            table_ok(table@, rk.subrange(0, r as int)),
        decreases n - r,
    {
        let ghost pre = rk.subrange(0, r + 1);
        assert(pre.drop_last() =~= rk.subrange(0, r as int));
        match hash_at(rcol, r) {
            Some(h) => {
                let ghost before = table@;
                let mut bucket = match table.remove(&h) {
                    Some(b) => b,
                    None => Vec::new(),
                };
                assert(bucket@ == hash_rows(rk.subrange(0, r as int), h));
                bucket.push(r);
                table.insert(h, bucket);
                assert forall|g: u64| #[trigger] hash_rows(pre, g) == if table@.contains_key(g) { table@[g]@ } else { Seq::<usize>::empty() } by {
                    if g != h {
                        assert(hash_rows(rk.subrange(0, r as int), g) == if before.contains_key(g) { before[g]@ } else { Seq::<usize>::empty() });
                    }
                }
            },
            None => {
                assert forall|g: u64| #[trigger] hash_rows(pre, g) == if table@.contains_key(g) { table@[g]@ } else { Seq::<usize>::empty() } by {
                    assert(hash_rows(rk.subrange(0, r as int), g) == if table@.contains_key(g) { table@[g]@ } else { Seq::<usize>::empty() });
                }
            },
        }
        r += 1;
    }
    assert(rk.subrange(0, n as int) =~= rk);
    table
}

/// The right rows whose key hashes like left cell `lr`'s key; none for a null key.
fn lookup(table: &HashMap<u64, Vec<usize>>, lcol: &ColumnData, lr: usize, rk: Ghost<Seq<Datum>>) -> (r: Vec<usize>)
    requires
        lr < lcol.spec_len(),
        table_ok(table@, rk@),
        rk@.len() <= usize::MAX,
    ensures
        r@ == (if lcol.values()[lr as int] is Null { Seq::<usize>::empty() } else { hash_rows(rk@, key_hash(lcol.values()[lr as int])) }),
        forall|k: int| 0 <= k < r@.len() ==> (#[trigger] r@[k]) < rk@.len(),
{
    broadcast use vstd::std_specs::hash::group_hash_axioms;
    match hash_at(lcol, lr) {
        Some(h) => {
            proof {
                lemma_hash_rows_bounds(rk@, h);
                assert(hash_rows(rk@, h) == if table@.contains_key(h) { table@[h]@ } else { Seq::<usize>::empty() });
            }
            match table.get(&h) {
                Some(b) => {
                    let mut out: Vec<usize> = Vec::with_capacity(b.len());
                    let mut k: usize = 0;
                    while k < b.len()
                        invariant
                            k <= b@.len(),
                            out@ =~= b@.subrange(0, k as int),
                        decreases b@.len() - k,
                    {
                        out.push(b[k]);
                        k += 1;
                    }
                    assert(b@.subrange(0, k as int) =~= b@);
                    out
                },
                None => Vec::new(),
            }
        },
        None => Vec::new(),
    }
}

proof fn lemma_no_null_matches(rk: Seq<Datum>)
    ensures
        matching_rows(Datum::Null, rk) == Seq::<usize>::empty(),
    decreases rk.len(),
{
    if rk.len() > 0 {
        lemma_no_null_matches(rk.drop_last());
    }
}

/// Computes the join pairs: the right rows are hashed by key, then each left
/// key is looked up and checked against the rows of its bucket.
#[verifier::rlimit(60)]
fn probe(lcol: &ColumnData, rcol: &ColumnData, jt: JoinType) -> (r: (Vec<usize>, Vec<Option<usize>>))
    ensures
        r.0@.len() == r.1@.len(),
        zip_pairs(r.0@, r.1@) == join_pairs(lcol.values(), rcol.values(), jt),
        forall|k: int| 0 <= k < r.0@.len() ==> #[trigger] r.0@[k] < lcol.spec_len(),
        forall|k: int| 0 <= k < r.1@.len() ==> (#[trigger] r.1@[k] matches Some(j) ==> j < rcol.spec_len()),
{
    let ghost lk = lcol.values();
    let ghost rk = rcol.values();
    let nl = lcol.len();
    let nr = rcol.len();
    let table = build_table(rcol);
    let mut left_idx: Vec<usize> = Vec::new();
    let mut right_idx: Vec<Option<usize>> = Vec::new();
    let mut lr: usize = 0;
    while lr < nl
        invariant
            lr <= nl,
            nl == lk.len(),
            nr == rk.len(),
            lk == lcol.values(),
            rk == rcol.values(),
            table_ok(table@, rk),
            left_idx@.len() == right_idx@.len(),
            zip_pairs(left_idx@, right_idx@) == join_pairs(lk.subrange(0, lr as int), rk, jt),
            forall|k: int| 0 <= k < left_idx@.len() ==> #[trigger] left_idx@[k] < nl,
            forall|k: int| 0 <= k < right_idx@.len() ==> (#[trigger] right_idx@[k] matches Some(j) ==> j < nr),
        decreases nl - lr,
    {
        let ghost base = zip_pairs(left_idx@, right_idx@);
        let ghost x = lk[lr as int];
        let bucket = lookup(&table, lcol, lr, Ghost(rk));
        let ghost rows = bucket@;
        proof {
            if x is Null {
                lemma_no_null_matches(rk);
            } else {
                lemma_bucket_matches(x, rk);
            }
        }
        let mut found = false;
        let mut q: usize = 0;
        while q < bucket.len()
            invariant
                q <= bucket@.len(),
                bucket@ == rows,
                forall|k: int| 0 <= k < rows.len() ==> (#[trigger] rows[k]) < nr,
                lr < nl,
                nl == lk.len(),
                nr == rk.len(),
                lk == lcol.values(),
                rk == rcol.values(),
                x == lk[lr as int],
                left_idx@.len() == right_idx@.len(),
                zip_pairs(left_idx@, right_idx@) == base + keep_matching(x, rk, rows.subrange(0, q as int)).map_values(
                    |j: usize| (lr as usize, Some(j)),
                ),
                found == (keep_matching(x, rk, rows.subrange(0, q as int)).len() > 0),
                forall|k: int| 0 <= k < left_idx@.len() ==> #[trigger] left_idx@[k] < nl,
                forall|k: int| 0 <= k < right_idx@.len() ==> (#[trigger] right_idx@[k] matches Some(j) ==> j < nr),
            decreases bucket@.len() - q,
        {
            let rr = bucket[q];
            let ghost before = keep_matching(x, rk, rows.subrange(0, q as int));
            assert(rows.subrange(0, q + 1).drop_last() =~= rows.subrange(0, q as int));
            assert(rows.subrange(0, q + 1).last() == rr);
            let ghost zl = left_idx@;
            let ghost zr = right_idx@;
            if key_eq(lcol, lr, rcol, rr) {
                left_idx.push(lr);
                right_idx.push(Some(rr));
                found = true;
                proof {
                    let after = before.push(rr);
                    assert(zip_pairs(left_idx@, right_idx@) =~= zip_pairs(zl, zr).push((lr, Some(rr))));
                    assert(after.map_values(|j: usize| (lr as usize, Some(j))) =~= before.map_values(
                        |j: usize| (lr as usize, Some(j)),
                    ).push((lr, Some(rr))));
                    assert(zip_pairs(left_idx@, right_idx@) =~= base + after.map_values(
                        |j: usize| (lr as usize, Some(j)),
                    ));
                }
            }
            q += 1;
        }
        assert(rows.subrange(0, bucket@.len() as int) =~= rows);
        assert(keep_matching(x, rk, rows) == matching_rows(x, rk)) by {
            if x is Null {
                assert(rows.len() == 0);
            }
        }
        assert(lk.subrange(0, lr + 1).drop_last() =~= lk.subrange(0, lr as int));
        let ghost zl = left_idx@;
        let ghost zr = right_idx@;
        if !found && jt == JoinType::Left {
            left_idx.push(lr);
            right_idx.push(None);
            assert(zip_pairs(left_idx@, right_idx@) =~= zip_pairs(zl, zr).push((lr, None::<usize>)));
            assert(zip_pairs(left_idx@, right_idx@) =~= base + seq![(lr, None::<usize>)]);
        } else {
            assert(zip_pairs(left_idx@, right_idx@) =~= base + row_pairs(lr as int, x, rk, jt));
        }
        lr += 1;
    }
    assert(lk.subrange(0, nl as int) =~= lk);
    (left_idx, right_idx)
}

/// Hash join operator: the right side is the build side, the left side probes it.
pub struct HashJoinOperator {
    pub left_key: String,
    pub right_key: String,
    pub join_type: JoinType,
    pub right_schema: Schema,
    pub schema: Schema,
}

impl HashJoinOperator {
    /// A join whose output schema is the left fields followed by the right fields.
    pub fn new(
        left_key: String,
        right_key: String,
        join_type: JoinType,
        left_schema: Schema,
        right_schema: Schema,
    ) -> (r: Result<HashJoinOperator, EngineError>)
        ensures
            r matches Ok(op) && op.left_key == left_key && op.right_key == right_key && op.join_type
                == join_type && op.right_schema == right_schema && op.schema@ == left_schema@
                + right_schema@,
    {
        let mut fields: Vec<Field> = Vec::with_capacity(left_schema.fields.len());
        let mut i: usize = 0;
        while i < left_schema.fields.len()
            invariant
                i <= left_schema@.len(),
                fields@.len() == i,
                forall|k: int| 0 <= k < i ==> (#[trigger] fields@[k])@ == left_schema@[k],
            decreases left_schema@.len() - i,
        {
            fields.push(left_schema.fields[i].copy());
            i += 1;
        }
        let mut j: usize = 0;
        while j < right_schema.fields.len()
            invariant
                j <= right_schema@.len(),
                fields@.len() == left_schema@.len() + j,
                forall|k: int| 0 <= k < left_schema@.len() ==> (#[trigger] fields@[k])@ == left_schema@[k],
                forall|k: int| 0 <= k < j ==> (#[trigger] fields@[left_schema@.len() + k])@ == right_schema@[k],
            decreases right_schema@.len() - j,
        {
            fields.push(right_schema.fields[j].copy());
            j += 1;
        }
        let schema = Schema { fields };
        proof {
            assert forall|k: int| 0 <= k < schema@.len() implies schema@[k] == (left_schema@ + right_schema@)[k] by {
                if k >= left_schema@.len() {
                    let m = k - left_schema@.len();
                    assert(fields@[left_schema@.len() + m]@ == right_schema@[m]);
                }
            }
            assert(schema@ =~= left_schema@ + right_schema@);
        }
        Ok(HashJoinOperator { left_key, right_key, join_type, right_schema, schema })
    }

    /// Left join against an empty right side: the left rows with null right columns.
    fn left_only_result(&self, left: &RecordBatch) -> (r: RecordBatch)
        requires
            left.wf(),
        ensures
            r.wf(),
            r@ == left_only_view(left@, self.right_schema@),
    {
        let mut fields: Vec<Field> = Vec::with_capacity(left.columns.len());
        let mut columns: Vec<ColumnData> = Vec::with_capacity(left.columns.len());
        let mut i: usize = 0;
        while i < left.columns.len()
            invariant
                i <= left.columns@.len(),
                left.wf(),
                fields@.len() == i,
                columns@.len() == i,
                forall|k: int| 0 <= k < i ==> (#[trigger] fields@[k])@ == left@.schema[k],
                forall|k: int| 0 <= k < i ==> (#[trigger] columns@[k])@ == left@.columns[k],
            decreases left.columns@.len() - i,
        {
            fields.push(left.schema.fields[i].copy());
            columns.push(left.columns[i].copy());
            i += 1;
        }
        let nl = left.columns.len();
        let rf = &self.right_schema.fields;
        let mut j: usize = 0;
        while j < rf.len()
            invariant
                j <= rf@.len(),
                left.wf(),
                nl == left.columns@.len(),
                rf == &self.right_schema.fields,
                fields@.len() == nl + j,
                columns@.len() == nl + j,
                forall|k: int| 0 <= k < nl ==> (#[trigger] fields@[k])@ == left@.schema[k],
                forall|k: int| 0 <= k < nl ==> (#[trigger] columns@[k])@ == left@.columns[k],
                forall|k: int| 0 <= k < j ==> (#[trigger] fields@[nl + k])@ == self.right_schema@[k],
                forall|k: int| 0 <= k < j ==> (#[trigger] columns@[nl + k])@ == (ColumnView {
                    data_type: self.right_schema@[k].data_type,
                    values: Seq::new(left.num_rows as nat, |m: int| Datum::Null),
                }),
            decreases rf@.len() - j,
        {
            fields.push(rf[j].copy());
            columns.push(ColumnData::nulls(rf[j].data_type, left.num_rows));
            j += 1;
        }
        let r = RecordBatch { schema: Schema { fields }, columns, num_rows: left.num_rows };
        proof {
            let v = left_only_view(left@, self.right_schema@);
            assert forall|k: int| 0 <= k < r@.schema.len() implies r@.schema[k] == v.schema[k] by {
                if k >= nl {
                    let m = k - nl;
                    assert(fields@[nl + m]@ == self.right_schema@[m]);
                }
            }
            assert(r@.schema =~= v.schema);
            assert forall|k: int| 0 <= k < r@.columns.len() implies r@.columns[k] == v.columns[k] by {
                if k >= nl {
                    let m = k - nl;
                    assert(columns@[nl + m]@ == v.columns[nl + m]);
                }
            }
            assert(r@.columns =~= v.columns);
            assert forall|k: int| 0 <= k < r@.columns.len() implies (#[trigger] r@.columns[k]).values.len()
                == r@.num_rows && r@.columns[k].data_type == r@.schema[k].data_type by {
                if k >= nl {
                    let m = k - nl;
                    assert(fields@[nl + m]@ == self.right_schema@[m]);
                }
            }
        }
        r
    }

    /// Joins the rows of two lists of batches: each side is concatenated,
    /// then every left row is probed against the right key column.
    pub fn execute_join(&self, left_batches: &[RecordBatch], right_batches: &[RecordBatch]) -> (r: Result<
        Vec<RecordBatch>,
        EngineError,
    >)
        requires
            forall|i: int| 0 <= i < left_batches@.len() ==> (#[trigger] left_batches@[i]).wf(),
            forall|i: int| 0 <= i < right_batches@.len() ==> (#[trigger] right_batches@[i]).wf(),
        ensures
            match join_result(
                batch_views(left_batches@),
                batch_views(right_batches@),
                self.left_key@,
                self.right_key@,
                self.join_type,
                self.right_schema@,
                self.schema@,
            ) {
                Some(v) => r matches Ok(out) && batch_views(out@) == v && forall|i: int|
                    0 <= i < out@.len() ==> (#[trigger] out@[i]).wf() && out@[i]@.schema == self.schema@
                        && out@[i].num_rows > 0,
                None => r is Err,
            },
            left_batches@.len() > 0 && right_batches@.len() > 0 && concat_ok(batch_views(left_batches@))
                && concat_ok(batch_views(right_batches@)) && (find_field(
                concat_view(batch_views(right_batches@)).schema,
                self.right_key@,
            ) is None || find_field(concat_view(batch_views(left_batches@)).schema, self.left_key@)
                is None) ==> r matches Err(EngineError::UnknownColumn(_)),
    {
        if left_batches.len() == 0 {
            let out: Vec<RecordBatch> = Vec::new();
            assert(batch_views(out@) =~= Seq::<BatchView>::empty());
            return Ok(out);
        }
        let left = RecordBatch::concat(left_batches)?;
        if right_batches.len() == 0 {
            if self.join_type == JoinType::Left && left.num_rows > 0 {
                if !is_concat_schema(&self.schema, &left.schema, &self.right_schema) {
                    return Err(EngineError::SchemaMismatch);
                }
                let b = self.left_only_result(&left);
                let mut out: Vec<RecordBatch> = Vec::new();
                out.push(b);
                assert(batch_views(out@) =~= seq![left_only_view(left@, self.right_schema@)]);
                return Ok(out);
            }
            let out: Vec<RecordBatch> = Vec::new();
            assert(batch_views(out@) =~= Seq::<BatchView>::empty());
            return Ok(out);
        }
        let right = RecordBatch::concat(right_batches)?;
        proof {
            lemma_find_field_bounds(right.schema@, self.right_key@);
            lemma_find_field_bounds(left.schema@, self.left_key@);
        }
        let rcol = match right.column_by_name(self.right_key.as_str()) {
            Some(c) => c,
            None => {
                return Err(EngineError::UnknownColumn(self.right_key.clone()));
            },
        };
        let lcol = match left.column_by_name(self.left_key.as_str()) {
            Some(c) => c,
            None => {
                return Err(EngineError::UnknownColumn(self.left_key.clone()));
            },
        };
        let ghost lc = find_field(left.schema@, self.left_key@)->Some_0;
        let ghost rc = find_field(right.schema@, self.right_key@)->Some_0;
        assert(left@.columns[lc] == lcol@);
        assert(right@.columns[rc] == rcol@);
        let (left_idx, right_idx) = probe(lcol, rcol, self.join_type);
        let ghost pairs = join_pairs(lcol.values(), rcol.values(), self.join_type);
        if left_idx.len() == 0 {
            let out: Vec<RecordBatch> = Vec::new();
            assert(batch_views(out@) =~= Seq::<BatchView>::empty());
            return Ok(out);
        }
        if !is_concat_schema(&self.schema, &left.schema, &right.schema) {
            return Err(EngineError::SchemaMismatch);
        }
        let nl = left.columns.len();
        let mut fields: Vec<Field> = Vec::new();
        let mut columns: Vec<ColumnData> = Vec::new();
        let mut i: usize = 0;
        while i < nl
            invariant
                i <= nl,
                nl == left.columns@.len(),
                left.wf(),
                left_idx@.len() == right_idx@.len(),
                zip_pairs(left_idx@, right_idx@) == pairs,
                forall|k: int| 0 <= k < left_idx@.len() ==> #[trigger] left_idx@[k] < left.num_rows,
                fields@.len() == i,
                columns@.len() == i,
                forall|k: int| 0 <= k < i ==> (#[trigger] fields@[k])@ == left@.schema[k],
                forall|k: int| 0 <= k < i ==> (#[trigger] columns@[k])@ == join_view(left@, right@, pairs).columns[k],
            decreases nl - i,
        {
            assert(left@.columns[i as int] == left.columns@[i as int]@);
            fields.push(left.schema.fields[i].copy());
            let c = left.columns[i].take(&left_idx);
            assert(c@.values =~= join_view(left@, right@, pairs).columns[i as int].values);
            columns.push(c);
            i += 1;
        }
        let nr = right.columns.len();
        let mut j: usize = 0;
        while j < nr
            invariant
                j <= nr,
                nl == left.columns@.len(),
                nr == right.columns@.len(),
                right.wf(),
                left_idx@.len() == right_idx@.len(),
                zip_pairs(left_idx@, right_idx@) == pairs,
                forall|k: int| 0 <= k < right_idx@.len() ==> (#[trigger] right_idx@[k] matches Some(m) ==> m < right.num_rows),
                fields@.len() == nl + j,
                columns@.len() == nl + j,
                forall|k: int| 0 <= k < nl ==> (#[trigger] fields@[k])@ == left@.schema[k],
                forall|k: int| 0 <= k < nl ==> (#[trigger] columns@[k])@ == join_view(left@, right@, pairs).columns[k],
                forall|k: int| 0 <= k < j ==> (#[trigger] fields@[nl + k])@ == right@.schema[k],
                forall|k: int| 0 <= k < j ==> (#[trigger] columns@[nl + k])@ == join_view(left@, right@, pairs).columns[nl + k],
            decreases nr - j,
        {
            assert(right@.columns[j as int] == right.columns@[j as int]@);
            fields.push(right.schema.fields[j].copy());
            let c = right.columns[j].take_or_null(&right_idx);
            assert(c@.values =~= join_view(left@, right@, pairs).columns[nl + j].values);
            columns.push(c);
            j += 1;
        }
        let b = RecordBatch { schema: Schema { fields }, columns, num_rows: left_idx.len() };
        proof {
            let v = join_view(left@, right@, pairs);
            assert forall|k: int| 0 <= k < b@.schema.len() implies b@.schema[k] == v.schema[k] by {
                if k >= nl {
                    let m = k - nl;
                    assert(fields@[nl + m]@ == right@.schema[m]);
                }
            }
            assert(b@.schema =~= v.schema);
            assert forall|k: int| 0 <= k < b@.columns.len() implies b@.columns[k] == v.columns[k] by {
                if k >= nl {
                    let m = k - nl;
                    assert(columns@[nl + m]@ == v.columns[nl + m]);
                }
            }
            assert(b@.columns =~= v.columns);
        }
        let mut out: Vec<RecordBatch> = Vec::new();
        out.push(b);
        assert(batch_views(out@) =~= seq![join_view(left@, right@, pairs)]);
        Ok(out)
    }
}

} // verus!
