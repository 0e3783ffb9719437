use vstd::prelude::*;
use crate::types::DataType;

verus! {

/// One cell of a column as a mathematical value. A `Float64` cell is the
/// IEEE-754 bit pattern of the number.
pub enum Datum {
    Null,
    Int32(i32),
    Int64(i64),
    Float64(u64),
    Utf8(Seq<char>),
    Boolean(bool),
}

pub open spec fn i32_datum(o: Option<i32>) -> Datum {
    match o {
        Some(x) => Datum::Int32(x),
        None => Datum::Null,
    }
}

pub open spec fn i64_datum(o: Option<i64>) -> Datum {
    match o {
        Some(x) => Datum::Int64(x),
        None => Datum::Null,
    }
}

pub open spec fn f64_datum(o: Option<u64>) -> Datum {
    match o {
        Some(x) => Datum::Float64(x),
        None => Datum::Null,
    }
}

pub open spec fn str_datum(o: Option<String>) -> Datum {
    match o {
        Some(x) => Datum::Utf8(x@),
        None => Datum::Null,
    }
}

pub open spec fn bool_datum(o: Option<bool>) -> Datum {
    match o {
        Some(x) => Datum::Boolean(x),
        None => Datum::Null,
    }
}

/// Whether a cell may stand in a column of type `t`.
pub open spec fn datum_has_type(d: Datum, t: DataType) -> bool {
    match d {
        Datum::Null => true,
        Datum::Int32(_) => t == DataType::Int32,
        Datum::Int64(_) => t == DataType::Int64,
        Datum::Float64(_) => t == DataType::Float64,
        Datum::Utf8(_) => t == DataType::Utf8,
        Datum::Boolean(_) => t == DataType::Boolean,
    }
}

/// Gather: element `k` of the result is element `idx[k]` of `s`.
pub open spec fn take_seq<A>(s: Seq<A>, idx: Seq<usize>) -> Seq<A> {
    Seq::new(idx.len(), |k: int| s[idx[k] as int])
}

/// Gather where a missing index yields a null cell.
pub open spec fn take_or_null_seq<A>(s: Seq<Option<A>>, idx: Seq<Option<usize>>) -> Seq<Option<A>> {
    Seq::new(
        idx.len(),
        |k: int|
            match idx[k] {
                Some(i) => s[i as int],
                None => None,
            },
    )
}

/// Keeps the elements of `s` whose mask entry is `Some(true)`; a null or
/// false mask entry drops the element.
pub open spec fn filter_seq<A>(s: Seq<A>, mask: Seq<Option<bool>>) -> Seq<A>
    decreases s.len(),
{
    if s.len() == 0 {
        Seq::empty()
    } else {
        let rest = filter_seq(s.drop_last(), mask);
        if mask[s.len() - 1] == Some(true) {
            rest.push(s.last())
        } else {
            rest
        }
    }
}

pub proof fn lemma_filter_map<A, B>(s: Seq<A>, mask: Seq<Option<bool>>, f: spec_fn(A) -> B)
    ensures
        filter_seq(s.map_values(f), mask) == filter_seq(s, mask).map_values(f),
    decreases s.len(),
{
    if s.len() > 0 {
        lemma_filter_map(s.drop_last(), mask, f);
        assert(s.map_values(f).drop_last() =~= s.drop_last().map_values(f));
        let rest = filter_seq(s.drop_last(), mask);
        assert(rest.push(s.last()).map_values(f) =~= rest.map_values(f).push(f(s.last())));
    }
}

pub proof fn lemma_filter_len<A>(s: Seq<A>, mask: Seq<Option<bool>>)
    ensures
        filter_seq(s, mask).len() <= s.len(),
    decreases s.len(),
{
    if s.len() > 0 {
        lemma_filter_len(s.drop_last(), mask);
    }
}

fn take_vec<T: Copy>(v: &Vec<T>, idx: &Vec<usize>) -> (r: Vec<T>)
    requires
        forall|k: int| 0 <= k < idx@.len() ==> idx@[k] < v@.len(),
    ensures
        r@ == take_seq(v@, idx@),
{
    let mut r: Vec<T> = Vec::with_capacity(idx.len());
    let mut k: usize = 0;
    while k < idx.len()
        invariant
            k <= idx@.len(),
            forall|j: int| 0 <= j < idx@.len() ==> idx@[j] < v@.len(),
            r@ =~= take_seq(v@, idx@).subrange(0, k as int),
        decreases idx@.len() - k,
    {
        r.push(v[idx[k]]);
        k += 1;
    }
    r
}

fn take_strs(v: &Vec<Option<String>>, idx: &Vec<usize>) -> (r: Vec<Option<String>>)
    requires
        forall|k: int| 0 <= k < idx@.len() ==> idx@[k] < v@.len(),
    ensures
        r@ == take_seq(v@, idx@),
{
    let mut r: Vec<Option<String>> = Vec::with_capacity(idx.len());
    let mut k: usize = 0;
    while k < idx.len()
        invariant
            k <= idx@.len(),
            forall|j: int| 0 <= j < idx@.len() ==> idx@[j] < v@.len(),
            r@ =~= take_seq(v@, idx@).subrange(0, k as int),
        decreases idx@.len() - k,
    {
        let c = match &v[idx[k]] {
            Some(s) => Some(s.clone()),
            None => None,
        };
        r.push(c);
        k += 1;
    }
    r
}

fn take_or_null_vec<T: Copy>(v: &Vec<Option<T>>, idx: &Vec<Option<usize>>) -> (r: Vec<Option<T>>)
    requires
        forall|k: int| 0 <= k < idx@.len() ==> (#[trigger] idx@[k] matches Some(i) ==> i < v@.len()),
    ensures
        r@ == take_or_null_seq(v@, idx@),
{
    let mut r: Vec<Option<T>> = Vec::with_capacity(idx.len());
    let mut k: usize = 0;
    while k < idx.len()
        invariant
            k <= idx@.len(),
            forall|j: int| 0 <= j < idx@.len() ==> (#[trigger] idx@[j] matches Some(i) ==> i < v@.len()),
            r@ =~= take_or_null_seq(v@, idx@).subrange(0, k as int),
        decreases idx@.len() - k,
    {
        let c = match idx[k] {
            Some(i) => v[i],
            None => None,
        };
        r.push(c);
        k += 1;
    }
    r
}

fn take_or_null_strs(v: &Vec<Option<String>>, idx: &Vec<Option<usize>>) -> (r: Vec<Option<String>>)
    requires
        forall|k: int| 0 <= k < idx@.len() ==> (#[trigger] idx@[k] matches Some(i) ==> i < v@.len()),
    ensures
        r@ == take_or_null_seq(v@, idx@),
{
    let mut r: Vec<Option<String>> = Vec::with_capacity(idx.len());
    let mut k: usize = 0;
    while k < idx.len()
        invariant
            k <= idx@.len(),
            forall|j: int| 0 <= j < idx@.len() ==> (#[trigger] idx@[j] matches Some(i) ==> i < v@.len()),
            r@ =~= take_or_null_seq(v@, idx@).subrange(0, k as int),
        decreases idx@.len() - k,
    {
        let c = match idx[k] {
            Some(i) => match &v[i] {
                Some(s) => Some(s.clone()),
                None => None,
            },
            None => None,
        };
        r.push(c);
        k += 1;
    }
    r
}

fn filter_vec<T: Copy>(v: &Vec<T>, mask: &Vec<Option<bool>>) -> (r: Vec<T>)
    requires
        mask@.len() == v@.len(),
    ensures
        r@ == filter_seq(v@, mask@),
{
    let mut r: Vec<T> = Vec::new();
    let mut i: usize = 0;
    while i < v.len()
        invariant
            i <= v@.len(),
            mask@.len() == v@.len(),
            r@ == filter_seq(v@.subrange(0, i as int), mask@),
        decreases v@.len() - i,
    {
        assert(v@.subrange(0, i + 1).drop_last() =~= v@.subrange(0, i as int));
        if mask[i] == Some(true) {
            r.push(v[i]);
        }
        i += 1;
    }
    assert(v@.subrange(0, i as int) =~= v@);
    r
}

fn filter_strs(v: &Vec<Option<String>>, mask: &Vec<Option<bool>>) -> (r: Vec<Option<String>>)
    requires
        mask@.len() == v@.len(),
    ensures
        r@ == filter_seq(v@, mask@),
{
    let mut r: Vec<Option<String>> = Vec::new();
    let mut i: usize = 0;
    while i < v.len()
        invariant
            i <= v@.len(),
            mask@.len() == v@.len(),
            r@ == filter_seq(v@.subrange(0, i as int), mask@),
        decreases v@.len() - i,
    {
        assert(v@.subrange(0, i + 1).drop_last() =~= v@.subrange(0, i as int));
        if mask[i] == Some(true) {
            let c = match &v[i] {
                Some(s) => Some(s.clone()),
                None => None,
            };
            r.push(c);
        }
        i += 1;
    }
    assert(v@.subrange(0, i as int) =~= v@);
    r
}

fn slice_vec<T: Copy>(v: &Vec<T>, offset: usize, length: usize) -> (r: Vec<T>)
    requires
        offset + length <= v@.len(),
    ensures
        r@ == v@.subrange(offset as int, offset + length),
{
    let mut r: Vec<T> = Vec::with_capacity(length);
    let n = v.len();
    let mut k: usize = 0;
    while k < length
        invariant
            k <= length,
            n == v@.len(),
            offset + length <= v@.len(),
            r@ =~= v@.subrange(offset as int, offset + k),
        decreases length - k,
    {
        r.push(v[offset + k]);
        k += 1;
    }
    r
}

fn slice_strs(v: &Vec<Option<String>>, offset: usize, length: usize) -> (r: Vec<Option<String>>)
    requires
        offset + length <= v@.len(),
    ensures
        r@ == v@.subrange(offset as int, offset + length),
{
    let mut r: Vec<Option<String>> = Vec::with_capacity(length);
    let n = v.len();
    let mut k: usize = 0;
    while k < length
        invariant
            k <= length,
            n == v@.len(),
            offset + length <= v@.len(),
            r@ =~= v@.subrange(offset as int, offset + k),
        decreases length - k,
    {
        let c = match &v[offset + k] {
            Some(s) => Some(s.clone()),
            None => None,
        };
        r.push(c);
        k += 1;
    }
    r
}

fn append_vec<T: Copy>(a: &Vec<T>, b: &Vec<T>) -> (r: Vec<T>)
    requires
        a@.len() + b@.len() <= usize::MAX,
    ensures
        r@ == a@ + b@,
{
    let mut r = slice_vec(a, 0, a.len());
    let mut k: usize = 0;
    while k < b.len()
        invariant
            k <= b@.len(),
            r@ =~= a@ + b@.subrange(0, k as int),
        decreases b@.len() - k,
    {
        r.push(b[k]);
        k += 1;
    }
    assert(b@.subrange(0, k as int) =~= b@);
    r
}

fn append_strs(a: &Vec<Option<String>>, b: &Vec<Option<String>>) -> (r: Vec<Option<String>>)
    requires
        a@.len() + b@.len() <= usize::MAX,
    ensures
        r@ == a@ + b@,
{
    let mut r = slice_strs(a, 0, a.len());
    let mut k: usize = 0;
    while k < b.len()
        invariant
            k <= b@.len(),
            r@ =~= a@ + b@.subrange(0, k as int),
        decreases b@.len() - k,
    {
        let c = match &b[k] {
            Some(s) => Some(s.clone()),
            None => None,
        };
        r.push(c);
        k += 1;
    }
    assert(b@.subrange(0, k as int) =~= b@);
    r
}

fn none_vec<T: Copy>(n: usize) -> (r: Vec<Option<T>>)
    ensures
        r@ == Seq::new(n as nat, |i: int| None::<T>),
{
    let mut r: Vec<Option<T>> = Vec::with_capacity(n);
    let mut k: usize = 0;
    while k < n
        invariant
            k <= n,
            r@ =~= Seq::new(k as nat, |i: int| None::<T>),
        decreases n - k,
    {
        r.push(None);
        k += 1;
    }
    r
}

fn none_strs(n: usize) -> (r: Vec<Option<String>>)
    ensures
        r@ == Seq::new(n as nat, |i: int| None::<String>),
{
    let mut r: Vec<Option<String>> = Vec::with_capacity(n);
    let mut k: usize = 0;
    while k < n
        invariant
            k <= n,
            r@ =~= Seq::new(k as nat, |i: int| None::<String>),
        decreases n - k,
    {
        r.push(None);
        k += 1;
    }
    r
}

/// A typed column of nullable values.
#[derive(Clone, Debug)]
pub enum ColumnData {
    Int32(Vec<Option<i32>>),
    Int64(Vec<Option<i64>>),
    Float64(Vec<Option<u64>>),
    Utf8(Vec<Option<String>>),
    Boolean(Vec<Option<bool>>),
}

/// A column as a mathematical value: its type and its cells.
pub struct ColumnView {
    pub data_type: DataType,
    pub values: Seq<Datum>,
}

impl View for ColumnData {
    type V = ColumnView;

    open spec fn view(&self) -> ColumnView {
        ColumnView { data_type: self.spec_type(), values: self.values() }
    }
}

impl ColumnData {
    pub open spec fn spec_type(&self) -> DataType {
        match self {
            ColumnData::Int32(_) => DataType::Int32,
            ColumnData::Int64(_) => DataType::Int64,
            ColumnData::Float64(_) => DataType::Float64,
            ColumnData::Utf8(_) => DataType::Utf8,
            ColumnData::Boolean(_) => DataType::Boolean,
        }
    }

    pub open spec fn values(&self) -> Seq<Datum> {
        match self {
            ColumnData::Int32(v) => v@.map_values(|o: Option<i32>| i32_datum(o)),
            ColumnData::Int64(v) => v@.map_values(|o: Option<i64>| i64_datum(o)),
            ColumnData::Float64(v) => v@.map_values(|o: Option<u64>| f64_datum(o)),
            ColumnData::Utf8(v) => v@.map_values(|o: Option<String>| str_datum(o)),
            ColumnData::Boolean(v) => v@.map_values(|o: Option<bool>| bool_datum(o)),
        }
    }

    pub open spec fn spec_len(&self) -> nat {
        self.values().len()
    }

    pub fn data_type(&self) -> (r: DataType)
        ensures
            r == self.spec_type(),
    {
        match self {
            ColumnData::Int32(_) => DataType::Int32,
            ColumnData::Int64(_) => DataType::Int64,
            ColumnData::Float64(_) => DataType::Float64,
            ColumnData::Utf8(_) => DataType::Utf8,
            ColumnData::Boolean(_) => DataType::Boolean,
        }
    }

    pub fn len(&self) -> (r: usize)
        ensures
            r == self.spec_len(),
    {
        match self {
            ColumnData::Int32(v) => v.len(),
            ColumnData::Int64(v) => v.len(),
            ColumnData::Float64(v) => v.len(),
            ColumnData::Utf8(v) => v.len(),
            ColumnData::Boolean(v) => v.len(),
        }
    }

    pub fn is_null(&self, i: usize) -> (r: bool)
        requires
            i < self.spec_len(),
        ensures
            r == (self.values()[i as int] is Null),
    {
        match self {
            ColumnData::Int32(v) => v[i].is_none(),
            ColumnData::Int64(v) => v[i].is_none(),
            ColumnData::Float64(v) => v[i].is_none(),
            ColumnData::Utf8(v) => v[i].is_none(),
            ColumnData::Boolean(v) => v[i].is_none(),
        }
    }

    /// A column of `n` nulls of type `t`.
    pub fn nulls(t: DataType, n: usize) -> (r: ColumnData)
        ensures
            r.spec_type() == t,
            r.values() == Seq::new(n as nat, |i: int| Datum::Null),
    {
        let r = match t {
            DataType::Int32 => ColumnData::Int32(none_vec(n)),
            DataType::Int64 => ColumnData::Int64(none_vec(n)),
            DataType::Float64 => ColumnData::Float64(none_vec(n)),
            DataType::Utf8 => ColumnData::Utf8(none_strs(n)),
            DataType::Boolean => ColumnData::Boolean(none_vec(n)),
        };
        assert(r.values() =~= Seq::new(n as nat, |i: int| Datum::Null));
        r
    }

    /// An empty column of type `t`.
    pub fn new_empty(t: DataType) -> (r: ColumnData)
        ensures
            r.spec_type() == t,
            r.values() == Seq::<Datum>::empty(),
    {
        let r = ColumnData::nulls(t, 0);
        assert(r.values() =~= Seq::<Datum>::empty());
        r
    }

    /// Gathers the rows named by `idx`, in that order.
    pub fn take(&self, idx: &Vec<usize>) -> (r: ColumnData)
        requires
            forall|k: int| 0 <= k < idx@.len() ==> idx@[k] < self.spec_len(),
        ensures
            r.spec_type() == self.spec_type(),
            r.values() == take_seq(self.values(), idx@),
    {
        let r = match self {
            ColumnData::Int32(v) => ColumnData::Int32(take_vec(v, idx)),
            ColumnData::Int64(v) => ColumnData::Int64(take_vec(v, idx)),
            ColumnData::Float64(v) => ColumnData::Float64(take_vec(v, idx)),
            ColumnData::Utf8(v) => ColumnData::Utf8(take_strs(v, idx)),
            ColumnData::Boolean(v) => ColumnData::Boolean(take_vec(v, idx)),
        };
        assert(r.values() =~= take_seq(self.values(), idx@));
        r
    }

    /// Gathers the rows named by `idx`; a missing index gives a null cell.
    pub fn take_or_null(&self, idx: &Vec<Option<usize>>) -> (r: ColumnData)
        requires
            forall|k: int| 0 <= k < idx@.len() ==> (#[trigger] idx@[k] matches Some(i) ==> i < self.spec_len()),
        ensures
            r.spec_type() == self.spec_type(),
            r.values() == Seq::new(
                idx@.len(),
                |k: int|
                    match idx@[k] {
                        Some(i) => self.values()[i as int],
                        None => Datum::Null,
                    },
            ),
    {
        let r = match self {
            ColumnData::Int32(v) => ColumnData::Int32(take_or_null_vec(v, idx)),
            ColumnData::Int64(v) => ColumnData::Int64(take_or_null_vec(v, idx)),
            ColumnData::Float64(v) => ColumnData::Float64(take_or_null_vec(v, idx)),
            ColumnData::Utf8(v) => ColumnData::Utf8(take_or_null_strs(v, idx)),
            ColumnData::Boolean(v) => ColumnData::Boolean(take_or_null_vec(v, idx)),
        };
        assert(r.values() =~= Seq::new(
            idx@.len(),
            |k: int|
                match idx@[k] {
                    Some(i) => self.values()[i as int],
                    None => Datum::Null,
                },
        ));
        r
    }

    /// Keeps the rows whose mask entry is true.
    pub fn filter(&self, mask: &Vec<Option<bool>>) -> (r: ColumnData)
        requires
            mask@.len() == self.spec_len(),
        ensures
            r.spec_type() == self.spec_type(),
            r.values() == filter_seq(self.values(), mask@),
    {
        match self {
            ColumnData::Int32(v) => {
                proof { lemma_filter_map(v@, mask@, |o: Option<i32>| i32_datum(o)); }
                ColumnData::Int32(filter_vec(v, mask))
            },
            ColumnData::Int64(v) => {
                proof { lemma_filter_map(v@, mask@, |o: Option<i64>| i64_datum(o)); }
                ColumnData::Int64(filter_vec(v, mask))
            },
            ColumnData::Float64(v) => {
                proof { lemma_filter_map(v@, mask@, |o: Option<u64>| f64_datum(o)); }
                ColumnData::Float64(filter_vec(v, mask))
            },
            ColumnData::Utf8(v) => {
                proof { lemma_filter_map(v@, mask@, |o: Option<String>| str_datum(o)); }
                ColumnData::Utf8(filter_strs(v, mask))
            },
            ColumnData::Boolean(v) => {
                proof { lemma_filter_map(v@, mask@, |o: Option<bool>| bool_datum(o)); }
                ColumnData::Boolean(filter_vec(v, mask))
            },
        }
    }

    /// The rows `offset .. offset + length`.
    pub fn slice(&self, offset: usize, length: usize) -> (r: ColumnData)
        requires
            offset + length <= self.spec_len(),
        ensures
            r.spec_type() == self.spec_type(),
            r.values() == self.values().subrange(offset as int, offset + length),
    {
        let r = match self {
            ColumnData::Int32(v) => ColumnData::Int32(slice_vec(v, offset, length)),
            ColumnData::Int64(v) => ColumnData::Int64(slice_vec(v, offset, length)),
            ColumnData::Float64(v) => ColumnData::Float64(slice_vec(v, offset, length)),
            ColumnData::Utf8(v) => ColumnData::Utf8(slice_strs(v, offset, length)),
            ColumnData::Boolean(v) => ColumnData::Boolean(slice_vec(v, offset, length)),
        };
        assert(r.values() =~= self.values().subrange(offset as int, offset + length));
        r
    }

    /// Exact copy of the column.
    pub fn copy(&self) -> (r: ColumnData)
        ensures
            r@ == self@,
    {
        let r = self.slice(0, self.len());
        assert(self.values().subrange(0, self.spec_len() as int) =~= self.values());
        r
    }

    /// The rows of `self` followed by those of `other`; `None` when the types differ.
    pub fn append(&self, other: &ColumnData) -> (r: Option<ColumnData>)
        requires
            self.spec_len() + other.spec_len() <= usize::MAX,
        ensures
            r is Some <==> self.spec_type() == other.spec_type(),
            r matches Some(c) ==> c.spec_type() == self.spec_type() && c.values()
                == self.values() + other.values(),
    {
        let r = match (self, other) {
            (ColumnData::Int32(a), ColumnData::Int32(b)) => ColumnData::Int32(append_vec(a, b)),
            (ColumnData::Int64(a), ColumnData::Int64(b)) => ColumnData::Int64(append_vec(a, b)),
            (ColumnData::Float64(a), ColumnData::Float64(b)) => ColumnData::Float64(
                append_vec(a, b),
            ),
            (ColumnData::Utf8(a), ColumnData::Utf8(b)) => ColumnData::Utf8(append_strs(a, b)),
            (ColumnData::Boolean(a), ColumnData::Boolean(b)) => ColumnData::Boolean(
                append_vec(a, b),
            ),
            _ => {
                return None;
            },
        };
        assert(r.values() =~= self.values() + other.values());
        Some(r)
    }
}

} // verus!
