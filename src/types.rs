use vstd::prelude::*;
use vstd::string::StringSliceAdditionalSpecFns;

verus! {

/// Equality of two strings, decided on their UTF-8 bytes.
pub fn str_eq(a: &str, b: &str) -> (r: bool)
    ensures
        r == (a@ == b@),
{
    let x = a.as_bytes();
    let y = b.as_bytes();
    proof {
        vstd::utf8::encode_utf8_decode_utf8(a@);
        vstd::utf8::encode_utf8_decode_utf8(b@);
    }
    if x.len() != y.len() {
        return false;
    }
    let mut i: usize = 0;
    while i < x.len()
        invariant
            i <= x@.len(),
            x@.len() == y@.len(),
            x@ == a.spec_bytes(),
            y@ == b.spec_bytes(),
            forall|k: int| 0 <= k < i ==> x@[k] == y@[k],
        decreases x@.len() - i,
    {
        if x[i] != y[i] {
            return false;
        }
        i += 1;
    }
    assert(x@ =~= y@);
    true
}

/// The column types the engine supports.
#[derive(PartialEq, Eq, Structural, Clone, Copy, Debug)]
pub enum DataType {
    Int32,
    Int64,
    Float64,
    Utf8,
    Boolean,
}

/// A named, typed column description.
#[derive(Clone, Debug)]
pub struct Field {
    pub name: String,
    pub data_type: DataType,
    pub nullable: bool,
}

/// What a field describes, as a mathematical value.
pub struct FieldView {
    pub name: Seq<char>,
    pub data_type: DataType,
    pub nullable: bool,
}

impl View for Field {
    type V = FieldView;

    open spec fn view(&self) -> FieldView {
        FieldView { name: self.name@, data_type: self.data_type, nullable: self.nullable }
    }
}

impl Field {
    pub fn new(name: &str, data_type: DataType, nullable: bool) -> (r: Field)
        ensures
            r.name@ == name@,
            r.data_type == data_type,
            r.nullable == nullable,
    {
        Field { name: name.to_owned(), data_type, nullable }
    }

    /// Exact copy of the field.
    pub fn copy(&self) -> (r: Field)
        ensures
            r@ == self@,
    {
        Field { name: self.name.clone(), data_type: self.data_type, nullable: self.nullable }
    }
}

/// An ordered list of fields.
#[derive(Clone, Debug)]
pub struct Schema {
    pub fields: Vec<Field>,
}

impl View for Schema {
    type V = Seq<FieldView>;

    open spec fn view(&self) -> Seq<FieldView> {
        self.fields@.map_values(|f: Field| f@)
    }
}

/// Index of the first field called `name`, if any.
pub open spec fn find_field(fields: Seq<FieldView>, name: Seq<char>) -> Option<int>
    decreases fields.len(),
{
    if fields.len() == 0 {
        None
    } else {
        match find_field(fields.drop_last(), name) {
            Some(i) => Some(i),
            None => if fields.last().name == name {
                Some(fields.len() - 1)
            } else {
                None
            },
        }
    }
}

pub proof fn lemma_find_field_bounds(fields: Seq<FieldView>, name: Seq<char>)
    ensures
        find_field(fields, name) matches Some(i) ==> 0 <= i < fields.len() && fields[i].name
            == name && forall|j: int| 0 <= j < i ==> fields[j].name != name,
        find_field(fields, name) is None ==> forall|j: int|
            0 <= j < fields.len() ==> fields[j].name != name,
    decreases fields.len(),
{
    if fields.len() > 0 {
        let init = fields.drop_last();
        lemma_find_field_bounds(init, name);
        assert(forall|j: int| 0 <= j < init.len() ==> init[j] == fields[j]);
    }
}

/// The first matching field is determined by the names before it.
pub proof fn lemma_find_field_is(fields: Seq<FieldView>, name: Seq<char>, i: int)
    requires
        0 <= i <= fields.len(),
        forall|j: int| 0 <= j < i ==> fields[j].name != name,
        i < fields.len() ==> fields[i].name == name,
    ensures
        find_field(fields, name) == (if i < fields.len() { Some(i) } else { None::<int> }),
    decreases fields.len(),
{
    if fields.len() > 0 {
        let init = fields.drop_last();
        assert(forall|j: int| 0 <= j < init.len() ==> init[j] == fields[j]);
        if i < fields.len() - 1 {
            lemma_find_field_is(init, name, i);
        } else {
            lemma_find_field_is(init, name, init.len() as int);
        }
    }
}

impl Schema {
    pub fn new(fields: Vec<Field>) -> (r: Schema)
        ensures
            r.fields == fields,
    {
        Schema { fields }
    }

    pub fn empty() -> (r: Schema)
        ensures
            r@.len() == 0,
    {
        Schema { fields: Vec::new() }
    }

    /// Exact copy of the schema.
    pub fn copy(&self) -> (r: Schema)
        ensures
            r@ == self@,
    {
        let mut out: Vec<Field> = Vec::new();
        let mut i: usize = 0;
        while i < self.fields.len()
            invariant
                i <= self.fields.len(),
                out@.len() == i,
                forall|k: int| 0 <= k < i ==> out@[k]@ == self.fields@[k]@,
            decreases self.fields.len() - i,
        {
            out.push(self.fields[i].copy());
            i += 1;
        }
        let r = Schema { fields: out };
        assert(r@ =~= self@);
        r
    }

    pub fn len(&self) -> (r: usize)
        ensures
            r == self@.len(),
    {
        self.fields.len()
    }

    /// Position of the first field called `name`.
    pub fn index_of(&self, name: &str) -> (r: Option<usize>)
        ensures
            r matches Some(i) ==> find_field(self@, name@) == Some(i as int),
            r is None ==> find_field(self@, name@) is None,
    {
        let mut i: usize = 0;
        while i < self.fields.len()
            invariant
                i <= self.fields.len(),
                find_field(self@.subrange(0, i as int), name@) is None,
            decreases self.fields.len() - i,
        {
            let found = str_eq(self.fields[i].name.as_str(), name);
            assert(self@.subrange(0, i + 1).drop_last() =~= self@.subrange(0, i as int));
            if found {
                proof {
                    lemma_find_field_bounds(self@.subrange(0, i as int), name@);
                    assert(forall|j: int| 0 <= j < i ==> self@.subrange(0, i as int)[j] == self@[j]);
                    lemma_find_field_is(self@, name@, i as int);
                }
                return Some(i);
            }
            i += 1;
        }
        assert(self@.subrange(0, i as int) =~= self@);
        proof {
            lemma_find_field_bounds(self@, name@);
        }
        None
    }

    /// Structural equality of two schemas.
    pub fn same_as(&self, other: &Schema) -> (r: bool)
        ensures
            r == (self@ == other@),
    {
        if self.fields.len() != other.fields.len() {
            assert(self@.len() != other@.len());
            return false;
        }
        let mut i: usize = 0;
        while i < self.fields.len()
            invariant
                i <= self.fields.len(),
                self.fields.len() == other.fields.len(),
                self@.subrange(0, i as int) == other@.subrange(0, i as int),
            decreases self.fields.len() - i,
        {
            let a = &self.fields[i];
            let b = &other.fields[i];
            if a.name != b.name || a.data_type != b.data_type || a.nullable != b.nullable {
                assert(self@[i as int] != other@[i as int]);
                return false;
            }
            assert(self@.subrange(0, i + 1) =~= self@.subrange(0, i as int).push(self@[i as int]));
            assert(other@.subrange(0, i + 1) =~= other@.subrange(0, i as int).push(other@[i as int]));
            i += 1;
        }
        assert(self@.subrange(0, i as int) =~= self@);
        assert(other@.subrange(0, i as int) =~= other@);
        true
    }
}

} // verus!
