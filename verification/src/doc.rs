//! Documents: a primary key plus typed fields.
//!
//! A [`Doc`] owns its data outright. Scalar fields hold booleans, integers,
//! fp32/fp64 values given by their bit patterns, or strings; vector fields
//! hold dense fixed-point components or sparse index/value pairs. Setters
//! refuse, with `InvalidArgument`, a value whose kind disagrees with what the
//! field already holds, and a sparse vector whose index and value arrays
//! differ in length. Getters return `None` for an absent, null or
//! differently-typed field, never an error.

use vstd::prelude::*;

use vstd::slice::slice_to_vec;

use crate::error::Error;
use crate::error::Result;
use crate::error::STATUS_OK;
use crate::error::error_matches_code;
use crate::error::status_to_result;

verus! {

/// The value a document field holds, seen at the specification level.
pub enum FieldVal {
    Bool(bool),
    Int32(i32),
    Int64(i64),
    /// An fp32 value, by its bit pattern.
    Float(u32),
    /// An fp64 value, by its bit pattern.
    Double(u64),
    Str(Seq<char>),
    /// A dense vector of fixed-point components.
    Vector(Seq<i32>),
    /// A sparse vector: indices paired with fixed-point components.
    Sparse(Seq<u32>, Seq<i32>),
    /// A present field without a value.
    Null,
}

impl FieldVal {
    /// Whether a stored field of this kind may be overwritten by a value of
    /// kind `other`: the kinds must agree, except that a null is overwritten
    /// freely.
    pub open spec fn accepts(self, other: FieldVal) -> bool {
        match self {
            FieldVal::Bool(_) => other is Bool,
            FieldVal::Int32(_) => other is Int32,
            FieldVal::Int64(_) => other is Int64,
            FieldVal::Float(_) => other is Float,
            FieldVal::Double(_) => other is Double,
            FieldVal::Str(_) => other is Str,
            FieldVal::Vector(_) => other is Vector,
            FieldVal::Sparse(_, _) => other is Sparse,
            FieldVal::Null => true,
        }
    }
}

/// The value a document field holds.
pub enum FieldValue {
    Bool(bool),
    Int32(i32),
    Int64(i64),
    /// An fp32 value, by its bit pattern.
    Float(u32),
    /// An fp64 value, by its bit pattern.
    Double(u64),
    Str(String),
    /// A dense vector of fixed-point components.
    Vector(Vec<i32>),
    /// A sparse vector: indices paired with fixed-point components.
    Sparse(Vec<u32>, Vec<i32>),
    /// A present field without a value.
    Null,
}

impl View for FieldValue {
    type V = FieldVal;

    open spec fn view(&self) -> FieldVal {
        match self {
            FieldValue::Bool(b) => FieldVal::Bool(*b),
            FieldValue::Int32(v) => FieldVal::Int32(*v),
            FieldValue::Int64(v) => FieldVal::Int64(*v),
            FieldValue::Float(v) => FieldVal::Float(*v),
            FieldValue::Double(v) => FieldVal::Double(*v),
            FieldValue::Str(s) => FieldVal::Str(s@),
            FieldValue::Vector(v) => FieldVal::Vector(v@),
            FieldValue::Sparse(i, v) => FieldVal::Sparse(i@, v@),
            FieldValue::Null => FieldVal::Null,
        }
    }
}

/// Copy a field value; the copy carries the same abstract value.
pub fn clone_value(v: &FieldValue) -> (r: FieldValue)
    ensures
        r@ == v@,
{
    match v {
        FieldValue::Bool(b) => FieldValue::Bool(*b),
        FieldValue::Int32(x) => FieldValue::Int32(*x),
        FieldValue::Int64(x) => FieldValue::Int64(*x),
        FieldValue::Float(x) => FieldValue::Float(*x),
        FieldValue::Double(x) => FieldValue::Double(*x),
        FieldValue::Str(s) => FieldValue::Str(s.clone()),
        FieldValue::Vector(c) => {
            let c2 = c.clone();
            proof {
                assert(c2@ =~= c@);
            }
            FieldValue::Vector(c2)
        },
        FieldValue::Sparse(i, c) => {
            let i2 = i.clone();
            let c2 = c.clone();
            proof {
                assert(i2@ =~= i@);
                assert(c2@ =~= c@);
            }
            FieldValue::Sparse(i2, c2)
        },
        FieldValue::Null => FieldValue::Null,
    }
}

/// A document's fields, at the specification level: name/value pairs in the
/// order they were first set.
pub type FieldsView = Seq<(Seq<char>, FieldVal)>;

/// The index of the first pair named `name`, or -1 when there is none.
pub open spec fn field_idx<T>(fields: Seq<(Seq<char>, T)>, name: Seq<char>) -> int
    decreases fields.len(),
{
    if fields.len() == 0 {
        -1
    } else if fields[0].0 == name {
        0
    } else {
        let r = field_idx(fields.drop_first(), name);
        if r < 0 {
            -1
        } else {
            r + 1
        }
    }
}

/// `field_idx` names the first pair with the given name, when there is one.
pub proof fn lemma_field_idx<T>(fields: Seq<(Seq<char>, T)>, name: Seq<char>)
    ensures
        field_idx(fields, name) == -1 || (0 <= field_idx(fields, name) < fields.len()),
        field_idx(fields, name) >= 0 ==> fields[field_idx(fields, name)].0 == name,
        forall|j: int|
            0 <= j < fields.len() && (field_idx(fields, name) == -1 || j < field_idx(
                fields,
                name,
            )) ==> fields[j].0 != name,
    decreases fields.len(),
{
    if fields.len() > 0 && fields[0].0 != name {
        lemma_field_idx(fields.drop_first(), name);
        assert forall|j: int|
            0 <= j < fields.len() && (field_idx(fields, name) == -1 || j < field_idx(
                fields,
                name,
            )) implies fields[j].0 != name by {
            if j > 0 {
                assert(fields.drop_first()[j - 1] == fields[j]);
            }
        }
    }
}

/// The value of the first pair named `name`, or `None` when there is none.
pub open spec fn value_of<T>(fields: Seq<(Seq<char>, T)>, name: Seq<char>) -> Option<T> {
    let i = field_idx(fields, name);
    if i >= 0 {
        Some(fields[i].1)
    } else {
        None
    }
}

/// The fields after setting `name` to `v`: the first field of that name is
/// replaced, or the pair is appended when the name is new.
pub open spec fn spec_set_field(fields: FieldsView, name: Seq<char>, v: FieldVal) -> FieldsView {
    let i = field_idx(fields, name);
    if i >= 0 {
        fields.update(i, (name, v))
    } else {
        fields.push((name, v))
    }
}

/// Whether setting `name` to `v` is accepted: the field is new, or its
/// current value is of the same kind (or null).
pub open spec fn set_allowed(fields: FieldsView, name: Seq<char>, v: FieldVal) -> bool {
    match value_of(fields, name) {
        Some(existing) => existing.accepts(v),
        None => true,
    }
}

/// The specification-level value of a document.
pub struct DocView {
    pub pk: Seq<char>,
    pub fields: FieldsView,
    pub score: i128,
    pub doc_id: u64,
}

impl DocView {
    /// The value of the named field.
    pub open spec fn value_of(self, name: Seq<char>) -> Option<FieldVal> {
        value_of(self.fields, name)
    }

    /// Whether the document has a field of this name.
    pub open spec fn has_field(self, name: Seq<char>) -> bool {
        field_idx(self.fields, name) >= 0
    }
}

/// A document: a primary key plus typed fields.
///
/// Query results carry two more values set by the collection: a rank score
/// and an internal document id.
pub struct Doc {
    pk: String,
    fields: Vec<(String, FieldValue)>,
    score: i128,
    doc_id: u64,
}

impl View for Doc {
    type V = DocView;

    closed spec fn view(&self) -> DocView {
        DocView {
            pk: self.pk@,
            fields: self.fields@.map_values(|p: (String, FieldValue)| (p.0@, p.1@)),
            score: self.score,
            doc_id: self.doc_id,
        }
    }
}

impl Doc {
    /// Create a new empty document.
    pub fn new() -> (d: Doc)
        ensures
            d@.pk == Seq::<char>::empty(),
            d@.fields == Seq::<(Seq<char>, FieldVal)>::empty(),
            d@.score == 0,
            d@.doc_id == 0,
    {
        let d = Doc { pk: String::new(), fields: Vec::new(), score: 0, doc_id: 0 };
        proof {
            assert(d@.fields =~= Seq::<(Seq<char>, FieldVal)>::empty());
        }
        d
    }

    /// Create a new document with the given primary key.
    pub fn with_pk(pk: &str) -> (d: Doc)
        ensures
            d@.pk == pk@,
            d@.fields == Seq::<(Seq<char>, FieldVal)>::empty(),
            d@.score == 0,
            d@.doc_id == 0,
    {
        let mut d = Doc::new();
        d.set_pk(pk);
        d
    }

    /// Create a new document with the given ID (alias for `with_pk`).
    pub fn id(id: &str) -> (d: Doc)
        ensures
            d@.pk == id@,
            d@.fields == Seq::<(Seq<char>, FieldVal)>::empty(),
            d@.score == 0,
            d@.doc_id == 0,
    {
        Doc::with_pk(id)
    }

    /// Set the primary key.
    pub fn set_pk(&mut self, pk: &str)
        ensures
            final(self)@ == (DocView { pk: pk@, ..old(self)@ }),
    {
        self.pk = String::from_str(pk);
    }

    /// Get the primary key.
    pub fn pk(&self) -> (r: &str)
        ensures
            r@ == self@.pk,
    {
        self.pk.as_str()
    }

    /// The rank score the collection gave this document when it answered a
    /// query; 0 on a document the caller built.
    pub fn score(&self) -> (r: i128)
        ensures
            r == self@.score,
    {
        self.score
    }

    /// The internal id the collection gave this document; 0 on a document
    /// the caller built.
    pub fn doc_id(&self) -> (r: u64)
        ensures
            r == self@.doc_id,
    {
        self.doc_id
    }

    /// Build a document owned by the collection: the internals of a query or
    /// fetch result.
    pub(crate) fn assemble(pk: String, fields: Vec<(String, FieldValue)>, score: i128, doc_id: u64) -> (d:
        Doc)
        ensures
            d@ == (DocView {
                pk: pk@,
                fields: fields@.map_values(|p: (String, FieldValue)| (p.0@, p.1@)),
                score: score,
                doc_id: doc_id,
            }),
    {
        Doc { pk, fields, score, doc_id }
    }

    /// Copy this document; the copy carries the same abstract value.
    pub fn duplicate(&self) -> (d: Doc)
        ensures
            d@ == self@,
    {
        let mut fields: Vec<(String, FieldValue)> = Vec::new();
        let n = self.fields.len();
        for i in 0..n
            invariant
                n == self.fields.len(),
                fields@.len() == i,
                forall|j: int|
                    0 <= j < i ==> fields@[j].0@ == self@.fields[j].0 && fields@[j].1@
                        == self@.fields[j].1,
        {
            let name = self.fields[i].0.clone();
            let value = clone_value(&self.fields[i].1);
            proof {
                assert(self@.fields[i as int] == (self.fields@[i as int].0@, self.fields@[
                    i as int].1@));
            }
            fields.push((name, value));
        }
        let d = Doc { pk: self.pk.clone(), fields, score: self.score, doc_id: self.doc_id };
        proof {
            assert forall|j: int| 0 <= j < n implies d@.fields[j] == self@.fields[j] by {
                assert(d@.fields[j] == (d.fields@[j].0@, d.fields@[j].1@));
            }
            assert(d@.fields =~= self@.fields);
            assert(d@ =~= self@);
        }
        d
    }

    /// Find the position of the named field.
    fn find_field(&self, field: &str) -> (r: Option<usize>)
        ensures
            match r {
                Some(i) => i < self.fields.len() && field_idx(self@.fields, field@) == i,
                None => field_idx(self@.fields, field@) == -1,
            },
    {
        let name = String::from_str(field);
        let n = self.fields.len();
        proof {
            lemma_field_idx(self@.fields, field@);
        }
        for i in 0..n
            invariant
                n == self.fields.len(),
                name@ == field@,
                forall|j: int| 0 <= j < i ==> self@.fields[j].0 != field@,
                field_idx(self@.fields, field@) == -1 || 0 <= field_idx(self@.fields, field@)
                    < self.fields.len(),
                field_idx(self@.fields, field@) >= 0 ==> self@.fields[field_idx(
                    self@.fields,
                    field@,
                )].0 == field@,
                forall|j: int|
                    0 <= j < self.fields.len() && (field_idx(self@.fields, field@) == -1 || j
                        < field_idx(self@.fields, field@)) ==> self@.fields[j].0 != field@,
        {
            proof {
                assert(self@.fields[i as int] == (self.fields@[i as int].0@, self.fields@[
                    i as int].1@));
            }
            if self.fields[i].0 == name {
                return Some(i);
            }
        }
        None
    }

    /// How many fields the document holds.
    pub(crate) fn fields_len(&self) -> (r: usize)
        ensures
            r == self@.fields.len(),
    {
        self.fields.len()
    }

    /// Borrow the field pair at the given position.
    pub(crate) fn field_pair(&self, i: usize) -> (r: &(String, FieldValue))
        requires
            i < self@.fields.len(),
        ensures
            r.0@ == self@.fields[i as int].0,
            r.1@ == self@.fields[i as int].1,
    {
        proof {
            assert(self@.fields[i as int] == (self.fields@[i as int].0@, self.fields@[
                i as int].1@));
        }
        &self.fields[i]
    }

    /// Copy this document as the collection stores it: same key and fields,
    /// score cleared, the given internal id.
    pub(crate) fn stored_copy(&self, doc_id: u64) -> (r: Doc)
        ensures
            r@ == (DocView { pk: self@.pk, fields: self@.fields, score: 0, doc_id }),
    {
        let mut r = self.duplicate();
        r.score = 0;
        r.doc_id = doc_id;
        r
    }

    /// Borrow the value of the named field.
    pub(crate) fn get_value_ref(&self, field: &str) -> (r: Option<&FieldValue>)
        ensures
            match r {
                Some(v) => self@.value_of(field@) == Some(v@),
                None => self@.value_of(field@) is None,
            },
    {
        match self.find_field(field) {
            Some(i) => Some(&self.fields[i].1),
            None => None,
        }
    }

    /// Set the named field to the given value. Fails with `InvalidArgument`,
    /// leaving the document unchanged, when the field already holds a value
    /// of another kind.
    pub fn set_value(&mut self, field: &str, value: FieldValue) -> (r: Result<()>)
        ensures
            r is Ok <==> set_allowed(old(self)@.fields, field@, value@),
            r is Ok ==> final(self)@ == (DocView {
                fields: spec_set_field(old(self)@.fields, field@, value@),
                ..old(self)@
            }),
            r matches Err(e) ==> e is InvalidArgument && final(self)@ == old(self)@,
    {
        match self.find_field(field) {
            Some(i) => {
                let allowed = match (&self.fields[i].1, &value) {
                    (FieldValue::Bool(_), FieldValue::Bool(_)) => true,
                    (FieldValue::Int32(_), FieldValue::Int32(_)) => true,
                    (FieldValue::Int64(_), FieldValue::Int64(_)) => true,
                    (FieldValue::Float(_), FieldValue::Float(_)) => true,
                    (FieldValue::Double(_), FieldValue::Double(_)) => true,
                    (FieldValue::Str(_), FieldValue::Str(_)) => true,
                    (FieldValue::Vector(_), FieldValue::Vector(_)) => true,
                    (FieldValue::Sparse(_, _), FieldValue::Sparse(_, _)) => true,
                    (FieldValue::Null, _) => true,
                    _ => false,
                };
                if allowed {
                    let name = String::from_str(field);
                    self.fields[i] = (name, value);
                    proof {
                        assert(final(self)@.fields =~= spec_set_field(
                            old(self)@.fields,
                            field@,
                            value@,
                        ));
                    }
                    Ok(())
                } else {
                    Err(Error::InvalidArgument(String::from_str("field holds a value of another kind")))
                }
            },
            None => {
                let name = String::from_str(field);
                self.fields.push((name, value));
                proof {
                    assert(final(self)@.fields =~= spec_set_field(
                        old(self)@.fields,
                        field@,
                        value@,
                    ));
                }
                Ok(())
            },
        }
    }

    /// Set a boolean field.
    pub fn set_bool(&mut self, field: &str, value: bool) -> (r: Result<()>)
        ensures
            set_ensures(*old(self), *final(self), r, field@, FieldVal::Bool(value)),
    {
        self.set_value(field, FieldValue::Bool(value))
    }

    /// Set a 32-bit integer field.
    pub fn set_int32(&mut self, field: &str, value: i32) -> (r: Result<()>)
        ensures
            set_ensures(*old(self), *final(self), r, field@, FieldVal::Int32(value)),
    {
        self.set_value(field, FieldValue::Int32(value))
    }

    /// Set a 64-bit integer field.
    pub fn set_int64(&mut self, field: &str, value: i64) -> (r: Result<()>)
        ensures
            set_ensures(*old(self), *final(self), r, field@, FieldVal::Int64(value)),
    {
        self.set_value(field, FieldValue::Int64(value))
    }

    /// Set an fp32 field, the value given by its bit pattern.
    pub fn set_float(&mut self, field: &str, value: u32) -> (r: Result<()>)
        ensures
            set_ensures(*old(self), *final(self), r, field@, FieldVal::Float(value)),
    {
        self.set_value(field, FieldValue::Float(value))
    }

    /// Set an fp64 field, the value given by its bit pattern.
    pub fn set_double(&mut self, field: &str, value: u64) -> (r: Result<()>)
        ensures
            set_ensures(*old(self), *final(self), r, field@, FieldVal::Double(value)),
    {
        self.set_value(field, FieldValue::Double(value))
    }

    /// Set a string field.
    pub fn set_string(&mut self, field: &str, value: &str) -> (r: Result<()>)
        ensures
            set_ensures(*old(self), *final(self), r, field@, FieldVal::Str(value@)),
    {
        self.set_value(field, FieldValue::Str(String::from_str(value)))
    }

    /// Set a dense vector field; the vector's length becomes the observed
    /// dimension.
    pub fn set_vector(&mut self, field: &str, vector: &[i32]) -> (r: Result<()>)
        ensures
            set_ensures(*old(self), *final(self), r, field@, FieldVal::Vector(vector@)),
    {
        let owned = slice_to_vec(vector);
        self.set_value(field, FieldValue::Vector(owned))
    }

    /// Set a sparse vector field. Fails with `InvalidArgument`, before
    /// anything else is considered, when the index and value arrays differ in
    /// length.
    pub fn set_sparse_vector(&mut self, field: &str, indices: &[u32], values: &[i32]) -> (r:
        Result<()>)
        ensures
            indices@.len() != values@.len() ==> (r matches Err(e) && e is InvalidArgument
                && final(self)@ == old(self)@),
            indices@.len() == values@.len() ==> set_ensures(
                *old(self),
                *final(self),
                r,
                field@,
                FieldVal::Sparse(indices@, values@),
            ),
    {
        if indices.len() != values.len() {
            return Err(
                Error::InvalidArgument(
                    String::from_str("indices and values must have same length"),
                ),
            );
        }
        let owned_i = slice_to_vec(indices);
        let owned_v = slice_to_vec(values);
        self.set_value(field, FieldValue::Sparse(owned_i, owned_v))
    }

    /// Set the primary key and return the document, for chaining.
    pub fn with_pk_mut(self, pk: &str) -> (d: Doc)
        ensures
            d@ == (DocView { pk: pk@, ..self@ }),
    {
        let mut d = self;
        d.set_pk(pk);
        d
    }

    /// Set a dense vector field and return the document, for chaining.
    pub fn with_vector(self, field: &str, vector: &[i32]) -> (r: Result<Doc>)
        ensures
            with_ensures(self, r, field@, FieldVal::Vector(vector@)),
    {
        let mut d = self;
        match d.set_vector(field, vector) {
            Ok(()) => Ok(d),
            Err(e) => Err(e),
        }
    }

    /// Set a string field and return the document, for chaining.
    pub fn with_string(self, field: &str, value: &str) -> (r: Result<Doc>)
        ensures
            with_ensures(self, r, field@, FieldVal::Str(value@)),
    {
        let mut d = self;
        match d.set_string(field, value) {
            Ok(()) => Ok(d),
            Err(e) => Err(e),
        }
    }

    /// Set an fp32 field, by bit pattern, and return the document, for
    /// chaining.
    pub fn with_float(self, field: &str, value: u32) -> (r: Result<Doc>)
        ensures
            with_ensures(self, r, field@, FieldVal::Float(value)),
    {
        let mut d = self;
        match d.set_float(field, value) {
            Ok(()) => Ok(d),
            Err(e) => Err(e),
        }
    }

    /// Set a 64-bit integer field and return the document, for chaining.
    pub fn with_int64(self, field: &str, value: i64) -> (r: Result<Doc>)
        ensures
            with_ensures(self, r, field@, FieldVal::Int64(value)),
    {
        let mut d = self;
        match d.set_int64(field, value) {
            Ok(()) => Ok(d),
            Err(e) => Err(e),
        }
    }

    /// Get a boolean field's value.
    pub fn get_bool(&self, field: &str) -> (r: Option<bool>)
        ensures
            r == (match self@.value_of(field@) {
                Some(FieldVal::Bool(v)) => Some(v),
                _ => None::<bool>,
            }),
    {
        match self.find_field(field) {
            Some(i) => match &self.fields[i].1 {
                FieldValue::Bool(v) => Some(*v),
                _ => None,
            },
            None => None,
        }
    }

    /// Get a 32-bit integer field's value.
    pub fn get_int32(&self, field: &str) -> (r: Option<i32>)
        ensures
            r == (match self@.value_of(field@) {
                Some(FieldVal::Int32(v)) => Some(v),
                _ => None::<i32>,
            }),
    {
        match self.find_field(field) {
            Some(i) => match &self.fields[i].1 {
                FieldValue::Int32(v) => Some(*v),
                _ => None,
            },
            None => None,
        }
    }

    /// Get a 64-bit integer field's value.
    pub fn get_int64(&self, field: &str) -> (r: Option<i64>)
        ensures
            r == (match self@.value_of(field@) {
                Some(FieldVal::Int64(v)) => Some(v),
                _ => None::<i64>,
            }),
    {
        match self.find_field(field) {
            Some(i) => match &self.fields[i].1 {
                FieldValue::Int64(v) => Some(*v),
                _ => None,
            },
            None => None,
        }
    }

    /// Get an fp32 field's value, as its bit pattern.
    pub fn get_float(&self, field: &str) -> (r: Option<u32>)
        ensures
            r == (match self@.value_of(field@) {
                Some(FieldVal::Float(v)) => Some(v),
                _ => None::<u32>,
            }),
    {
        match self.find_field(field) {
            Some(i) => match &self.fields[i].1 {
                FieldValue::Float(v) => Some(*v),
                _ => None,
            },
            None => None,
        }
    }

    /// Get a string field's value.
    pub fn get_string(&self, field: &str) -> (r: Option<&str>)
        ensures
            match r {
                Some(s) => self@.value_of(field@) == Some(FieldVal::Str(s@)),
                None => !(self@.value_of(field@) matches Some(v) && v is Str),
            },
    {
        match self.find_field(field) {
            Some(i) => match &self.fields[i].1 {
                FieldValue::Str(v) => Some(v.as_str()),
                _ => None,
            },
            None => None,
        }
    }

    /// Get a dense vector field's components.
    pub fn get_vector(&self, field: &str) -> (r: Option<Vec<i32>>)
        ensures
            match r {
                Some(v) => self@.value_of(field@) == Some(FieldVal::Vector(v@)),
                None => !(self@.value_of(field@) matches Some(v) && v is Vector),
            },
    {
        match self.find_field(field) {
            Some(i) => match &self.fields[i].1 {
                FieldValue::Vector(v) => {
                    let copy = v.clone();
                    proof {
                        assert(copy@ =~= v@);
                    }
                    Some(copy)
                },
                _ => None,
            },
            None => None,
        }
    }

    /// Whether the document has a field of this name, null or not.
    pub fn has(&self, field: &str) -> (r: bool)
        ensures
            r == self@.has_field(field@),
    {
        self.find_field(field).is_some()
    }

    /// Whether the document has a field of this name holding a non-null
    /// value.
    pub fn has_value(&self, field: &str) -> (r: bool)
        ensures
            r == (self@.value_of(field@) matches Some(v) && !(v is Null)),
    {
        match self.find_field(field) {
            Some(i) => !matches!(&self.fields[i].1, FieldValue::Null),
            None => false,
        }
    }

    /// Whether the document has a field of this name holding a null value.
    pub fn is_null(&self, field: &str) -> (r: bool)
        ensures
            r == (self@.value_of(field@) matches Some(v) && v is Null),
    {
        match self.find_field(field) {
            Some(i) => matches!(&self.fields[i].1, FieldValue::Null),
            None => false,
        }
    }
}

impl Default for Doc {
    /// An empty document.
    fn default() -> (d: Doc)
        ensures
            d@.pk == Seq::<char>::empty(),
            d@.fields == Seq::<(Seq<char>, FieldVal)>::empty(),
    {
        Doc::new()
    }
}

/// What every typed setter ensures: success exactly when the kind is
/// accepted, the one field updated on success, and no change on failure.
pub open spec fn set_ensures(
    pre: Doc,
    post: Doc,
    r: Result<()>,
    name: Seq<char>,
    v: FieldVal,
) -> bool {
    &&& (r is Ok <==> set_allowed(pre@.fields, name, v))
    &&& (r is Ok ==> post@ == (DocView { fields: spec_set_field(pre@.fields, name, v), ..pre@ }))
    &&& (r matches Err(e) ==> e is InvalidArgument && post@ == pre@)
}

/// What every chaining setter ensures: as `set_ensures`, with the document
/// returned on success.
pub open spec fn with_ensures(pre: Doc, r: Result<Doc>, name: Seq<char>, v: FieldVal) -> bool {
    &&& (r is Ok <==> set_allowed(pre@.fields, name, v))
    &&& (r matches Ok(d) ==> d@ == (DocView {
        fields: spec_set_field(pre@.fields, name, v),
        ..pre@
    }))
    &&& (r matches Err(e) ==> e is InvalidArgument)
}

/// A borrowed view of a document inside a result container, valid while the
/// container lives.
pub struct DocRef<'a> {
    doc: &'a Doc,
}

impl<'a> DocRef<'a> {
    /// The document this reference borrows.
    pub closed spec fn view_of(self) -> DocView {
        self.doc@
    }

    pub(crate) fn borrowing(doc: &'a Doc) -> (r: DocRef<'a>)
        ensures
            r.view_of() == doc@,
    {
        DocRef { doc }
    }

    /// Get the primary key.
    pub fn pk(&self) -> (r: &str)
        ensures
            r@ == self.view_of().pk,
    {
        self.doc.pk()
    }

    /// The rank score the collection gave this document.
    pub fn score(&self) -> (r: i128)
        ensures
            r == self.view_of().score,
    {
        self.doc.score()
    }

    /// The internal id the collection gave this document.
    pub fn doc_id(&self) -> (r: u64)
        ensures
            r == self.view_of().doc_id,
    {
        self.doc.doc_id()
    }

    /// Get a string field's value.
    pub fn get_string(&self, field: &str) -> (r: Option<&str>)
        ensures
            match r {
                Some(s) => self.view_of().value_of(field@) == Some(FieldVal::Str(s@)),
                None => !(self.view_of().value_of(field@) matches Some(v) && v is Str),
            },
    {
        self.doc.get_string(field)
    }

    /// Get an fp32 field's value, as its bit pattern.
    pub fn get_float(&self, field: &str) -> (r: Option<u32>)
        ensures
            r == (match self.view_of().value_of(field@) {
                Some(FieldVal::Float(v)) => Some(v),
                _ => None::<u32>,
            }),
    {
        self.doc.get_float(field)
    }

    /// Get a 64-bit integer field's value.
    pub fn get_int64(&self, field: &str) -> (r: Option<i64>)
        ensures
            r == (match self.view_of().value_of(field@) {
                Some(FieldVal::Int64(v)) => Some(v),
                _ => None::<i64>,
            }),
    {
        self.doc.get_int64(field)
    }

    /// Get a dense vector field's components.
    pub fn get_vector(&self, field: &str) -> (r: Option<Vec<i32>>)
        ensures
            match r {
                Some(v) => self.view_of().value_of(field@) == Some(FieldVal::Vector(v@)),
                None => !(self.view_of().value_of(field@) matches Some(v) && v is Vector),
            },
    {
        self.doc.get_vector(field)
    }
}

/// An ordered list of result documents, owned by the query that returned it.
pub struct DocList {
    docs: Vec<Doc>,
}

impl View for DocList {
    type V = Seq<DocView>;

    closed spec fn view(&self) -> Seq<DocView> {
        self.docs@.map_values(|d: Doc| d@)
    }
}

impl DocList {
    pub(crate) fn from_docs(docs: Vec<Doc>) -> (r: DocList)
        ensures
            r@ == docs@.map_values(|d: Doc| d@),
    {
        DocList { docs }
    }

    /// The number of documents in the list.
    pub fn len(&self) -> (r: usize)
        ensures
            r == self@.len(),
    {
        self.docs.len()
    }

    /// Whether the list is empty.
    pub fn is_empty(&self) -> (r: bool)
        ensures
            r == (self@.len() == 0),
    {
        self.docs.len() == 0
    }

    /// The document at the given position, best match first.
    pub fn get(&self, index: usize) -> (r: Option<DocRef<'_>>)
        ensures
            match r {
                Some(d) => index < self@.len() && d.view_of() == self@[index as int],
                None => index >= self@.len(),
            },
    {
        if index < self.docs.len() {
            Some(DocRef::borrowing(&self.docs[index]))
        } else {
            None
        }
    }

    /// Walk the documents in order.
    pub fn iter(&self) -> (r: DocListIter<'_>)
        ensures
            r.list_view() == self@,
            r.position() == 0,
    {
        DocListIter { docs: self, index: 0 }
    }
}

/// A cursor over a [`DocList`].
pub struct DocListIter<'a> {
    docs: &'a DocList,
    index: usize,
}

impl<'a> DocListIter<'a> {
    /// The list being walked.
    pub closed spec fn list_view(self) -> Seq<DocView> {
        self.docs@
    }

    /// How many documents have been handed out.
    pub closed spec fn position(self) -> int {
        self.index as int
    }

    /// The next document, or `None` past the end.
    pub fn next(&mut self) -> (r: Option<DocRef<'a>>)
        ensures
            final(self).list_view() == old(self).list_view(),
            match r {
                Some(d) => old(self).position() < old(self).list_view().len() && d.view_of() == old(
                    self,
                ).list_view()[old(self).position()] && final(self).position() == old(
                    self,
                ).position() + 1,
                None => old(self).position() >= old(self).list_view().len() && *final(self)
                    == *old(self),
            },
    {
        if self.index < self.docs.docs.len() {
            let r = DocRef::borrowing(&self.docs.docs[self.index]);
            self.index = self.index + 1;
            Some(r)
        } else {
            None
        }
    }
}

/// The per-document outcomes of one write batch, in input order.
///
/// Each entry is an engine-shaped status: a code and a message. Reading an
/// entry translates it through the error taxonomy.
pub struct WriteResults {
    statuses: Vec<(u32, String)>,
}

impl View for WriteResults {
    type V = Seq<(u32, Seq<char>)>;

    closed spec fn view(&self) -> Seq<(u32, Seq<char>)> {
        self.statuses@.map_values(|p: (u32, String)| (p.0, p.1@))
    }
}

impl WriteResults {
    pub(crate) fn from_statuses(statuses: Vec<(u32, String)>) -> (r: WriteResults)
        ensures
            r@ == statuses@.map_values(|p: (u32, String)| (p.0, p.1@)),
    {
        WriteResults { statuses }
    }

    /// The number of statuses: one per input document.
    pub fn len(&self) -> (r: usize)
        ensures
            r == self@.len(),
    {
        self.statuses.len()
    }

    /// Whether the batch was empty.
    pub fn is_empty(&self) -> (r: bool)
        ensures
            r == (self@.len() == 0),
    {
        self.statuses.len() == 0
    }

    /// The outcome at the given position: success for the OK status code, the
    /// translated error otherwise; `None` past the end.
    pub fn get(&self, index: usize) -> (r: Option<Result<()>>)
        ensures
            match r {
                Some(res) => {
                    &&& index < self@.len()
                    &&& (res is Ok <==> self@[index as int].0 == STATUS_OK)
                    &&& (res matches Err(e) ==> error_matches_code(
                        e,
                        self@[index as int].0,
                        self@[index as int].1,
                    ))
                },
                None => index >= self@.len(),
            },
    {
        if index < self.statuses.len() {
            let (code, message) = (self.statuses[index].0, self.statuses[index].1.clone());
            Some(status_to_result(code, message))
        } else {
            None
        }
    }

    /// Walk the outcomes in input order.
    pub fn iter(&self) -> (r: WriteResultsIter<'_>)
        ensures
            r.results_view() == self@,
            r.position() == 0,
    {
        WriteResultsIter { results: self, index: 0 }
    }
}

/// A cursor over a [`WriteResults`].
pub struct WriteResultsIter<'a> {
    results: &'a WriteResults,
    index: usize,
}

impl<'a> WriteResultsIter<'a> {
    /// The statuses being walked.
    pub closed spec fn results_view(self) -> Seq<(u32, Seq<char>)> {
        self.results@
    }

    /// How many outcomes have been handed out.
    pub closed spec fn position(self) -> int {
        self.index as int
    }

    /// The next outcome, or `None` past the end.
    pub fn next(&mut self) -> (r: Option<Result<()>>)
        ensures
            final(self).results_view() == old(self).results_view(),
            match r {
                Some(res) => {
                    &&& old(self).position() < old(self).results_view().len()
                    &&& (res is Ok <==> old(self).results_view()[old(self).position()].0
                        == STATUS_OK)
                    &&& final(self).position() == old(self).position() + 1
                },
                None => old(self).position() >= old(self).results_view().len() && *final(self)
                    == *old(self),
            },
    {
        let i = self.index;
        if i < self.results.statuses.len() {
            self.index = i + 1;
            self.results.get(i)
        } else {
            None
        }
    }
}

/// Documents fetched by primary key; a key that was not found is simply
/// absent.
pub struct DocMap {
    entries: Vec<(String, Doc)>,
}

impl View for DocMap {
    type V = Seq<(Seq<char>, DocView)>;

    closed spec fn view(&self) -> Seq<(Seq<char>, DocView)> {
        self.entries@.map_values(|p: (String, Doc)| (p.0@, p.1@))
    }
}

impl DocMap {
    pub(crate) fn from_entries(entries: Vec<(String, Doc)>) -> (r: DocMap)
        ensures
            r@ == entries@.map_values(|p: (String, Doc)| (p.0@, p.1@)),
    {
        DocMap { entries }
    }

    /// The number of documents found.
    pub fn len(&self) -> (r: usize)
        ensures
            r == self@.len(),
    {
        self.entries.len()
    }

    /// Whether nothing was found.
    pub fn is_empty(&self) -> (r: bool)
        ensures
            r == (self@.len() == 0),
    {
        self.entries.len() == 0
    }

    /// The document fetched under this primary key, or `None` when the key
    /// was not found.
    pub fn get(&self, pk: &str) -> (r: Option<DocRef<'_>>)
        ensures
            match r {
                Some(d) => value_of(self@, pk@) == Some(d.view_of()),
                None => value_of(self@, pk@) is None,
            },
    {
        let name = String::from_str(pk);
        let n = self.entries.len();
        proof {
            lemma_field_idx(self@, pk@);
        }
        for i in 0..n
            invariant
                n == self.entries.len(),
                name@ == pk@,
                forall|j: int| 0 <= j < i ==> self@[j].0 != pk@,
                field_idx(self@, pk@) == -1 || 0 <= field_idx(self@, pk@) < self.entries.len(),
                field_idx(self@, pk@) >= 0 ==> self@[field_idx(self@, pk@)].0 == pk@,
                forall|j: int|
                    0 <= j < self.entries.len() && (field_idx(self@, pk@) == -1 || j < field_idx(
                        self@,
                        pk@,
                    )) ==> self@[j].0 != pk@,
        {
            proof {
                assert(self@[i as int] == (self.entries@[i as int].0@, self.entries@[
                    i as int].1@));
            }
            if self.entries[i].0 == name {
                return Some(DocRef::borrowing(&self.entries[i].1));
            }
        }
        None
    }

    /// The primary keys of the documents found, in fetch order.
    pub fn keys(&self) -> (r: Vec<String>)
        ensures
            r@.map_values(|s: String| s@) == self@.map_values(|p: (Seq<char>, DocView)| p.0),
    {
        let mut keys: Vec<String> = Vec::new();
        let n = self.entries.len();
        for i in 0..n
            invariant
                n == self.entries.len(),
                keys@.len() == i,
                forall|j: int| 0 <= j < i ==> keys@[j]@ == self@[j].0,
        {
            proof {
                assert(self@[i as int] == (self.entries@[i as int].0@, self.entries@[
                    i as int].1@));
            }
            keys.push(self.entries[i].0.clone());
        }
        proof {
            assert(keys@.map_values(|s: String| s@) =~= self@.map_values(
                |p: (Seq<char>, DocView)| p.0,
            ));
        }
        keys
    }
}

} // verus!
