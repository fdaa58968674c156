//! Schemas: the shape of a collection, described before it is created.
//!
//! A [`FieldSchema`] names one field with its data type, nullability and,
//! for dense vectors, its dimension (0 means variable, as sparse vectors
//! have). A [`CollectionSchema`] is an ordered list of field schemas under a
//! collection name; folding a field in moves ownership, and creating a
//! collection consumes the whole schema, so neither can be used twice.

use vstd::prelude::*;

use crate::error::Error;
use crate::error::Result;
use crate::types::DataType;

verus! {

/// The specification-level value of a field schema.
pub struct FieldSchemaView {
    pub name: Seq<char>,
    pub data_type: DataType,
    pub nullable: bool,
    pub dimension: u32,
}

/// One field of a collection: name, data type, nullable flag and dimension.
pub struct FieldSchema {
    name: String,
    data_type: DataType,
    nullable: bool,
    dimension: u32,
}

impl View for FieldSchema {
    type V = FieldSchemaView;

    closed spec fn view(&self) -> FieldSchemaView {
        FieldSchemaView {
            name: self.name@,
            data_type: self.data_type,
            nullable: self.nullable,
            dimension: self.dimension,
        }
    }
}

impl FieldSchema {
    /// A scalar field of the given type; not nullable, dimension 0.
    pub fn new(name: &str, data_type: DataType) -> (r: FieldSchema)
        ensures
            r@ == (FieldSchemaView { name: name@, data_type, nullable: false, dimension: 0u32 }),
    {
        FieldSchema { name: String::from_str(name), data_type, nullable: false, dimension: 0 }
    }

    /// A vector field of the given type and dimension; not nullable.
    pub fn new_vector(name: &str, data_type: DataType, dimension: u32) -> (r: FieldSchema)
        ensures
            r@ == (FieldSchemaView { name: name@, data_type, nullable: false, dimension }),
    {
        FieldSchema { name: String::from_str(name), data_type, nullable: false, dimension }
    }

    /// A boolean field.
    pub fn bool_(name: &str) -> (r: FieldSchema)
        ensures
            r@ == (FieldSchemaView {
                name: name@,
                data_type: DataType::Bool,
                nullable: false,
                dimension: 0u32,
            }),
    {
        FieldSchema::new(name, DataType::Bool)
    }

    /// A 32-bit integer field.
    pub fn int32(name: &str) -> (r: FieldSchema)
        ensures
            r@ == (FieldSchemaView {
                name: name@,
                data_type: DataType::Int32,
                nullable: false,
                dimension: 0u32,
            }),
    {
        FieldSchema::new(name, DataType::Int32)
    }

    /// A 64-bit integer field.
    pub fn int64(name: &str) -> (r: FieldSchema)
        ensures
            r@ == (FieldSchemaView {
                name: name@,
                data_type: DataType::Int64,
                nullable: false,
                dimension: 0u32,
            }),
    {
        FieldSchema::new(name, DataType::Int64)
    }

    /// An fp32 scalar field.
    pub fn float(name: &str) -> (r: FieldSchema)
        ensures
            r@ == (FieldSchemaView {
                name: name@,
                data_type: DataType::Float,
                nullable: false,
                dimension: 0u32,
            }),
    {
        FieldSchema::new(name, DataType::Float)
    }

    /// An fp64 scalar field.
    pub fn double(name: &str) -> (r: FieldSchema)
        ensures
            r@ == (FieldSchemaView {
                name: name@,
                data_type: DataType::Double,
                nullable: false,
                dimension: 0u32,
            }),
    {
        FieldSchema::new(name, DataType::Double)
    }

    /// A string field.
    pub fn string(name: &str) -> (r: FieldSchema)
        ensures
            r@ == (FieldSchemaView {
                name: name@,
                data_type: DataType::String,
                nullable: false,
                dimension: 0u32,
            }),
    {
        FieldSchema::new(name, DataType::String)
    }

    /// Mark the field nullable or not.
    pub fn set_nullable(&mut self, nullable: bool)
        ensures
            final(self)@ == (FieldSchemaView { nullable, ..old(self)@ }),
    {
        self.nullable = nullable;
    }

    /// The field's name.
    pub fn name(&self) -> (r: &str)
        ensures
            r@ == self@.name,
    {
        self.name.as_str()
    }

    /// The field's data type.
    pub fn data_type(&self) -> (r: DataType)
        ensures
            r == self@.data_type,
    {
        self.data_type
    }

    /// Whether the field is nullable.
    pub fn nullable(&self) -> (r: bool)
        ensures
            r == self@.nullable,
    {
        self.nullable
    }

    /// The field's dimension; 0 for scalars and variable-dimension vectors.
    pub fn dimension(&self) -> (r: u32)
        ensures
            r == self@.dimension,
    {
        self.dimension
    }
}

/// The specification-level value of a collection schema.
pub struct CollectionSchemaView {
    pub name: Seq<char>,
    pub fields: Seq<FieldSchemaView>,
}

impl CollectionSchemaView {
    /// The schema of the named field, if one was added.
    pub open spec fn field_schema(self, name: Seq<char>) -> Option<FieldSchemaView> {
        crate::doc::value_of(self.fields.map_values(|f: FieldSchemaView| (f.name, f)), name)
    }
}

/// The shape of a collection: a name and an ordered list of field schemas.
pub struct CollectionSchema {
    name: String,
    fields: Vec<FieldSchema>,
}

impl View for CollectionSchema {
    type V = CollectionSchemaView;

    closed spec fn view(&self) -> CollectionSchemaView {
        CollectionSchemaView {
            name: self.name@,
            fields: self.fields@.map_values(|f: FieldSchema| f@),
        }
    }
}

impl CollectionSchema {
    /// An empty schema under the given collection name.
    pub fn new(name: &str) -> (r: CollectionSchema)
        ensures
            r@.name == name@,
            r@.fields == Seq::<FieldSchemaView>::empty(),
    {
        let r = CollectionSchema { name: String::from_str(name), fields: Vec::new() };
        proof {
            assert(r@.fields =~= Seq::<FieldSchemaView>::empty());
        }
        r
    }

    /// Fold a field into the schema, taking ownership of it. Fails with
    /// `AlreadyExists`, leaving the schema unchanged, when a field of that
    /// name was already added.
    pub fn add_field(&mut self, field: FieldSchema) -> (r: Result<()>)
        ensures
            r is Ok <==> !(exists|i: int|
                0 <= i < old(self)@.fields.len() && old(self)@.fields[i].name == field@.name),
            r is Ok ==> final(self)@.name == old(self)@.name && final(self)@.fields == old(
                self,
            )@.fields.push(field@),
            r is Err ==> final(self)@ == old(self)@ && (r matches Err(e) ==> e is AlreadyExists),
    {
        let n = self.fields.len();
        for i in 0..n
            invariant
                n == self.fields.len(),
                forall|j: int| 0 <= j < i ==> self@.fields[j].name != field@.name,
        {
            proof {
                assert(self@.fields[i as int] == self.fields@[i as int]@);
            }
            if self.fields[i].name == field.name {
                return Err(Error::AlreadyExists(self.fields[i].name.clone()));
            }
        }
        self.fields.push(field);
        proof {
            assert(final(self)@.fields =~= old(self)@.fields.push(field@));
        }
        Ok(())
    }

    /// The collection name the schema was created under.
    pub fn name(&self) -> (r: &str)
        ensures
            r@ == self@.name,
    {
        self.name.as_str()
    }

    /// Find the schema of the named field.
    pub(crate) fn lookup(&self, name: &str) -> (r: Option<&FieldSchema>)
        ensures
            match r {
                Some(fs) => self@.field_schema(name@) == Some(fs@),
                None => self@.field_schema(name@) is None,
            },
    {
        let ghost pairs = self@.fields.map_values(|f: FieldSchemaView| (f.name, f));
        let needle = String::from_str(name);
        let n = self.fields.len();
        proof {
            crate::doc::lemma_field_idx(pairs, name@);
        }
        for i in 0..n
            invariant
                n == self.fields.len(),
                needle@ == name@,
                pairs == self@.fields.map_values(|f: FieldSchemaView| (f.name, f)),
                pairs.len() == n,
                forall|j: int| 0 <= j < i ==> pairs[j].0 != name@,
                crate::doc::field_idx(pairs, name@) == -1 || 0 <= crate::doc::field_idx(
                    pairs,
                    name@,
                ) < n,
                crate::doc::field_idx(pairs, name@) >= 0 ==> pairs[crate::doc::field_idx(
                    pairs,
                    name@,
                )].0 == name@,
                forall|j: int|
                    0 <= j < n && (crate::doc::field_idx(pairs, name@) == -1 || j
                        < crate::doc::field_idx(pairs, name@)) ==> pairs[j].0 != name@,
        {
            proof {
                assert(pairs[i as int] == (self.fields@[i as int]@.name, self.fields@[i as int]@));
            }
            if self.fields[i].name == needle {
                return Some(&self.fields[i]);
            }
        }
        None
    }

    /// Copy the schema; the copy carries the same abstract value.
    pub(crate) fn duplicate(&self) -> (r: CollectionSchema)
        ensures
            r@ == self@,
    {
        let mut fields: Vec<FieldSchema> = Vec::new();
        let n = self.fields.len();
        for i in 0..n
            invariant
                n == self.fields.len(),
                fields@.len() == i,
                forall|j: int| 0 <= j < i ==> fields@[j]@ == self@.fields[j],
        {
            let f = &self.fields[i];
            fields.push(
                FieldSchema {
                    name: f.name.clone(),
                    data_type: f.data_type,
                    nullable: f.nullable,
                    dimension: f.dimension,
                },
            );
        }
        let r = CollectionSchema { name: self.name.clone(), fields };
        proof {
            assert(r@.fields =~= self@.fields);
            assert(r@ =~= self@);
        }
        r
    }
}

/// A convenience description of one vector field, turned into a
/// [`FieldSchema`] when the schema is assembled.
pub struct VectorSchema {
    name: String,
    data_type: DataType,
    dimension: u32,
}

impl VectorSchema {
    /// A vector field of the given type and dimension.
    pub fn new(name: &str, data_type: DataType, dimension: u32) -> (r: VectorSchema)
        ensures
            r@ == (FieldSchemaView { name: name@, data_type, nullable: false, dimension }),
    {
        VectorSchema { name: String::from_str(name), data_type, dimension }
    }

    /// A dense fp32 vector field.
    pub fn fp32(name: &str, dimension: u32) -> (r: VectorSchema)
        ensures
            r@ == (FieldSchemaView {
                name: name@,
                data_type: DataType::VectorFp32,
                nullable: false,
                dimension,
            }),
    {
        VectorSchema::new(name, DataType::VectorFp32, dimension)
    }

    /// A dense fp16 vector field.
    pub fn fp16(name: &str, dimension: u32) -> (r: VectorSchema)
        ensures
            r@ == (FieldSchemaView {
                name: name@,
                data_type: DataType::VectorFp16,
                nullable: false,
                dimension,
            }),
    {
        VectorSchema::new(name, DataType::VectorFp16, dimension)
    }

    /// A sparse fp32 vector field of variable dimension.
    pub fn sparse_fp32(name: &str) -> (r: VectorSchema)
        ensures
            r@ == (FieldSchemaView {
                name: name@,
                data_type: DataType::SparseVectorFp32,
                nullable: false,
                dimension: 0u32,
            }),
    {
        VectorSchema::new(name, DataType::SparseVectorFp32, 0)
    }

    /// A sparse fp32 vector field with a declared dimension.
    pub fn sparse_fp32_with_dim(name: &str, dimension: u32) -> (r: VectorSchema)
        ensures
            r@ == (FieldSchemaView {
                name: name@,
                data_type: DataType::SparseVectorFp32,
                nullable: false,
                dimension,
            }),
    {
        VectorSchema::new(name, DataType::SparseVectorFp32, dimension)
    }

    /// A sparse fp16 vector field of variable dimension.
    pub fn sparse_fp16(name: &str) -> (r: VectorSchema)
        ensures
            r@ == (FieldSchemaView {
                name: name@,
                data_type: DataType::SparseVectorFp16,
                nullable: false,
                dimension: 0u32,
            }),
    {
        VectorSchema::new(name, DataType::SparseVectorFp16, 0)
    }

    /// A sparse fp16 vector field with a declared dimension.
    pub fn sparse_fp16_with_dim(name: &str, dimension: u32) -> (r: VectorSchema)
        ensures
            r@ == (FieldSchemaView {
                name: name@,
                data_type: DataType::SparseVectorFp16,
                nullable: false,
                dimension,
            }),
    {
        VectorSchema::new(name, DataType::SparseVectorFp16, dimension)
    }

    /// Turn this description into a field schema.
    pub fn into_field_schema(self) -> (r: FieldSchema)
        ensures
            r@ == self@,
    {
        FieldSchema::new_vector(self.name.as_str(), self.data_type, self.dimension)
    }
}

impl View for VectorSchema {
    type V = FieldSchemaView;

    closed spec fn view(&self) -> FieldSchemaView {
        FieldSchemaView {
            name: self.name@,
            data_type: self.data_type,
            nullable: false,
            dimension: self.dimension,
        }
    }
}

impl From<VectorSchema> for FieldSchema {
    /// Turn a vector-field description into a field schema.
    fn from(schema: VectorSchema) -> (r: FieldSchema)
        ensures
            r@ == schema@,
    {
        FieldSchema {
            name: schema.name,
            data_type: schema.data_type,
            nullable: false,
            dimension: schema.dimension,
        }
    }
}

impl vstd::std_specs::convert::FromSpecImpl<VectorSchema> for FieldSchema {
    open spec fn obeys_from_spec() -> bool {
        true
    }

    closed spec fn from_spec(t: VectorSchema) -> FieldSchema {
        FieldSchema {
            name: t.name,
            data_type: t.data_type,
            nullable: false,
            dimension: t.dimension,
        }
    }
}

} // verus!
