//! Tags naming field data types, index families, ranking metrics and
//! quantization modes.

use vstd::prelude::*;

verus! {

/// The data type of a document field.
#[derive(Debug, Clone, Copy, PartialEq, Eq, Hash, Structural)]
pub enum DataType {
    Undefined,
    Binary,
    String,
    Bool,
    Int32,
    Int64,
    UInt32,
    UInt64,
    Float,
    Double,
    VectorBinary32,
    VectorBinary64,
    VectorFp16,
    VectorFp32,
    VectorFp64,
    VectorInt4,
    VectorInt8,
    VectorInt16,
    SparseVectorFp16,
    SparseVectorFp32,
    ArrayBinary,
    ArrayString,
    ArrayBool,
    ArrayInt32,
    ArrayInt64,
    ArrayUInt32,
    ArrayUInt64,
    ArrayFloat,
    ArrayDouble,
}

impl DataType {
    /// Whether this type is a vector type, dense or sparse.
    pub fn is_vector(&self) -> (r: bool)
        ensures
            r == self.is_vector_spec(),
    {
        matches!(
            self,
            DataType::VectorBinary32
                | DataType::VectorBinary64
                | DataType::VectorFp16
                | DataType::VectorFp32
                | DataType::VectorFp64
                | DataType::VectorInt4
                | DataType::VectorInt8
                | DataType::VectorInt16
                | DataType::SparseVectorFp16
                | DataType::SparseVectorFp32
        )
    }

    /// Whether this type is a sparse vector type.
    pub fn is_sparse_vector(&self) -> (r: bool)
        ensures
            r == self.is_sparse_vector_spec(),
    {
        matches!(self, DataType::SparseVectorFp16 | DataType::SparseVectorFp32)
    }

    pub open spec fn is_vector_spec(self) -> bool {
        self is VectorBinary32 || self is VectorBinary64 || self is VectorFp16
            || self is VectorFp32 || self is VectorFp64 || self is VectorInt4
            || self is VectorInt8 || self is VectorInt16 || self is SparseVectorFp16
            || self is SparseVectorFp32
    }

    pub open spec fn is_sparse_vector_spec(self) -> bool {
        self is SparseVectorFp16 || self is SparseVectorFp32
    }
}

/// The family of an index built over a field.
#[derive(Debug, Clone, Copy, PartialEq, Eq, Hash, Structural)]
pub enum IndexType {
    Undefined,
    /// Graph-based approximate nearest-neighbour index.
    Hnsw,
    /// Clustering-based inverted-file index.
    Ivf,
    /// Exact brute-force index.
    Flat,
    /// Inverted index over a scalar field.
    Invert,
}

/// The metric ranking vectors against a query target.
#[derive(Debug, Clone, Copy, PartialEq, Eq, Hash, Structural)]
pub enum MetricType {
    Undefined,
    /// Squared Euclidean distance; a smaller value is a better match.
    L2,
    /// Inner product similarity; a larger value is a better match.
    Ip,
    /// Cosine-style similarity; a larger value is a better match.
    Cosine,
    /// Combined maximum-inner-product metric ranked as a distance.
    MipsL2,
}

impl MetricType {
    /// Whether this metric ranks by distance (smaller is better) rather than
    /// by similarity (larger is better).
    pub fn is_distance(&self) -> (r: bool)
        ensures
            r == self.is_distance_spec(),
    {
        matches!(self, MetricType::Undefined | MetricType::L2 | MetricType::MipsL2)
    }

    pub open spec fn is_distance_spec(self) -> bool {
        self is Undefined || self is L2 || self is MipsL2
    }
}

/// The quantization applied to stored vectors of an index.
#[derive(Debug, Clone, Copy, PartialEq, Eq, Hash, Structural)]
pub enum QuantizeType {
    Undefined,
    Fp16,
    Int8,
    Int4,
}

} // verus!
