//! An embedded vector-search collection library.
//!
//! A [`Collection`] stores documents — a primary key plus typed scalar,
//! dense-vector and sparse-vector fields — inside an explicit [`Storage`]
//! value, and answers similarity queries ranked by an exact integer metric.
//! Every operation carries a contract describing the statuses it returns and
//! the state it leaves behind; a [`SharedCollection`] shares one collection
//! across owners under a reader/writer lock.

use vstd::prelude::*;

pub mod collection;
pub mod doc;
pub mod error;
pub mod filter;
pub mod query;
pub mod schema;
pub mod score;
pub mod sync;
pub mod text;
pub mod types;

verus! {

pub use collection::Collection;
pub use collection::CollectionOptions;
pub use collection::IndexParams;
pub use collection::Storage;
pub use doc::Doc;
pub use doc::DocList;
pub use doc::DocListIter;
pub use doc::DocMap;
pub use doc::DocRef;
pub use doc::WriteResults;
pub use error::Error;
pub use error::Result;
pub use query::GroupByVectorQuery;
pub use query::GroupResultRef;
pub use query::GroupResults;
pub use query::VectorQuery;
pub use schema::CollectionSchema;
pub use schema::FieldSchema;
pub use schema::VectorSchema;
pub use sync::SharedCollection;
pub use sync::create_and_open_shared;
pub use sync::open_shared;
pub use types::DataType;
pub use types::IndexType;
pub use types::MetricType;
pub use types::QuantizeType;

/// Create a collection at the path inside the storage and open a handle on
/// it; the schema is consumed.
pub fn create_and_open(store: &mut Storage, path: &str, schema: CollectionSchema) -> (r: Result<
    Collection,
>)
    requires
        old(store).wf(),
    ensures
        final(store).wf(),
        path@.len() == 0 ==> (r matches Err(e) && e is InvalidArgument && final(store)@ == old(
            store,
        )@),
        path@.len() > 0 && doc::value_of(old(store)@, path@) is Some ==> (r matches Err(e)
            && e is AlreadyExists && final(store)@ == old(store)@),
        path@.len() > 0 && doc::value_of(old(store)@, path@) is None ==> (r matches Ok(c) && c@ == (
        collection::CollectionView {
            path: path@,
            schema: schema@,
            docs: Seq::empty(),
            indexes: Seq::empty(),
        }) && final(store)@ == old(store)@.push((path@, c@))),
{
    Collection::create_and_open(store, path, schema)
}

/// Open a handle on the collection persisted at the path.
pub fn open(store: &Storage, path: &str) -> (r: Result<Collection>)
    requires
        store.wf(),
    ensures
        match r {
            Ok(c) => doc::value_of(store@, path@) == Some(c@) && c@.wf(),
            Err(e) => e is CollectionNotFound && doc::value_of(store@, path@) is None,
        },
{
    Collection::open(store, path)
}

/// The names of the ranking metrics this library registers.
pub fn list_registered_metrics() -> (r: Vec<String>)
    ensures
        r@.len() == 4,
        r@[0]@ == "L2"@,
        r@[1]@ == "IP"@,
        r@[2]@ == "COSINE"@,
        r@[3]@ == "MIPS_L2"@,
{
    let mut r: Vec<String> = Vec::new();
    r.push(String::from_str("L2"));
    r.push(String::from_str("IP"));
    r.push(String::from_str("COSINE"));
    r.push(String::from_str("MIPS_L2"));
    r
}

} // verus!
