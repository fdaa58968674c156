//! Sharing one collection across owners under reader/writer discipline.
//!
//! A [`SharedCollection`] holds one [`Collection`] behind a reference-counted
//! reader/writer lock. Clones are cheap and observe the same collection;
//! reads — query, grouped query, fetch, path — take the shared lock and run
//! concurrently, while writes take the exclusive lock and are serialized
//! against everything else. The lock's invariant carries the collection's
//! well-formedness, its path and its schema — none of which any operation
//! changes — so every contract here pins what depends on the schema alone
//! and holds of whatever state other owners have driven the documents and
//! indexes into. Destroying refuses, harmlessly, while other owners remain:
//! it reclaims sole ownership first.

use vstd::prelude::*;
use vstd::rwlock::RwLock;
use vstd::rwlock::RwLockPredicate;
use std::sync::Arc;

use crate::collection::Collection;
use crate::collection::CollectionView;
use crate::schema::CollectionSchemaView;
use crate::collection::IndexParams;
use crate::collection::Storage;
use crate::collection::doc_views;
use crate::collection::group_query_post;
use crate::collection::index_idx;
use crate::collection::insert_step;
use crate::collection::query_post;
use crate::collection::update_step;
use crate::collection::upsert_step;
use crate::collection::write_fold;
use crate::doc::Doc;
use crate::doc::DocList;
use crate::doc::DocMap;
use crate::doc::WriteResults;
use crate::doc::field_idx;
use crate::doc::value_of;
use crate::error::Error;
use crate::error::Result;
use crate::query::GroupByVectorQuery;
use crate::query::GroupResults;
use crate::query::VectorQuery;
use crate::schema::CollectionSchema;

verus! {

/// Relies on std::sync::Arc::clone: the clone refers to the same allocation,
/// so it carries the same value.
#[verifier::external_body]
fn arc_clone<T>(v: &Arc<T>) -> (res: Arc<T>)
    ensures
        res == *v,
{
    Arc::clone(v)
}

/// Relies on std::sync::Arc::try_unwrap: it returns the inner value when this
/// is the sole strong reference, and otherwise returns the same handle back.
#[verifier::external_body]
fn arc_try_unwrap<T>(v: Arc<T>) -> (res: core::result::Result<T, Arc<T>>)
    ensures
        match res {
            Ok(t) => t == v,
            Err(e) => e == v,
        },
{
    Arc::try_unwrap(v)
}

/// What the shared lock protects: a well-formed collection at a fixed path
/// under a fixed schema. No operation changes a collection's path or schema,
/// so both are pinned for the lifetime of the lock.
pub struct SharedPred {
    pub path: Seq<char>,
    pub schema: CollectionSchemaView,
}

impl RwLockPredicate<Collection> for SharedPred {
    open spec fn inv(self, c: Collection) -> bool {
        c@.wf() && c@.path == self.path && c@.schema == self.schema
    }
}

/// A collection shared by reference-counted owners under a reader/writer
/// lock.
pub struct SharedCollection {
    inner: Arc<RwLock<Collection, SharedPred>>,
}

/// What every operation answers for: some well-formed state of the shared
/// collection, at this handle's path and under its fixed schema. Which state
/// depends on what other owners have done; the path and schema never change.
pub open spec fn read_view_of(path: Seq<char>, schema: CollectionSchemaView, c: CollectionView) -> bool {
    c.wf() && c.path == path && c.schema == schema
}

impl SharedCollection {
    /// The path of the collection all owners share.
    pub closed spec fn path_spec(self) -> Seq<char> {
        self.inner.pred().path
    }

    /// The schema of the collection all owners share; no operation changes
    /// it.
    pub closed spec fn schema_spec(self) -> CollectionSchemaView {
        self.inner.pred().schema
    }

    /// Share a collection: the sole owner so far.
    pub fn new(collection: Collection) -> (h: SharedCollection)
        requires
            collection@.wf(),
        ensures
            h.path_spec() == collection@.path,
            h.schema_spec() == collection@.schema,
    {
        let ghost pred = SharedPred { path: collection@.path, schema: collection@.schema };
        let lock = RwLock::<Collection, SharedPred>::new(collection, Ghost(pred));
        SharedCollection { inner: Arc::new(lock) }
    }

    /// Search the shared collection, under the shared lock.
    pub fn query(&self, query: VectorQuery) -> (r: Result<DocList>)
        ensures
            exists|c: CollectionView|
                #[trigger] read_view_of(self.path_spec(), self.schema_spec(), c) && query_post(c, query@, r),
    {
        let handle = self.inner.acquire_read();
        let r = handle.borrow().query(query);
        let ghost c = handle@@;
        handle.release_read();
        proof {
            assert(read_view_of(self.path_spec(), self.schema_spec(), c));
        }
        r
    }

    /// Run a grouped search on the shared collection, under the shared lock.
    pub fn group_by_query(&self, query: GroupByVectorQuery) -> (r: Result<GroupResults>)
        ensures
            exists|c: CollectionView|
                #[trigger] read_view_of(self.path_spec(), self.schema_spec(), c) && group_query_post(c, query@, r),
    {
        let handle = self.inner.acquire_read();
        let r = handle.borrow().group_by_query(query);
        let ghost c = handle@@;
        handle.release_read();
        proof {
            assert(read_view_of(self.path_spec(), self.schema_spec(), c));
        }
        r
    }

    /// Fetch documents by primary key, under the shared lock.
    pub fn fetch(&self, pks: &[&str]) -> (r: Result<DocMap>)
        ensures
            exists|c: CollectionView|
                #[trigger] read_view_of(self.path_spec(), self.schema_spec(), c) && (r matches Ok(m) && m@
                    == crate::collection::fetch_entries(c.docs, pks@.map_values(|s: &str| s@))),
    {
        let handle = self.inner.acquire_read();
        let r = handle.borrow().fetch(pks);
        let ghost c = handle@@;
        handle.release_read();
        proof {
            assert(read_view_of(self.path_spec(), self.schema_spec(), c));
        }
        r
    }

    /// The path the shared collection is stored under.
    pub fn path(&self) -> (r: Result<String>)
        ensures
            r matches Ok(p) && p@ == self.path_spec(),
    {
        let handle = self.inner.acquire_read();
        let r = handle.borrow().path();
        handle.release_read();
        r
    }

    /// Insert documents, under the exclusive lock.
    pub fn insert(&self, docs: &[Doc]) -> (r: Result<WriteResults>)
        ensures
            exists|c: CollectionView|
                #[trigger] read_view_of(self.path_spec(), self.schema_spec(), c) && (r matches Ok(w)
                    && w@.map_values(|p: (u32, Seq<char>)| p.0) == write_fold(
                    c.docs,
                    doc_views(docs@),
                    insert_step(c.schema),
                ).1),
    {
        let (mut c, handle) = self.inner.acquire_write();
        let ghost pre = c@;
        let r = c.insert(docs);
        handle.release_write(c);
        proof {
            assert(read_view_of(self.path_spec(), self.schema_spec(), pre));
        }
        r
    }

    /// Upsert documents, under the exclusive lock.
    pub fn upsert(&self, docs: &[Doc]) -> (r: Result<WriteResults>)
        ensures
            exists|c: CollectionView|
                #[trigger] read_view_of(self.path_spec(), self.schema_spec(), c) && (r matches Ok(w)
                    && w@.map_values(|p: (u32, Seq<char>)| p.0) == write_fold(
                    c.docs,
                    doc_views(docs@),
                    upsert_step(c.schema),
                ).1),
    {
        let (mut c, handle) = self.inner.acquire_write();
        let ghost pre = c@;
        let r = c.upsert(docs);
        handle.release_write(c);
        proof {
            assert(read_view_of(self.path_spec(), self.schema_spec(), pre));
        }
        r
    }

    /// Update documents, under the exclusive lock.
    pub fn update(&self, docs: &[Doc]) -> (r: Result<WriteResults>)
        ensures
            exists|c: CollectionView|
                #[trigger] read_view_of(self.path_spec(), self.schema_spec(), c) && (r matches Ok(w)
                    && w@.map_values(|p: (u32, Seq<char>)| p.0) == write_fold(
                    c.docs,
                    doc_views(docs@),
                    update_step(c.schema),
                ).1),
    {
        let (mut c, handle) = self.inner.acquire_write();
        let ghost pre = c@;
        let r = c.update(docs);
        handle.release_write(c);
        proof {
            assert(read_view_of(self.path_spec(), self.schema_spec(), pre));
        }
        r
    }

    /// Delete documents by primary key, under the exclusive lock.
    pub fn delete(&self, pks: &[&str]) -> (r: Result<WriteResults>)
        ensures
            exists|c: CollectionView|
                #[trigger] read_view_of(self.path_spec(), self.schema_spec(), c) && (r matches Ok(w)
                    && w@.map_values(|p: (u32, Seq<char>)| p.0) == write_fold(
                    c.docs,
                    pks@.map_values(|s: &str| s@),
                    crate::collection::delete_step(),
                ).1),
    {
        let (mut c, handle) = self.inner.acquire_write();
        let ghost pre = c@;
        let r = c.delete(pks);
        handle.release_write(c);
        proof {
            assert(read_view_of(self.path_spec(), self.schema_spec(), pre));
        }
        r
    }

    /// Delete every document matching the filter, under the exclusive lock.
    pub fn delete_by_filter(&self, filter: &str) -> (r: Result<()>)
        ensures
            r is Ok <==> crate::filter::parse_filter_spec(filter@) is Some,
            r matches Err(e) ==> e is InvalidArgument,
    {
        let (mut c, handle) = self.inner.acquire_write();
        let r = c.delete_by_filter(filter);
        handle.release_write(c);
        r
    }

    /// Build an index on a field, under the exclusive lock.
    pub fn create_index(&self, column_name: &str, params: IndexParams) -> (r: Result<()>)
        ensures
            exists|c: CollectionView|
                #[trigger] read_view_of(self.path_spec(), self.schema_spec(), c) && (match c.schema.field_schema(
                    column_name@,
                ) {
                    None => r matches Err(e) && e is FieldNotFound,
                    Some(fs) => {
                        if index_idx(c.indexes, column_name@) >= 0 {
                            r matches Err(e) && e is AlreadyExists
                        } else if (params@.index_type is Invert) != !fs.data_type.is_vector_spec() {
                            r matches Err(e) && e is InvalidArgument
                        } else {
                            r is Ok
                        }
                    },
                }),
    {
        let (mut c, handle) = self.inner.acquire_write();
        let ghost pre = c@;
        let r = c.create_index(column_name, params);
        handle.release_write(c);
        proof {
            assert(read_view_of(self.path_spec(), self.schema_spec(), pre));
        }
        r
    }

    /// Remove the index built on a field, under the exclusive lock.
    pub fn drop_index(&self, column_name: &str) -> (r: Result<()>)
        ensures
            exists|c: CollectionView|
                #[trigger] read_view_of(self.path_spec(), self.schema_spec(), c) && (r is Ok <==> index_idx(
                    c.indexes,
                    column_name@,
                ) >= 0),
            r matches Err(e) ==> e is IndexNotFound,
    {
        let (mut c, handle) = self.inner.acquire_write();
        let ghost pre = c@;
        let r = c.drop_index(column_name);
        handle.release_write(c);
        proof {
            assert(read_view_of(self.path_spec(), self.schema_spec(), pre));
        }
        r
    }

    /// Ask the engine to reclaim and compact, under the exclusive lock.
    pub fn optimize(&self) -> (r: Result<()>)
        ensures
            r is Ok,
    {
        let (c, handle) = self.inner.acquire_write();
        let r = c.optimize();
        handle.release_write(c);
        r
    }

    /// Persist the shared collection's state at its path, under the
    /// exclusive lock.
    pub fn flush(&self, store: &mut Storage) -> (r: Result<()>)
        requires
            old(store).wf(),
        ensures
            final(store).wf(),
            r matches Err(e) ==> e is CollectionNotFound && final(store)@ == old(store)@
                && value_of(old(store)@, self.path_spec()) is None,
            r is Ok ==> exists|c: CollectionView|
                #[trigger] read_view_of(self.path_spec(), self.schema_spec(), c) && final(store)@ == old(
                    store,
                )@.update(field_idx(old(store)@, self.path_spec()), (self.path_spec(), c)),
    {
        let (c, handle) = self.inner.acquire_write();
        let ghost cv = c@;
        let r = c.flush(store);
        handle.release_write(c);
        proof {
            assert(read_view_of(self.path_spec(), self.schema_spec(), cv));
        }
        r
    }

    /// Destroy the shared collection: refused, leaving storage intact, while
    /// other owners remain; once this handle is the sole owner it reclaims
    /// the collection and deletes the state persisted at its path.
    pub fn destroy(self, store: &mut Storage) -> (r: Result<()>)
        requires
            old(store).wf(),
        ensures
            final(store).wf(),
            r is Ok ==> field_idx(old(store)@, self.path_spec()) >= 0 && final(store)@ == old(
                store,
            )@.remove(field_idx(old(store)@, self.path_spec())) && value_of(
                final(store)@,
                self.path_spec(),
            ) is None,
            r matches Err(e) ==> final(store)@ == old(store)@ && (e is InvalidArgument || (
            e is CollectionNotFound && value_of(old(store)@, self.path_spec()) is None)),
    {
        match arc_try_unwrap(self.inner) {
            Ok(lock) => {
                let c = lock.into_inner();
                c.destroy(store)
            },
            Err(_) => Err(
                Error::InvalidArgument(
                    String::from_str("cannot destroy a shared collection: other owners remain"),
                ),
            ),
        }
    }
}

impl Clone for SharedCollection {
    /// Another owner of the same collection; the reference count grows by
    /// one.
    fn clone(&self) -> (h: SharedCollection)
        ensures
            h.path_spec() == self.path_spec(),
    {
        SharedCollection { inner: arc_clone(&self.inner) }
    }
}

/// Create a collection at the path and share it.
pub fn create_and_open_shared(store: &mut Storage, path: &str, schema: CollectionSchema) -> (r:
    Result<SharedCollection>)
    requires
        old(store).wf(),
    ensures
        final(store).wf(),
        r matches Ok(h) ==> h.path_spec() == path@ && h.schema_spec() == schema@ && value_of(
            old(store)@,
            path@,
        ) is None && final(store)@ == old(store)@.push(
            (
                path@,
                crate::collection::CollectionView {
                    path: path@,
                    schema: schema@,
                    docs: Seq::empty(),
                    indexes: Seq::empty(),
                },
            ),
        ),
        r matches Err(e) ==> final(store)@ == old(store)@ && (e is InvalidArgument
            || e is AlreadyExists),
{
    proof {
        crate::doc::lemma_field_idx(old(store)@, path@);
    }
    match Collection::create_and_open(store, path, schema) {
        Ok(c) => {
            proof {
                crate::doc::lemma_field_idx(store@, path@);
                assert(store@[store@.len() - 1] == (path@, c@));
            }
            Ok(SharedCollection::new(c))
        },
        Err(e) => Err(e),
    }
}

/// Open the collection persisted at the path and share it.
pub fn open_shared(store: &Storage, path: &str) -> (r: Result<SharedCollection>)
    requires
        store.wf(),
    ensures
        r matches Ok(h) ==> h.path_spec() == path@ && (value_of(store@, path@) matches Some(c)
            && h.schema_spec() == c.schema),
        r matches Err(e) ==> e is CollectionNotFound && value_of(store@, path@) is None,
{
    match Collection::open(store, path) {
        Ok(c) => {
            proof {
                crate::doc::lemma_field_idx(store@, path@);
            }
            Ok(SharedCollection::new(c))
        },
        Err(e) => Err(e),
    }
}

} // verus!
