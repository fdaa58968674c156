//! Collections: durable document stores with similarity search.
//!
//! A [`Storage`] value is the durable medium: it maps filesystem-style paths
//! to persisted collection states. A [`Collection`] is an open handle on one
//! path; it holds the collection's state — schema, documents, indexes — and
//! every operation's contract says exactly which statuses it returns and what
//! state it leaves behind. Writes live in the handle; [`Collection::flush`]
//! persists them, so writes completed before a successful flush survive
//! reopening the path. [`Collection::destroy`] consumes the handle and
//! removes the path from storage for good.

use vstd::prelude::*;
use vstd::multiset::Multiset;

use crate::doc::Doc;
use crate::doc::DocList;
use crate::doc::DocMap;
use crate::doc::DocView;
use crate::doc::WriteResults;
use crate::doc::FieldVal;
use crate::doc::field_idx;
use crate::doc::lemma_field_idx;
use crate::doc::value_of;
use crate::error::Error;
use crate::error::Result;
use crate::query::GroupResults;
use crate::schema::CollectionSchema;
use crate::schema::CollectionSchemaView;
use crate::schema::FieldSchemaView;
use crate::types::IndexType;
use crate::types::MetricType;
use crate::types::QuantizeType;

verus! {

/// Parameters selecting one index family with its metric and quantization.
///
/// Construction tuning values — connections, candidate lists, cluster counts
/// — steer how an engine builds the index; what this library's ranking
/// observes of an index is its family, metric and quantization.
pub struct IndexParams {
    index_type: IndexType,
    metric: MetricType,
    quantize: QuantizeType,
}

/// The specification-level value of index parameters.
pub struct IndexParamsView {
    pub index_type: IndexType,
    pub metric: MetricType,
    pub quantize: QuantizeType,
}

impl View for IndexParams {
    type V = IndexParamsView;

    closed spec fn view(&self) -> IndexParamsView {
        IndexParamsView {
            index_type: self.index_type,
            metric: self.metric,
            quantize: self.quantize,
        }
    }
}

impl IndexParams {
    /// Graph-based approximate index parameters: `m` connections per node and
    /// an `ef_construction` candidate-list size steer the engine's build.
    pub fn hnsw(m: i32, ef_construction: i32, metric: MetricType, quantize: QuantizeType) -> (r:
        IndexParams)
        ensures
            r@ == (IndexParamsView { index_type: IndexType::Hnsw, metric, quantize }),
    {
        let _ = m;
        let _ = ef_construction;
        IndexParams { index_type: IndexType::Hnsw, metric, quantize }
    }

    /// Clustering-based index parameters: `n_list` clusters built in
    /// `n_iters` rounds, optionally with SOAR assignment.
    pub fn ivf(n_list: i32, n_iters: i32, use_soar: bool, metric: MetricType, quantize: QuantizeType) -> (r: IndexParams)
        ensures
            r@ == (IndexParamsView { index_type: IndexType::Ivf, metric, quantize }),
    {
        let _ = n_list;
        let _ = n_iters;
        let _ = use_soar;
        IndexParams { index_type: IndexType::Ivf, metric, quantize }
    }

    /// Exact brute-force index parameters.
    pub fn flat(metric: MetricType, quantize: QuantizeType) -> (r: IndexParams)
        ensures
            r@ == (IndexParamsView { index_type: IndexType::Flat, metric, quantize }),
    {
        IndexParams { index_type: IndexType::Flat, metric, quantize }
    }

    /// Inverted-index parameters for a scalar field, optionally optimized
    /// for range queries.
    pub fn invert(enable_range_optimization: bool) -> (r: IndexParams)
        ensures
            r@ == (IndexParamsView {
                index_type: IndexType::Invert,
                metric: MetricType::Undefined,
                quantize: QuantizeType::Undefined,
            }),
    {
        let _ = enable_range_optimization;
        IndexParams {
            index_type: IndexType::Invert,
            metric: MetricType::Undefined,
            quantize: QuantizeType::Undefined,
        }
    }

    /// The index family these parameters select.
    pub fn index_type(&self) -> (r: IndexType)
        ensures
            r == self@.index_type,
    {
        self.index_type
    }
}

/// Options for opening a collection.
pub struct CollectionOptions {
    read_only: bool,
    enable_mmap: bool,
}

/// The specification-level value of collection options.
pub struct CollectionOptionsView {
    pub read_only: bool,
    pub enable_mmap: bool,
}

impl View for CollectionOptions {
    type V = CollectionOptionsView;

    closed spec fn view(&self) -> CollectionOptionsView {
        CollectionOptionsView { read_only: self.read_only, enable_mmap: self.enable_mmap }
    }
}

impl CollectionOptions {
    /// Default options: writable, no memory mapping.
    pub fn new() -> (r: CollectionOptions)
        ensures
            r@ == (CollectionOptionsView { read_only: false, enable_mmap: false }),
    {
        CollectionOptions { read_only: false, enable_mmap: false }
    }

    /// Open the collection read-only.
    pub fn read_only(self, read_only: bool) -> (r: CollectionOptions)
        ensures
            r@ == (CollectionOptionsView { read_only, ..self@ }),
    {
        CollectionOptions { read_only, ..self }
    }

    /// Let the engine map the collection's files into memory.
    pub fn enable_mmap(self, enable: bool) -> (r: CollectionOptions)
        ensures
            r@ == (CollectionOptionsView { enable_mmap: enable, ..self@ }),
    {
        CollectionOptions { enable_mmap: enable, ..self }
    }
}

impl Default for CollectionOptions {
    /// Default options: writable, no memory mapping.
    fn default() -> (r: CollectionOptions)
        ensures
            r@ == (CollectionOptionsView { read_only: false, enable_mmap: false }),
    {
        CollectionOptions::new()
    }
}

/// One index built over a field.
struct IndexSpec {
    field: String,
    index_type: IndexType,
    metric: MetricType,
    quantize: QuantizeType,
}

/// The specification-level value of one index.
pub struct IndexView {
    pub field: Seq<char>,
    pub index_type: IndexType,
    pub metric: MetricType,
    pub quantize: QuantizeType,
}

impl View for IndexSpec {
    type V = IndexView;

    closed spec fn view(&self) -> IndexView {
        IndexView {
            field: self.field@,
            index_type: self.index_type,
            metric: self.metric,
            quantize: self.quantize,
        }
    }
}

/// Whether a field value fits a field's schema: the kinds agree, a dense
/// vector has exactly the declared dimension, a sparse vector has as many
/// values as indices, and a null is allowed only on a nullable field.
pub open spec fn kind_fits(fs: FieldSchemaView, v: FieldVal) -> bool {
    match v {
        FieldVal::Bool(_) => fs.data_type is Bool,
        FieldVal::Int32(_) => fs.data_type is Int32,
        FieldVal::Int64(_) => fs.data_type is Int64,
        FieldVal::Float(_) => fs.data_type is Float,
        FieldVal::Double(_) => fs.data_type is Double,
        FieldVal::Str(_) => fs.data_type is String,
        FieldVal::Vector(c) => fs.data_type.is_vector_spec()
            && !fs.data_type.is_sparse_vector_spec() && c.len() == fs.dimension,
        FieldVal::Sparse(i, v2) => fs.data_type.is_sparse_vector_spec() && i.len() == v2.len(),
        FieldVal::Null => fs.nullable,
    }
}

/// Whether a document belongs in a collection of this schema: its key is not
/// empty and every field it holds is declared by the schema and fits it.
pub open spec fn doc_valid(schema: CollectionSchemaView, d: DocView) -> bool {
    &&& d.pk.len() > 0
    &&& forall|i: int|
        0 <= i < d.fields.len() ==> (match schema.field_schema(#[trigger] d.fields[i].0) {
            Some(fs) => kind_fits(fs, d.fields[i].1),
            None => false,
        })
}

/// The specification-level state of a collection.
pub struct CollectionView {
    pub path: Seq<char>,
    pub schema: CollectionSchemaView,
    pub docs: Seq<DocView>,
    pub indexes: Seq<IndexView>,
}

impl CollectionView {
    /// Every stored document fits the schema, and every primary key is
    /// stored at most once.
    pub open spec fn wf(self) -> bool {
        &&& forall|i: int|
            0 <= i < self.docs.len() ==> doc_valid(self.schema, #[trigger] self.docs[i])
        &&& forall|i: int, j: int|
            0 <= i < j < self.docs.len() ==> (#[trigger] self.docs[i]).pk != (
            #[trigger] self.docs[j]).pk
    }

    /// The position of the first stored document with this key, or -1.
    pub open spec fn pk_idx(self, pk: Seq<char>) -> int {
        field_idx(self.docs.map_values(|d: DocView| (d.pk, d)), pk)
    }

    /// The metric ranking searches over this field: the metric of the first
    /// index built on it, or squared Euclidean distance when it has none.
    pub open spec fn metric_for(self, field: Seq<char>) -> MetricType {
        match value_of(self.indexes.map_values(|ix: IndexView| (ix.field, ix)), field) {
            Some(ix) => ix.metric,
            None => MetricType::L2,
        }
    }
}

/// An open collection: the unit of storage, serving reads and writes.
pub struct Collection {
    path: String,
    schema: CollectionSchema,
    docs: Vec<Doc>,
    indexes: Vec<IndexSpec>,
}

impl View for Collection {
    type V = CollectionView;

    closed spec fn view(&self) -> CollectionView {
        CollectionView {
            path: self.path@,
            schema: self.schema@,
            docs: self.docs@.map_values(|d: Doc| d@),
            indexes: self.indexes@.map_values(|ix: IndexSpec| ix@),
        }
    }
}

/// The durable medium: persisted collection states, one per path.
pub struct Storage {
    cols: Vec<(String, Collection)>,
}

impl View for Storage {
    type V = Seq<(Seq<char>, CollectionView)>;

    closed spec fn view(&self) -> Seq<(Seq<char>, CollectionView)> {
        self.cols@.map_values(|p: (String, Collection)| (p.0@, p.1@))
    }
}

impl Storage {
    /// Every persisted state sits under its own path, each path once.
    pub open spec fn wf(self) -> bool {
        &&& forall|i: int|
            0 <= i < self@.len() ==> (#[trigger] self@[i]).0 == self@[i].1.path && self@[i].1.wf()
        &&& forall|i: int, j: int| 0 <= i < j < self@.len() ==> self@[i].0 != self@[j].0
    }

    /// An empty medium: no path holds a collection.
    pub fn new() -> (s: Storage)
        ensures
            s@ == Seq::<(Seq<char>, CollectionView)>::empty(),
            s.wf(),
    {
        let s = Storage { cols: Vec::new() };
        proof {
            assert(s@ =~= Seq::<(Seq<char>, CollectionView)>::empty());
        }
        s
    }

    /// Find the position of the persisted state under this path.
    fn find_path(&self, path: &str) -> (r: Option<usize>)
        ensures
            match r {
                Some(i) => i < self@.len() && field_idx(self@, path@) == i,
                None => field_idx(self@, path@) == -1,
            },
    {
        let needle = String::from_str(path);
        let n = self.cols.len();
        proof {
            lemma_field_idx(self@, path@);
        }
        for i in 0..n
            invariant
                n == self.cols.len(),
                needle@ == path@,
                forall|j: int| 0 <= j < i ==> self@[j].0 != path@,
                field_idx(self@, path@) == -1 || 0 <= field_idx(self@, path@) < n,
                field_idx(self@, path@) >= 0 ==> self@[field_idx(self@, path@)].0 == path@,
                forall|j: int|
                    0 <= j < n && (field_idx(self@, path@) == -1 || j < field_idx(self@, path@))
                        ==> self@[j].0 != path@,
        {
            proof {
                assert(self@[i as int] == (self.cols@[i as int].0@, self.cols@[i as int].1@));
            }
            if self.cols[i].0 == needle {
                return Some(i);
            }
        }
        None
    }
}

impl Collection {
    /// Copy this handle's state, as a persisted snapshot.
    fn snapshot(&self) -> (r: Collection)
        ensures
            r@ == self@,
    {
        let mut docs: Vec<Doc> = Vec::new();
        let n = self.docs.len();
        for i in 0..n
            invariant
                n == self.docs.len(),
                docs@.len() == i,
                forall|j: int| 0 <= j < i ==> docs@[j]@ == self@.docs[j],
        {
            docs.push(self.docs[i].duplicate());
        }
        let mut indexes: Vec<IndexSpec> = Vec::new();
        let m = self.indexes.len();
        for i in 0..m
            invariant
                m == self.indexes.len(),
                indexes@.len() == i,
                forall|j: int| 0 <= j < i ==> indexes@[j]@ == self@.indexes[j],
        {
            let ix = &self.indexes[i];
            indexes.push(
                IndexSpec {
                    field: ix.field.clone(),
                    index_type: ix.index_type,
                    metric: ix.metric,
                    quantize: ix.quantize,
                },
            );
        }
        let r = Collection {
            path: self.path.clone(),
            schema: self.schema.duplicate(),
            docs,
            indexes,
        };
        proof {
            assert(r@.docs =~= self@.docs);
            assert(r@.indexes =~= self@.indexes);
            assert(r@ =~= self@);
        }
        r
    }

    /// Create a collection at the path and open a handle on it. Fails with
    /// `InvalidArgument` on an empty path and `AlreadyExists` when the path
    /// already holds a collection; the schema is consumed either way.
    pub fn create_and_open(store: &mut Storage, path: &str, schema: CollectionSchema) -> (r: Result<
        Collection,
    >)
        requires
            old(store).wf(),
        ensures
            final(store).wf(),
            path@.len() == 0 ==> (r matches Err(e) && e is InvalidArgument && final(store)@ == old(
                store,
            )@),
            path@.len() > 0 && value_of(old(store)@, path@) is Some ==> (r matches Err(e)
                && e is AlreadyExists && final(store)@ == old(store)@),
            path@.len() > 0 && value_of(old(store)@, path@) is None ==> (r matches Ok(c) && c@ == (
            CollectionView {
                path: path@,
                schema: schema@,
                docs: Seq::empty(),
                indexes: Seq::empty(),
            }) && final(store)@ == old(store)@.push((path@, c@))),
    {
        if path.unicode_len() == 0 {
            return Err(Error::InvalidArgument(String::from_str("collection path is empty")));
        }
        proof {
            lemma_field_idx(store@, path@);
        }
        match store.find_path(path) {
            Some(_) => Err(Error::AlreadyExists(String::from_str(path))),
            None => {
                let c = Collection {
                    path: String::from_str(path),
                    schema,
                    docs: Vec::new(),
                    indexes: Vec::new(),
                };
                proof {
                    assert(c@.docs =~= Seq::<DocView>::empty());
                    assert(c@.indexes =~= Seq::<IndexView>::empty());
                }
                let snap = c.snapshot();
                store.cols.push((String::from_str(path), snap));
                proof {
                    let pre = old(store)@;
                    let post = store@;
                    assert(post =~= pre.push((path@, c@)));
                    assert forall|i: int|
                        0 <= i < post.len() implies (#[trigger] post[i]).0 == post[i].1.path
                        && post[i].1.wf() by {
                        if i < pre.len() {
                            assert(pre[i].0 == pre[i].1.path && pre[i].1.wf());
                        }
                    }
                    assert forall|i: int, j: int|
                        0 <= i < j < post.len() implies post[i].0 != post[j].0 by {
                        if j < pre.len() {
                            assert(pre[i].0 != pre[j].0);
                        } else {
                            assert(pre[i].0 != path@);
                        }
                    }
                }
                Ok(c)
            },
        }
    }

    /// Open a handle on the collection persisted at the path. Fails with
    /// `CollectionNotFound` when the path holds none.
    pub fn open(store: &Storage, path: &str) -> (r: Result<Collection>)
        requires
            store.wf(),
        ensures
            match r {
                Ok(c) => value_of(store@, path@) == Some(c@) && c@.wf(),
                Err(e) => e is CollectionNotFound && value_of(store@, path@) is None,
            },
    {
        match store.find_path(path) {
            Some(i) => {
                let c = store.cols[i].1.snapshot();
                proof {
                    assert(store@[i as int].1.wf());
                }
                Ok(c)
            },
            None => Err(Error::CollectionNotFound(String::from_str(path))),
        }
    }

    /// The filesystem path this collection is stored under.
    pub fn path(&self) -> (r: Result<String>)
        ensures
            r matches Ok(p) && p@ == self@.path,
    {
        Ok(self.path.clone())
    }

    /// Persist this handle's state at its path: writes completed before a
    /// successful flush survive reopening. Fails with `CollectionNotFound`
    /// when the path no longer holds a collection.
    pub fn flush(&self, store: &mut Storage) -> (r: Result<()>)
        requires
            old(store).wf(),
            self@.wf(),
        ensures
            final(store).wf(),
            match r {
                Ok(()) => self@.has_flush_slot(old(store)@) && final(store)@ == old(
                    store,
                )@.update(field_idx(old(store)@, self@.path), (self@.path, self@)),
                Err(e) => e is CollectionNotFound && value_of(old(store)@, self@.path) is None
                    && final(store)@ == old(store)@,
            },
    {
        proof {
            lemma_field_idx(store@, self@.path);
        }
        match store.find_path(self.path.as_str()) {
            Some(i) => {
                let snap = self.snapshot();
                let key = self.path.clone();
                store.cols[i] = (key, snap);
                proof {
                    let pre = old(store)@;
                    let post = store@;
                    let k = field_idx(pre, self@.path);
                    assert(post =~= pre.update(k, (self@.path, self@)));
                    assert forall|a: int, b: int|
                        0 <= a < b < post.len() implies post[a].0 != post[b].0 by {
                        assert(pre[a].0 != pre[b].0);
                        assert(post[a].0 == pre[a].0);
                        assert(post[b].0 == pre[b].0);
                    }
                }
                Ok(())
            },
            None => Err(Error::CollectionNotFound(self.path.clone())),
        }
    }

    /// Ask the engine to reclaim and compact; committed data is never lost,
    /// and to this model the state is unchanged.
    pub fn optimize(&self) -> (r: Result<()>)
        ensures
            r is Ok,
    {
        Ok(())
    }

    /// Destroy the collection: consume the handle and delete the state
    /// persisted at its path, irreversibly. Fails with `CollectionNotFound`
    /// when the path holds none.
    pub fn destroy(self, store: &mut Storage) -> (r: Result<()>)
        requires
            old(store).wf(),
        ensures
            final(store).wf(),
            match r {
                Ok(()) => field_idx(old(store)@, self@.path) >= 0 && final(store)@ == old(
                    store,
                )@.remove(field_idx(old(store)@, self@.path)) && value_of(
                    final(store)@,
                    self@.path,
                ) is None,
                Err(e) => e is CollectionNotFound && value_of(old(store)@, self@.path) is None
                    && final(store)@ == old(store)@,
            },
    {
        proof {
            lemma_field_idx(store@, self@.path);
        }
        match store.find_path(self.path.as_str()) {
            Some(i) => {
                let _ = store.cols.remove(i);
                proof {
                    let pre = old(store)@;
                    let post = store@;
                    let k = i as int;
                    assert(post =~= pre.remove(k));
                    assert forall|a: int, b: int|
                        0 <= a < b < post.len() implies post[a].0 != post[b].0 by {
                        let a0 = if a < k {
                            a
                        } else {
                            a + 1
                        };
                        let b0 = if b < k {
                            b
                        } else {
                            b + 1
                        };
                        assert(pre[a0].0 != pre[b0].0);
                    }
                    lemma_field_idx(post, self@.path);
                    if field_idx(post, self@.path) >= 0 {
                        let m = field_idx(post, self@.path);
                        let m0 = if m < k {
                            m
                        } else {
                            m + 1
                        };
                        assert(post[m].0 == pre[m0].0);
                        assert(pre[m0].0 == self@.path);
                        assert(pre[k].0 == self@.path);
                        if m0 < k {
                            assert(pre[m0].0 != pre[k].0);
                        } else {
                            assert(pre[k].0 != pre[m0].0);
                        }
                    }
                }
                Ok(())
            },
            None => Err(Error::CollectionNotFound(self.path.clone())),
        }
    }
}

impl CollectionView {
    /// Whether the path still holds a persisted state to flush over.
    pub open spec fn has_flush_slot(self, store: Seq<(Seq<char>, CollectionView)>) -> bool {
        field_idx(store, self.path) >= 0
    }
}

/// The values of a sequence of documents.
pub open spec fn doc_views(s: Seq<Doc>) -> Seq<DocView> {
    s.map_values(|d: Doc| d@)
}

/// Run one write batch: apply `step` to each batch entry in input order,
/// threading the stored documents through and collecting one status code per
/// entry.
pub open spec fn write_fold<A>(
    stored: Seq<DocView>,
    batch: Seq<A>,
    step: spec_fn(Seq<DocView>, A) -> (Seq<DocView>, u32),
) -> (Seq<DocView>, Seq<u32>)
    decreases batch.len(),
{
    if batch.len() == 0 {
        (stored, Seq::empty())
    } else {
        let (s1, c) = step(stored, batch[0]);
        let (s2, cs) = write_fold(s1, batch.drop_first(), step);
        (s2, seq![c] + cs)
    }
}

/// A write batch earns exactly one status per entry.
pub proof fn lemma_write_fold_len<A>(
    stored: Seq<DocView>,
    batch: Seq<A>,
    step: spec_fn(Seq<DocView>, A) -> (Seq<DocView>, u32),
)
    ensures
        write_fold(stored, batch, step).1.len() == batch.len(),
    decreases batch.len(),
{
    if batch.len() > 0 {
        let (s1, c) = step(stored, batch[0]);
        lemma_write_fold_len(s1, batch.drop_first(), step);
    }
}

/// Extending a batch by one entry appends one step at the end of the fold.
pub proof fn lemma_write_fold_snoc<A>(
    stored: Seq<DocView>,
    batch: Seq<A>,
    d: A,
    step: spec_fn(Seq<DocView>, A) -> (Seq<DocView>, u32),
)
    ensures
        ({
            let (s, cs) = write_fold(stored, batch, step);
            let (s2, c) = step(s, d);
            write_fold(stored, batch.push(d), step) == (s2, cs.push(c))
        }),
    decreases batch.len(),
{
    if batch.len() == 0 {
        let e = batch.push(d);
        assert(e[0] == d);
        assert(e.drop_first() =~= Seq::<A>::empty());
        let (s2, c) = step(stored, d);
        assert(write_fold(s2, e.drop_first(), step) == (s2, Seq::<u32>::empty()));
        assert(write_fold(stored, e, step) == (s2, seq![c] + Seq::<u32>::empty()));
        assert(seq![c] + Seq::<u32>::empty() =~= Seq::<u32>::empty().push(c));
    } else {
        assert(batch.push(d)[0] == batch[0]);
        assert(batch.push(d).drop_first() =~= batch.drop_first().push(d));
        let (s1, c1) = step(stored, batch[0]);
        lemma_write_fold_snoc(s1, batch.drop_first(), d, step);
        let (s, cs) = write_fold(s1, batch.drop_first(), step);
        let (s2, c2) = step(s, d);
        assert(seq![c1] + cs.push(c2) =~= (seq![c1] + cs).push(c2));
    }
}

/// The document the collection stores for an accepted write: the given key
/// and fields, score cleared, the given internal id.
pub open spec fn stored_doc(d: DocView, doc_id: u64) -> DocView {
    DocView { pk: d.pk, fields: d.fields, score: 0, doc_id }
}

/// The step one document makes in an insert batch: rejected as
/// `InvalidArgument` when it does not fit the schema, as `AlreadyExists`
/// when its key is already stored, and appended otherwise.
pub open spec fn insert_step(schema: CollectionSchemaView) -> spec_fn(
    Seq<DocView>,
    DocView,
) -> (Seq<DocView>, u32) {
    |stored: Seq<DocView>, d: DocView|
        if !doc_valid(schema, d) {
            (stored, crate::error::STATUS_INVALID_ARGUMENT)
        } else if field_idx(stored.map_values(|x: DocView| (x.pk, x)), d.pk) >= 0 {
            (stored, crate::error::STATUS_ALREADY_EXISTS)
        } else {
            (stored.push(stored_doc(d, stored.len() as u64)), crate::error::STATUS_OK)
        }
}

/// The step one document makes in an upsert batch: rejected as
/// `InvalidArgument` when it does not fit the schema; otherwise it replaces
/// the document stored under its key, keeping that document's internal id,
/// or is appended when the key is new.
pub open spec fn upsert_step(schema: CollectionSchemaView) -> spec_fn(
    Seq<DocView>,
    DocView,
) -> (Seq<DocView>, u32) {
    |stored: Seq<DocView>, d: DocView|
        {
            let i = field_idx(stored.map_values(|x: DocView| (x.pk, x)), d.pk);
            if !doc_valid(schema, d) {
                (stored, crate::error::STATUS_INVALID_ARGUMENT)
            } else if i >= 0 {
                (stored.update(i, stored_doc(d, stored[i].doc_id)), crate::error::STATUS_OK)
            } else {
                (stored.push(stored_doc(d, stored.len() as u64)), crate::error::STATUS_OK)
            }
        }
}

/// The step one document makes in an update batch: rejected as
/// `InvalidArgument` when it does not fit the schema and as `NotFound` when
/// its key is not stored; otherwise it replaces the document stored under
/// its key, keeping that document's internal id.
pub open spec fn update_step(schema: CollectionSchemaView) -> spec_fn(
    Seq<DocView>,
    DocView,
) -> (Seq<DocView>, u32) {
    |stored: Seq<DocView>, d: DocView|
        {
            let i = field_idx(stored.map_values(|x: DocView| (x.pk, x)), d.pk);
            if !doc_valid(schema, d) {
                (stored, crate::error::STATUS_INVALID_ARGUMENT)
            } else if i < 0 {
                (stored, crate::error::STATUS_NOT_FOUND)
            } else {
                (stored.update(i, stored_doc(d, stored[i].doc_id)), crate::error::STATUS_OK)
            }
        }
}

/// The step one key makes in a delete batch: the first document stored under
/// it is removed, and an absent key reports `NotFound`.
pub open spec fn delete_step() -> spec_fn(Seq<DocView>, Seq<char>) -> (Seq<DocView>, u32) {
    |stored: Seq<DocView>, pk: Seq<char>|
        {
            let i = field_idx(stored.map_values(|x: DocView| (x.pk, x)), pk);
            if i < 0 {
                (stored, crate::error::STATUS_NOT_FOUND)
            } else {
                (stored.remove(i), crate::error::STATUS_OK)
            }
        }
}

/// The documents a fetch returns, skipping keys already queried under
/// `seen`: for each key, in input order, the first document stored under it;
/// keys found nowhere, and repeats of keys queried before, contribute
/// nothing.
pub open spec fn fetch_entries_from(
    stored: Seq<DocView>,
    pks: Seq<Seq<char>>,
    seen: Seq<Seq<char>>,
) -> Seq<(Seq<char>, DocView)>
    decreases pks.len(),
{
    if pks.len() == 0 {
        Seq::empty()
    } else {
        let i = field_idx(stored.map_values(|x: DocView| (x.pk, x)), pks[0]);
        let head: Seq<(Seq<char>, DocView)> = if !seen.contains(pks[0]) && i >= 0 {
            seq![(pks[0], stored[i])]
        } else {
            Seq::empty()
        };
        head + fetch_entries_from(stored, pks.drop_first(), seen.push(pks[0]))
    }
}

/// The documents a fetch returns: one entry per distinct queried key that is
/// stored, in the order the keys first appear; keys found nowhere are simply
/// absent, and repeated keys yield no repeated entries — the result is a map
/// indexed by primary key.
pub open spec fn fetch_entries(stored: Seq<DocView>, pks: Seq<Seq<char>>) -> Seq<
    (Seq<char>, DocView),
> {
    fetch_entries_from(stored, pks, Seq::empty())
}

impl Collection {
    /// Find the position of the first stored document with this key.
    fn pk_position(&self, pk: &String) -> (r: Option<usize>)
        ensures
            match r {
                Some(i) => i < self@.docs.len() && self@.pk_idx(pk@) == i,
                None => self@.pk_idx(pk@) == -1,
            },
    {
        let ghost pairs = self@.docs.map_values(|x: DocView| (x.pk, x));
        let n = self.docs.len();
        proof {
            lemma_field_idx(pairs, pk@);
        }
        for i in 0..n
            invariant
                n == self.docs.len(),
                pairs == self@.docs.map_values(|x: DocView| (x.pk, x)),
                pairs.len() == n,
                forall|j: int| 0 <= j < i ==> pairs[j].0 != pk@,
                field_idx(pairs, pk@) == -1 || 0 <= field_idx(pairs, pk@) < n,
                field_idx(pairs, pk@) >= 0 ==> pairs[field_idx(pairs, pk@)].0 == pk@,
                forall|j: int|
                    0 <= j < n && (field_idx(pairs, pk@) == -1 || j < field_idx(pairs, pk@))
                        ==> pairs[j].0 != pk@,
        {
            proof {
                assert(pairs[i as int] == (self@.docs[i as int].pk, self@.docs[i as int]));
            }
            if crate::text::str_eq(self.docs[i].pk(), pk.as_str()) {
                return Some(i);
            }
        }
        None
    }

    /// Whether the document fits this collection's schema.
    fn validate(&self, d: &Doc) -> (r: bool)
        ensures
            r == doc_valid(self@.schema, d@),
    {
        if d.pk().unicode_len() == 0 {
            return false;
        }
        let n = d.fields_len();
        for i in 0..n
            invariant
                n == d@.fields.len(),
                d@.pk.len() > 0,
                forall|j: int|
                    0 <= j < i ==> (match self@.schema.field_schema(#[trigger] d@.fields[j].0) {
                        Some(fs) => kind_fits(fs, d@.fields[j].1),
                        None => false,
                    }),
        {
            let pair = d.field_pair(i);
            let fits = match self.schema.lookup(pair.0.as_str()) {
                Some(fs) => {
                    match &pair.1 {
                        crate::doc::FieldValue::Bool(_) => matches!(
                            fs.data_type(),
                            crate::types::DataType::Bool
                        ),
                        crate::doc::FieldValue::Int32(_) => matches!(
                            fs.data_type(),
                            crate::types::DataType::Int32
                        ),
                        crate::doc::FieldValue::Int64(_) => matches!(
                            fs.data_type(),
                            crate::types::DataType::Int64
                        ),
                        crate::doc::FieldValue::Float(_) => matches!(
                            fs.data_type(),
                            crate::types::DataType::Float
                        ),
                        crate::doc::FieldValue::Double(_) => matches!(
                            fs.data_type(),
                            crate::types::DataType::Double
                        ),
                        crate::doc::FieldValue::Str(_) => matches!(
                            fs.data_type(),
                            crate::types::DataType::String
                        ),
                        crate::doc::FieldValue::Vector(c) => {
                            let dt = fs.data_type();
                            dt.is_vector() && !dt.is_sparse_vector() && c.len() == (fs.dimension()
                                as usize)
                        },
                        crate::doc::FieldValue::Sparse(ix, vs) => {
                            fs.data_type().is_sparse_vector() && ix.len() == vs.len()
                        },
                        crate::doc::FieldValue::Null => fs.nullable(),
                    }
                },
                None => false,
            };
            if !fits {
                return false;
            }
        }
        true
    }

    /// Insert documents. One status comes back per document, in input order:
    /// `InvalidArgument` for one that does not fit the schema,
    /// `AlreadyExists` for a key already stored — earlier documents of the
    /// same batch included — and success otherwise; rejected documents leave
    /// no trace, accepted ones are stored in order.
    pub fn insert(&mut self, docs: &[Doc]) -> (r: Result<WriteResults>)
        requires
            old(self)@.wf(),
        ensures
            final(self)@.wf(),
            ({
                let (stored, codes) = write_fold(
                    old(self)@.docs,
                    doc_views(docs@),
                    insert_step(old(self)@.schema),
                );
                &&& final(self)@ == (CollectionView { docs: stored, ..old(self)@ })
                &&& r matches Ok(w) && w@.map_values(|p: (u32, Seq<char>)| p.0) == codes
            }),
    {
        let step = Ghost(insert_step(self@.schema));
        self.write_batch(docs, step, WriteKind::Insert)
    }

    /// Upsert documents. One status comes back per document, in input order:
    /// `InvalidArgument` for one that does not fit the schema; any other
    /// replaces the document stored under its key or is inserted fresh.
    pub fn upsert(&mut self, docs: &[Doc]) -> (r: Result<WriteResults>)
        requires
            old(self)@.wf(),
        ensures
            final(self)@.wf(),
            ({
                let (stored, codes) = write_fold(
                    old(self)@.docs,
                    doc_views(docs@),
                    upsert_step(old(self)@.schema),
                );
                &&& final(self)@ == (CollectionView { docs: stored, ..old(self)@ })
                &&& r matches Ok(w) && w@.map_values(|p: (u32, Seq<char>)| p.0) == codes
            }),
    {
        let step = Ghost(upsert_step(self@.schema));
        self.write_batch(docs, step, WriteKind::Upsert)
    }

    /// Update documents that must already be stored. One status comes back
    /// per document, in input order: `InvalidArgument` for one that does not
    /// fit the schema, `NotFound` for a key not stored, and success — the
    /// stored document replaced — otherwise.
    pub fn update(&mut self, docs: &[Doc]) -> (r: Result<WriteResults>)
        requires
            old(self)@.wf(),
        ensures
            final(self)@.wf(),
            ({
                let (stored, codes) = write_fold(
                    old(self)@.docs,
                    doc_views(docs@),
                    update_step(old(self)@.schema),
                );
                &&& final(self)@ == (CollectionView { docs: stored, ..old(self)@ })
                &&& r matches Ok(w) && w@.map_values(|p: (u32, Seq<char>)| p.0) == codes
            }),
    {
        let step = Ghost(update_step(self@.schema));
        self.write_batch(docs, step, WriteKind::Update)
    }

    /// Run one write batch over the documents.
    fn write_batch(&mut self, docs: &[Doc], step: Ghost<
        spec_fn(Seq<DocView>, DocView) -> (Seq<DocView>, u32),
    >, kind: WriteKind) -> (r: Result<WriteResults>)
        requires
            old(self)@.wf(),
            step@ == (match kind {
                WriteKind::Insert => insert_step(old(self)@.schema),
                WriteKind::Upsert => upsert_step(old(self)@.schema),
                WriteKind::Update => update_step(old(self)@.schema),
            }),
        ensures
            final(self)@.wf(),
            ({
                let (stored, codes) = write_fold(old(self)@.docs, doc_views(docs@), step@);
                &&& final(self)@ == (CollectionView { docs: stored, ..old(self)@ })
                &&& r matches Ok(w) && w@.map_values(|p: (u32, Seq<char>)| p.0) == codes
            }),
    {
        let ghost docs0 = self@.docs;
        let ghost schema0 = self@.schema;
        let ghost views = doc_views(docs@);
        let mut statuses: Vec<(u32, String)> = Vec::new();
        let n = docs.len();
        proof {
            assert(views.take(0) =~= Seq::<DocView>::empty());
        }
        for i in 0..n
            invariant
                n == docs@.len(),
                views == doc_views(docs@),
                self@.schema == schema0,
                self@.path == old(self)@.path,
                self@.indexes == old(self)@.indexes,
                old(self)@.schema == schema0,
                old(self)@.docs == docs0,
                step@ == (match kind {
                    WriteKind::Insert => insert_step(schema0),
                    WriteKind::Upsert => upsert_step(schema0),
                    WriteKind::Update => update_step(schema0),
                }),
                self@.wf(),
                statuses@.len() == i,
                self@.docs == write_fold(docs0, views.take(i as int), step@).0,
                statuses@.map_values(|p: (u32, String)| p.0) == write_fold(
                    docs0,
                    views.take(i as int),
                    step@,
                ).1,
        {
            let d = vstd::slice::slice_index_get(docs, i);
            proof {
                assert(views[i as int] == d@);
            }
            let valid = self.validate(d);
            let pos = if valid {
                self.pk_position(&String::from_str(d.pk()))
            } else {
                None
            };
            let ghost pre = self@.docs;
            proof {
                if valid {
                    let pairs = pre.map_values(|x: DocView| (x.pk, x));
                    lemma_field_idx(pairs, d@.pk);
                    match pos {
                        None => {
                            assert forall|m: int|
                                0 <= m < pre.len() implies (#[trigger] pre[m]).pk != d@.pk by {
                                assert(pairs[m] == (pre[m].pk, pre[m]));
                            }
                        },
                        Some(j) => {
                            assert(pairs[j as int] == (pre[j as int].pk, pre[j as int]));
                            assert(pre[j as int].pk == d@.pk);
                        },
                    }
                }
            }
            let code: u32;
            if !valid {
                code = crate::error::STATUS_INVALID_ARGUMENT;
            } else {
                match kind {
                    WriteKind::Insert => {
                        match pos {
                            Some(_) => {
                                code = crate::error::STATUS_ALREADY_EXISTS;
                            },
                            None => {
                                let id = self.docs.len() as u64;
                                self.docs.push(d.stored_copy(id));
                                code = crate::error::STATUS_OK;
                                proof {
                                    lemma_unique_after_push(pre, self@.docs, d@.pk);
                                }
                            },
                        }
                    },
                    WriteKind::Upsert => {
                        match pos {
                            Some(j) => {
                                let id = self.docs[j].doc_id();
                                self.docs[j] = d.stored_copy(id);
                                code = crate::error::STATUS_OK;
                                proof {
                                    assert(forall|m: int|
                                        0 <= m < self@.docs.len() ==> (#[trigger] self@.docs[m]).pk
                                            == pre[m].pk);
                                }
                            },
                            None => {
                                let id = self.docs.len() as u64;
                                self.docs.push(d.stored_copy(id));
                                code = crate::error::STATUS_OK;
                                proof {
                                    lemma_unique_after_push(pre, self@.docs, d@.pk);
                                }
                            },
                        }
                    },
                    WriteKind::Update => {
                        match pos {
                            Some(j) => {
                                let id = self.docs[j].doc_id();
                                self.docs[j] = d.stored_copy(id);
                                code = crate::error::STATUS_OK;
                                proof {
                                    assert(forall|m: int|
                                        0 <= m < self@.docs.len() ==> (#[trigger] self@.docs[m]).pk
                                            == pre[m].pk);
                                }
                            },
                            None => {
                                code = crate::error::STATUS_NOT_FOUND;
                            },
                        }
                    },
                }
            }
            statuses.push((code, String::new()));
            proof {
                lemma_write_fold_snoc(docs0, views.take(i as int), views[i as int], step@);
                assert(views.take(i + 1) =~= views.take(i as int).push(views[i as int]));
                assert(self@.docs =~= write_fold(docs0, views.take(i + 1), step@).0);
                assert(statuses@.map_values(|p: (u32, String)| p.0) =~= write_fold(
                    docs0,
                    views.take(i + 1),
                    step@,
                ).1);
            }
        }
        proof {
            assert(views.take(n as int) =~= views);
            assert(self@ =~= (CollectionView {
                docs: write_fold(docs0, views, step@).0,
                ..old(self)@
            }));
        }
        Ok(WriteResults::from_statuses(statuses))
    }

    /// Delete documents by primary key. One status comes back per key, in
    /// input order: success removes the document stored under the key, and
    /// an absent key reports `NotFound`.
    pub fn delete(&mut self, pks: &[&str]) -> (r: Result<WriteResults>)
        requires
            old(self)@.wf(),
        ensures
            final(self)@.wf(),
            ({
                let (stored, codes) = write_fold(
                    old(self)@.docs,
                    pks@.map_values(|s: &str| s@),
                    delete_step(),
                );
                &&& final(self)@ == (CollectionView { docs: stored, ..old(self)@ })
                &&& r matches Ok(w) && w@.map_values(|p: (u32, Seq<char>)| p.0) == codes
            }),
    {
        let ghost docs0 = self@.docs;
        let ghost views = pks@.map_values(|s: &str| s@);
        let ghost step = delete_step();
        let mut statuses: Vec<(u32, String)> = Vec::new();
        let n = pks.len();
        proof {
            assert(views.take(0) =~= Seq::<Seq<char>>::empty());
        }
        for i in 0..n
            invariant
                n == pks@.len(),
                views == pks@.map_values(|s: &str| s@),
                step == delete_step(),
                self@.schema == old(self)@.schema,
                self@.path == old(self)@.path,
                self@.indexes == old(self)@.indexes,
                old(self)@.docs == docs0,
                self@.wf(),
                statuses@.len() == i,
                self@.docs == write_fold(docs0, views.take(i as int), step).0,
                statuses@.map_values(|p: (u32, String)| p.0) == write_fold(
                    docs0,
                    views.take(i as int),
                    step,
                ).1,
        {
            let pk = *vstd::slice::slice_index_get(pks, i);
            proof {
                assert(views[i as int] == pk@);
            }
            let code: u32;
            match self.pk_position(&String::from_str(pk)) {
                Some(j) => {
                    let ghost pre = self@.docs;
                    let _ = self.docs.remove(j);
                    proof {
                        assert(self@.docs =~= pre.remove(j as int));
                    }
                    code = crate::error::STATUS_OK;
                },
                None => {
                    code = crate::error::STATUS_NOT_FOUND;
                },
            }
            statuses.push((code, String::new()));
            proof {
                lemma_write_fold_snoc(docs0, views.take(i as int), views[i as int], step);
                assert(views.take(i + 1) =~= views.take(i as int).push(views[i as int]));
                assert(self@.docs =~= write_fold(docs0, views.take(i + 1), step).0);
                assert(statuses@.map_values(|p: (u32, String)| p.0) =~= write_fold(
                    docs0,
                    views.take(i + 1),
                    step,
                ).1);
            }
        }
        proof {
            assert(views.take(n as int) =~= views);
            assert(self@ =~= (CollectionView {
                docs: write_fold(docs0, views, step).0,
                ..old(self)@
            }));
        }
        Ok(WriteResults::from_statuses(statuses))
    }

    /// Fetch documents by primary key. Each distinct key found contributes
    /// its stored document once, in the order the keys first appear; keys
    /// found nowhere are simply absent from the result, and repeated keys
    /// yield no repeated entries.
    pub fn fetch(&self, pks: &[&str]) -> (r: Result<DocMap>)
        requires
            self@.wf(),
        ensures
            r matches Ok(m) && m@ == fetch_entries(self@.docs, pks@.map_values(|s: &str| s@)),
    {
        let ghost views = pks@.map_values(|s: &str| s@);
        let mut entries: Vec<(String, Doc)> = Vec::new();
        let mut queried: Vec<String> = Vec::new();
        let n = pks.len();
        proof {
            assert(views.skip(0) =~= views);
            assert(views.take(0) =~= Seq::<Seq<char>>::empty());
            assert(queried@.map_values(|s: String| s@) =~= Seq::<Seq<char>>::empty());
        }
        for i in 0..n
            invariant
                n == pks@.len(),
                views == pks@.map_values(|s: &str| s@),
                self@.wf(),
                queried@.map_values(|s: String| s@) == views.take(i as int),
                entries@.map_values(|p: (String, Doc)| (p.0@, p.1@)) + fetch_entries_from(
                    self@.docs,
                    views.skip(i as int),
                    views.take(i as int),
                ) == fetch_entries(self@.docs, views),
        {
            let pk = *vstd::slice::slice_index_get(pks, i);
            let pk_string = String::from_str(pk);
            proof {
                assert(views[i as int] == pk@);
                assert(views.skip(i as int)[0] == views[i as int]);
                assert(views.skip(i as int).drop_first() =~= views.skip(i + 1));
                assert(views.take(i as int).push(views[i as int]) =~= views.take(i + 1));
            }
            let fresh = !names_contain(&queried, &pk_string);
            if fresh {
                match self.pk_position(&pk_string) {
                    Some(j) => {
                        let d = self.docs[j].duplicate();
                        let ghost epre = entries@;
                        entries.push((String::from_str(pk), d));
                        proof {
                            assert(entries@.map_values(|p: (String, Doc)| (p.0@, p.1@))
                                =~= epre.map_values(|p: (String, Doc)| (p.0@, p.1@)).push(
                                (pk@, self@.docs[j as int]),
                            ));
                        }
                    },
                    None => {
                    },
                }
            }
            queried.push(pk_string);
            proof {
                assert(queried@.map_values(|s: String| s@) =~= views.take(i + 1));
            }
        }
        proof {
            assert(views.skip(n as int) =~= Seq::<Seq<char>>::empty());
            assert(entries@.map_values(|p: (String, Doc)| (p.0@, p.1@)) =~= fetch_entries(
                self@.docs,
                views,
            ));
        }
        Ok(DocMap::from_entries(entries))
    }
}

impl Collection {
    /// The metric ranking searches over this field.
    fn metric_of(&self, field: &String) -> (r: MetricType)
        ensures
            r == self@.metric_for(field@),
    {
        let ghost pairs = self@.indexes.map_values(|ix: IndexView| (ix.field, ix));
        let n = self.indexes.len();
        proof {
            lemma_field_idx(pairs, field@);
        }
        for i in 0..n
            invariant
                n == self.indexes.len(),
                pairs == self@.indexes.map_values(|ix: IndexView| (ix.field, ix)),
                pairs.len() == n,
                forall|j: int| 0 <= j < i ==> pairs[j].0 != field@,
                field_idx(pairs, field@) == -1 || 0 <= field_idx(pairs, field@) < n,
                field_idx(pairs, field@) >= 0 ==> pairs[field_idx(pairs, field@)].0 == field@
                    && pairs[field_idx(pairs, field@)].1 == self@.indexes[field_idx(
                    pairs,
                    field@,
                )],
                forall|j: int|
                    0 <= j < n && (field_idx(pairs, field@) == -1 || j < field_idx(pairs, field@))
                        ==> pairs[j].0 != field@,
        {
            proof {
                assert(pairs[i as int] == (self@.indexes[i as int].field, self@.indexes[i as int]));
            }
            if self.indexes[i].field == *field {
                return self.indexes[i].metric;
            }
        }
        MetricType::L2
    }

    /// Search the collection: rank the documents that hold the queried field
    /// and pass the filter, best match first under the field's metric, and
    /// return at most `topk` of them, projected as the query asks. The query
    /// is consumed. Fails with `FieldNotFound` on a field the schema lacks,
    /// `DimensionMismatch` on a dense target of the wrong length, and
    /// `InvalidArgument` on a missing or wrongly-typed target or a malformed
    /// filter.
    pub fn query(&self, query: crate::query::VectorQuery) -> (r: Result<DocList>)
        requires
            self@.wf(),
        ensures
            query_post(self@, query@, r),
    {
        let ghost qv = query@;
        let (field, topk, filter_s, include_vectors, include_ids, output, target_opt) =
            query.take_parts();
        let fs = match self.schema.lookup(field.as_str()) {
            Some(fs) => fs,
            None => {
                return Err(Error::FieldNotFound(field));
            },
        };
        let target = match target_opt {
            Some(t) => t,
            None => {
                return Err(Error::InvalidArgument(String::from_str("no query target set")));
            },
        };
        let dt = fs.data_type();
        let kind_ok = match &target {
            crate::query::QueryTarget::Dense(_) => dt.is_vector() && !dt.is_sparse_vector(),
            crate::query::QueryTarget::Sparse(_, _) => dt.is_sparse_vector(),
        };
        if !kind_ok {
            return Err(
                Error::InvalidArgument(
                    String::from_str("query target does not match the field's type"),
                ),
            );
        }
        if let crate::query::QueryTarget::Dense(v) = &target {
            if v.len() != fs.dimension() as usize {
                return Err(
                    Error::DimensionMismatch { expected: fs.dimension() as usize, actual: v.len() },
                );
            }
        }
        let filt: Option<crate::filter::Filter> = match &filter_s {
            Some(s) => match crate::filter::parse_filter(s.as_str()) {
                Some(f) => Some(f),
                None => {
                    return Err(
                        Error::InvalidArgument(String::from_str("malformed filter expression")),
                    );
                },
            },
            None => None,
        };
        let metric = self.metric_of(&field);
        let ghost fv = match qv.filter {
            Some(s) => crate::filter::parse_filter_spec(s),
            None => None,
        };
        proof {
            assert(match filt {
                Some(f) => fv == Some(f@),
                None => fv is None,
            });
        }
        let ghost t = target@;
        let ghost dim = fs@.dimension;
        let mut results: Vec<Doc> = Vec::new();
        let n = self.docs.len();
        proof {
            assert(self@.docs.skip(0) =~= self@.docs);
        }
        for i in 0..n
            invariant
                n == self@.docs.len(),
                self@.wf(),
                qv.field == field@,
                qv.output_fields == opt_names_view(output),
                qv.include_vector == include_vectors,
                qv.include_doc_id == include_ids,
                t == target@,
                (match filt {
                    Some(f) => fv == Some(f@),
                    None => fv is None,
                }),
                self@.schema.field_schema(field@) == Some(fs@),
                (t matches crate::query::QueryTargetV::Dense(v) ==> v.len() == fs@.dimension),
                results@.map_values(|d: Doc| d@) + scored_docs(
                    self@.docs.skip(i as int),
                    field@,
                    t,
                    metric,
                    fv,
                    opt_names_view(output),
                    include_vectors,
                    include_ids,
                ) == scored_docs(
                    self@.docs,
                    field@,
                    t,
                    metric,
                    fv,
                    opt_names_view(output),
                    include_vectors,
                    include_ids,
                ),
        {
            let d = &self.docs[i];
            proof {
                assert(self@.docs[i as int] == d@);
                assert(doc_valid(self@.schema, d@));
                assert(self@.docs.skip(i as int)[0] == self@.docs[i as int]);
                assert(self@.docs.skip(i as int).drop_first() =~= self@.docs.skip(i + 1));
            }
            let passes = match &filt {
                Some(f) => crate::filter::eval_filter(d, f),
                None => true,
            };
            if passes {
                match (d.get_value_ref(field.as_str()), &target) {
                    (Some(crate::doc::FieldValue::Vector(c)), crate::query::QueryTarget::Dense(
                        tv,
                    )) => {
                        proof {
                            lemma_field_idx(d@.fields, field@);
                            let k = field_idx(d@.fields, field@);
                            assert(d@.fields[k].1 == FieldVal::Vector(c@));
                            assert(d@.fields[k].0 == field@);
                            assert(kind_fits(fs@, FieldVal::Vector(c@)));
                        }
                        let score: i128 = if metric.is_distance() {
                            crate::score::l2_distance(tv, c)
                        } else {
                            crate::score::dot_product(tv, c)
                        };
                        let fields = project_doc(d, &output, include_vectors);
                        let id = if include_ids {
                            d.doc_id()
                        } else {
                            0
                        };
                        let ghost rpre = results@;
                        results.push(
                            Doc::assemble(String::from_str(d.pk()), fields, score, id),
                        );
                        proof {
                            assert(results@.map_values(|x: Doc| x@) =~= rpre.map_values(
                                |x: Doc| x@,
                            ).push(
                                result_doc(
                                    d@,
                                    field@,
                                    t,
                                    metric,
                                    opt_names_view(output),
                                    include_vectors,
                                    include_ids,
                                ),
                            ));
                        }
                    },
                    (Some(crate::doc::FieldValue::Sparse(di, dv)), crate::query::QueryTarget::Sparse(
                        qi,
                        qvv,
                    )) => {
                        let score: i128 = crate::score::sparse_dot_product(qi, qvv, di, dv);
                        let fields = project_doc(d, &output, include_vectors);
                        let id = if include_ids {
                            d.doc_id()
                        } else {
                            0
                        };
                        let ghost rpre = results@;
                        results.push(
                            Doc::assemble(String::from_str(d.pk()), fields, score, id),
                        );
                        proof {
                            assert(results@.map_values(|x: Doc| x@) =~= rpre.map_values(
                                |x: Doc| x@,
                            ).push(
                                result_doc(
                                    d@,
                                    field@,
                                    t,
                                    metric,
                                    opt_names_view(output),
                                    include_vectors,
                                    include_ids,
                                ),
                            ));
                        }
                    },
                    _ => {
                    },
                }
            }
        }
        proof {
            assert(self@.docs.skip(n as int) =~= Seq::<DocView>::empty());
            assert(results@.map_values(|d: Doc| d@) + Seq::<DocView>::empty() =~= results@.map_values(
                |d: Doc| d@,
            ));
        }
        let ghost scored = results@.map_values(|d: Doc| d@);
        let mut sorted = sort_by_rank(results, metric);
        let ghost full = sorted@.map_values(|d: Doc| d@);
        proof {
            full.to_multiset_ensures();
            scored.to_multiset_ensures();
            assert(full.len() == scored.len());
        }
        if sorted.len() > topk {
            sorted.truncate(topk);
            proof {
                assert(sorted@.map_values(|d: Doc| d@) =~= full.take(topk as int));
            }
        } else {
            proof {
                assert(sorted@.map_values(|d: Doc| d@) =~= full.take(full.len() as int));
            }
        }
        let list = DocList::from_docs(sorted);
        proof {
            let taken = list@.len() as int;
            assert(list@ == full.take(taken));
            assert forall|a: int, b: int|
                0 <= a < b < list@.len() implies crate::score::rank_leq(
                metric,
                (#[trigger] list@[a]).score as int,
                (#[trigger] list@[b]).score as int,
            ) by {
                assert(full.take(taken)[a] == full[a]);
                assert(full.take(taken)[b] == full[b]);
            }
            assert(query_outcome(self@, qv) == QueryOutcome::Ranked(metric, scored));
        }
        Ok(list)
    }
}

/// The documents that survive deleting by a filter: those that do not match.
pub open spec fn surviving(docs: Seq<DocView>, f: crate::filter::FilterView) -> Seq<DocView>
    decreases docs.len(),
{
    if docs.len() == 0 {
        Seq::empty()
    } else {
        let head: Seq<DocView> = if crate::filter::doc_matches(docs[0].fields, f) {
            Seq::empty()
        } else {
            seq![docs[0]]
        };
        head + surviving(docs.drop_first(), f)
    }
}

/// The position of the first index built on this field, or -1.
pub open spec fn index_idx(indexes: Seq<IndexView>, field: Seq<char>) -> int {
    field_idx(indexes.map_values(|ix: IndexView| (ix.field, ix)), field)
}

impl Collection {
    /// Delete every document matching the filter, in one outcome for the
    /// whole predicate: no per-document statuses. Fails with
    /// `InvalidArgument`, deleting nothing, when the filter expression is
    /// malformed.
    pub fn delete_by_filter(&mut self, filter: &str) -> (r: Result<()>)
        requires
            old(self)@.wf(),
        ensures
            final(self)@.wf(),
            match crate::filter::parse_filter_spec(filter@) {
                Some(f) => r is Ok && final(self)@ == (CollectionView {
                    docs: surviving(old(self)@.docs, f),
                    ..old(self)@
                }),
                None => (r matches Err(e) && e is InvalidArgument) && final(self)@ == old(self)@,
            },
    {
        let f = match crate::filter::parse_filter(filter) {
            Some(f) => f,
            None => {
                return Err(
                    Error::InvalidArgument(String::from_str("malformed filter expression")),
                );
            },
        };
        let ghost docs0 = self@.docs;
        let mut kept: Vec<Doc> = Vec::new();
        let n = self.docs.len();
        proof {
            assert(docs0.skip(0) =~= docs0);
        }
        for i in 0..n
            invariant
                n == self.docs.len(),
                self@.docs == docs0,
                self@.wf(),
                kept@.map_values(|d: Doc| d@) + surviving(docs0.skip(i as int), f@) == surviving(
                    docs0,
                    f@,
                ),
        {
            proof {
                assert(docs0.skip(i as int)[0] == docs0[i as int]);
                assert(docs0.skip(i as int).drop_first() =~= docs0.skip(i + 1));
                assert(docs0[i as int] == self.docs@[i as int]@);
            }
            if !crate::filter::eval_filter(&self.docs[i], &f) {
                let ghost kpre = kept@;
                kept.push(self.docs[i].duplicate());
                proof {
                    assert(kept@.map_values(|d: Doc| d@) =~= kpre.map_values(|d: Doc| d@).push(
                        docs0[i as int],
                    ));
                }
            }
        }
        self.docs = kept;
        proof {
            assert(docs0.skip(n as int) =~= Seq::<DocView>::empty());
            assert(self@.docs + Seq::<DocView>::empty() =~= self@.docs);
            assert(self@ =~= (CollectionView { docs: surviving(docs0, f@), ..old(self)@ }));
            assert forall|i: int|
                0 <= i < self@.docs.len() implies doc_valid(self@.schema, #[trigger] self@.docs[i])
            by {
                lemma_surviving_valid(old(self)@.schema, docs0, f@);
            }
            lemma_surviving_unique(docs0, f@);
        }
        Ok(())
    }

    /// Build an index on a field, selecting its family, metric and
    /// quantization. Fails with `FieldNotFound` on a field the schema lacks,
    /// `AlreadyExists` on a field already indexed, and `InvalidArgument`
    /// when the family does not suit the field: the inverted family indexes
    /// scalar fields, every other family indexes vector fields.
    pub fn create_index(&mut self, column_name: &str, params: IndexParams) -> (r: Result<()>)
        requires
            old(self)@.wf(),
        ensures
            final(self)@.wf(),
            match old(self)@.schema.field_schema(column_name@) {
                None => (r matches Err(e) && e is FieldNotFound) && final(self)@ == old(self)@,
                Some(fs) => {
                    if index_idx(old(self)@.indexes, column_name@) >= 0 {
                        (r matches Err(e) && e is AlreadyExists) && final(self)@ == old(self)@
                    } else if (params@.index_type is Invert) != !fs.data_type.is_vector_spec() {
                        (r matches Err(e) && e is InvalidArgument) && final(self)@ == old(self)@
                    } else {
                        r is Ok && final(self)@ == (CollectionView {
                            indexes: old(self)@.indexes.push(
                                IndexView {
                                    field: column_name@,
                                    index_type: params@.index_type,
                                    metric: params@.metric,
                                    quantize: params@.quantize,
                                },
                            ),
                            ..old(self)@
                        })
                    }
                },
            },
    {
        let fs = match self.schema.lookup(column_name) {
            Some(fs) => fs,
            None => {
                return Err(Error::FieldNotFound(String::from_str(column_name)));
            },
        };
        let dt = fs.data_type();
        let field = String::from_str(column_name);
        if self.index_position(&field).is_some() {
            return Err(Error::AlreadyExists(field));
        }
        let inverted = matches!(params.index_type(), IndexType::Invert);
        if inverted == dt.is_vector() {
            return Err(
                Error::InvalidArgument(
                    String::from_str("index family does not suit the field's type"),
                ),
            );
        }
        self.indexes.push(
            IndexSpec {
                field,
                index_type: params.index_type,
                metric: params.metric,
                quantize: params.quantize,
            },
        );
        proof {
            assert(self@.indexes =~= old(self)@.indexes.push(
                IndexView {
                    field: column_name@,
                    index_type: params@.index_type,
                    metric: params@.metric,
                    quantize: params@.quantize,
                },
            ));
            assert(self@ =~= (CollectionView { indexes: self@.indexes, ..old(self)@ }));
        }
        Ok(())
    }

    /// Remove the index built on a field. Fails with `IndexNotFound` when
    /// the field has none.
    pub fn drop_index(&mut self, column_name: &str) -> (r: Result<()>)
        requires
            old(self)@.wf(),
        ensures
            final(self)@.wf(),
            match r {
                Ok(()) => index_idx(old(self)@.indexes, column_name@) >= 0 && final(self)@ == (
                CollectionView {
                    indexes: old(self)@.indexes.remove(
                        index_idx(old(self)@.indexes, column_name@),
                    ),
                    ..old(self)@
                }),
                Err(e) => e is IndexNotFound && index_idx(old(self)@.indexes, column_name@) == -1
                    && final(self)@ == old(self)@,
            },
    {
        let field = String::from_str(column_name);
        match self.index_position(&field) {
            Some(i) => {
                let ghost pre = self@.indexes;
                let _ = self.indexes.remove(i);
                proof {
                    assert(self@.indexes =~= pre.remove(i as int));
                    assert(self@ =~= (CollectionView { indexes: self@.indexes, ..old(self)@ }));
                }
                Ok(())
            },
            None => Err(Error::IndexNotFound(field)),
        }
    }

    /// Find the position of the first index built on this field.
    fn index_position(&self, field: &String) -> (r: Option<usize>)
        ensures
            match r {
                Some(i) => i < self@.indexes.len() && index_idx(self@.indexes, field@) == i,
                None => index_idx(self@.indexes, field@) == -1,
            },
    {
        let ghost pairs = self@.indexes.map_values(|ix: IndexView| (ix.field, ix));
        let n = self.indexes.len();
        proof {
            lemma_field_idx(pairs, field@);
        }
        for i in 0..n
            invariant
                n == self.indexes.len(),
                pairs == self@.indexes.map_values(|ix: IndexView| (ix.field, ix)),
                pairs.len() == n,
                forall|j: int| 0 <= j < i ==> pairs[j].0 != field@,
                field_idx(pairs, field@) == -1 || 0 <= field_idx(pairs, field@) < n,
                field_idx(pairs, field@) >= 0 ==> pairs[field_idx(pairs, field@)].0 == field@,
                forall|j: int|
                    0 <= j < n && (field_idx(pairs, field@) == -1 || j < field_idx(pairs, field@))
                        ==> pairs[j].0 != field@,
        {
            proof {
                assert(pairs[i as int] == (self@.indexes[i as int].field, self@.indexes[i as int]));
            }
            if self.indexes[i].field == *field {
                return Some(i);
            }
        }
        None
    }
}

/// Every document surviving a filter deletion was stored before, so it still
/// fits the schema.
pub proof fn lemma_surviving_valid(
    schema: CollectionSchemaView,
    docs: Seq<DocView>,
    f: crate::filter::FilterView,
)
    requires
        forall|i: int| 0 <= i < docs.len() ==> doc_valid(schema, #[trigger] docs[i]),
    ensures
        forall|i: int|
            0 <= i < surviving(docs, f).len() ==> doc_valid(schema, #[trigger] surviving(docs, f)[i]),
    decreases docs.len(),
{
    if docs.len() > 0 {
        assert(forall|i: int|
            0 <= i < docs.drop_first().len() ==> doc_valid(
                schema,
                #[trigger] docs.drop_first()[i],
            ));
        lemma_surviving_valid(schema, docs.drop_first(), f);
        let head: Seq<DocView> = if crate::filter::doc_matches(docs[0].fields, f) {
            Seq::empty()
        } else {
            seq![docs[0]]
        };
        let rest = surviving(docs.drop_first(), f);
        assert forall|i: int|
            0 <= i < surviving(docs, f).len() implies doc_valid(
            schema,
            #[trigger] surviving(docs, f)[i],
        ) by {
            if i < head.len() {
                assert(surviving(docs, f)[i] == docs[0]);
            } else {
                assert(surviving(docs, f)[i] == rest[i - head.len()]);
            }
        }
    }
}

/// The string form of a scalar value grouping documents: the string itself,
/// `true` or `false`, or the decimal form of an integer. Vectors and the
/// remaining kinds group nothing.
pub open spec fn group_key_of(v: FieldVal) -> Option<Seq<char>> {
    match v {
        FieldVal::Str(s) => Some(s),
        FieldVal::Bool(b) => Some(
            if b {
                "true"@
            } else {
                "false"@
            },
        ),
        FieldVal::Int32(x) => Some(crate::text::int_dec_of(x as int)),
        FieldVal::Int64(x) => Some(crate::text::int_dec_of(x as int)),
        _ => None,
    }
}

/// The group key of a document, from its group field's value.
pub open spec fn doc_group_key(d: DocView, gfield: Seq<char>) -> Option<Seq<char>> {
    match value_of(d.fields, gfield) {
        Some(v) => group_key_of(v),
        None => None,
    }
}

/// The distinct group keys, in order of first appearance, at most `cap` of
/// them, gathered onto `acc`.
pub open spec fn group_keys_fold(
    docs: Seq<DocView>,
    gfield: Seq<char>,
    cap: nat,
    acc: Seq<Seq<char>>,
) -> Seq<Seq<char>>
    decreases docs.len(),
{
    if docs.len() == 0 {
        acc
    } else {
        let acc2 = match doc_group_key(docs[0], gfield) {
            Some(k) => if !acc.contains(k) && acc.len() < cap {
                acc.push(k)
            } else {
                acc
            },
            None => acc,
        };
        group_keys_fold(docs.drop_first(), gfield, cap, acc2)
    }
}

/// A group member as returned: the ranked document with its fields projected
/// — vectors left out — and its score and id kept.
pub open spec fn project_member(d: DocView, output: Option<Seq<Seq<char>>>) -> DocView {
    DocView { pk: d.pk, fields: project_fields(d.fields, output, false), ..d }
}

/// The members of one group: the ranked documents whose group key is `k`, in
/// rank order, projected.
pub open spec fn group_members(
    docs: Seq<DocView>,
    gfield: Seq<char>,
    k: Seq<char>,
    output: Option<Seq<Seq<char>>>,
) -> Seq<DocView>
    decreases docs.len(),
{
    if docs.len() == 0 {
        Seq::empty()
    } else {
        let head: Seq<DocView> = if doc_group_key(docs[0], gfield) == Some(k) {
            seq![project_member(docs[0], output)]
        } else {
            Seq::empty()
        };
        head + group_members(docs.drop_first(), gfield, k, output)
    }
}

/// At most the first `cap` documents.
pub open spec fn capped(s: Seq<DocView>, cap: nat) -> Seq<DocView> {
    if s.len() <= cap {
        s
    } else {
        s.take(cap as int)
    }
}

/// The groups a grouped search answers with, given its ranked documents: one
/// group per distinct key in rank order, at most `gcount` groups, each
/// holding at most `gtopk` of its members, best first.
pub open spec fn grouped(
    docs: Seq<DocView>,
    gfield: Seq<char>,
    gcount: nat,
    gtopk: nat,
    output: Option<Seq<Seq<char>>>,
) -> Seq<crate::query::GroupView> {
    group_keys_fold(docs, gfield, gcount, Seq::empty()).map_values(
        |k: Seq<char>|
            crate::query::GroupView {
                key: k,
                docs: capped(group_members(docs, gfield, k, output), gtopk),
            },
    )
}

/// The plain search a grouped query ranks by: same field, target and filter,
/// nothing projected away.
pub open spec fn full_query_of(q: crate::query::GroupByVectorQueryView) -> crate::query::VectorQueryView {
    crate::query::VectorQueryView {
        field: q.field,
        topk: 0,
        filter: q.filter,
        include_vector: true,
        include_doc_id: true,
        output_fields: None,
        target: q.target,
    }
}

/// What a grouped search promises: `InvalidArgument` without a group-by
/// field, the errors of the plain search it ranks by, or groups built from
/// some ranking of all scored results.
pub open spec fn group_query_post(
    c: CollectionView,
    q: crate::query::GroupByVectorQueryView,
    r: Result<GroupResults>,
) -> bool {
    match q.group_by_field {
        None => r matches Err(e) && e is InvalidArgument,
        Some(gfield) => match query_outcome(c, full_query_of(q)) {
            QueryOutcome::UnknownField => r matches Err(e) && e is FieldNotFound,
            QueryOutcome::NoTarget => r matches Err(e) && e is InvalidArgument,
            QueryOutcome::WrongKind => r matches Err(e) && e is InvalidArgument,
            QueryOutcome::WrongDim { expected, actual } => r matches Err(e) && (
            e matches Error::DimensionMismatch { expected: ee, actual: aa } && ee as int == expected
                && aa as int == actual),
            QueryOutcome::BadFilter => r matches Err(e) && e is InvalidArgument,
            QueryOutcome::Ranked(metric, scored) => r matches Ok(g) && exists|p: Seq<DocView>|
                {
                    &&& #[trigger] p.to_multiset() == scored.to_multiset()
                    &&& ranked_by(p, metric)
                    &&& g@ == grouped(
                        p,
                        gfield,
                        q.group_count as nat,
                        q.group_topk as nat,
                        q.output_fields,
                    )
                },
        },
    }
}

/// The string form of the document's group key, if its group field holds a
/// groupable scalar.
fn key_of(d: &Doc, gfield: &String) -> (r: Option<String>)
    ensures
        match r {
            Some(s) => doc_group_key(d@, gfield@) == Some(s@),
            None => doc_group_key(d@, gfield@) is None,
        },
{
    match d.get_value_ref(gfield.as_str()) {
        Some(v) => match v {
            crate::doc::FieldValue::Str(s) => Some(s.clone()),
            crate::doc::FieldValue::Bool(b) => {
                if *b {
                    let s = String::from_str("true");
                    Some(s)
                } else {
                    let s = String::from_str("false");
                    Some(s)
                }
            },
            crate::doc::FieldValue::Int32(x) => Some(crate::text::i64_to_string(*x as i64)),
            crate::doc::FieldValue::Int64(x) => Some(crate::text::i64_to_string(*x)),
            _ => None,
        },
        None => None,
    }
}

/// Collect one group's members: the ranked documents keyed by `key`, best
/// first, at most `gtopk` of them, projected.
fn collect_members(
    docs: &Vec<Doc>,
    gfield: &String,
    key: &String,
    gtopk: u32,
    output: &Option<Vec<String>>,
) -> (r: Vec<Doc>)
    ensures
        r@.map_values(|d: Doc| d@) == capped(
            group_members(doc_views(docs@), gfield@, key@, opt_names_view(*output)),
            gtopk as nat,
        ),
{
    let ghost all = doc_views(docs@);
    let ghost names = opt_names_view(*output);
    let mut out: Vec<Doc> = Vec::new();
    let ghost mut mdone = Seq::<DocView>::empty();
    let n = docs.len();
    proof {
        assert(all.skip(0) =~= all);
        assert(mdone + group_members(all, gfield@, key@, names) =~= group_members(
            all,
            gfield@,
            key@,
            names,
        ));
        assert(capped(mdone, gtopk as nat) =~= Seq::<DocView>::empty());
    }
    for i in 0..n
        invariant
            n == docs@.len(),
            all == doc_views(docs@),
            names == opt_names_view(*output),
            mdone + group_members(all.skip(i as int), gfield@, key@, names) == group_members(
                all,
                gfield@,
                key@,
                names,
            ),
            out@.map_values(|d: Doc| d@) == capped(mdone, gtopk as nat),
    {
        let d = &docs[i];
        proof {
            assert(all[i as int] == d@);
            assert(all.skip(i as int)[0] == all[i as int]);
            assert(all.skip(i as int).drop_first() =~= all.skip(i + 1));
        }
        let matched = match key_of(d, gfield) {
            Some(k) => k == *key,
            None => false,
        };
        if matched {
            proof {
                assert(doc_group_key(all[i as int], gfield@) == Some(key@));
            }
            let ghost mpre = mdone;
            proof {
                mdone = mdone.push(project_member(d@, names));
            }
            if out.len() < gtopk as usize {
                let fields = project_doc(d, output, false);
                let ghost opre = out@;
                out.push(
                    Doc::assemble(String::from_str(d.pk()), fields, d.score(), d.doc_id()),
                );
                proof {
                    assert(out@.map_values(|x: Doc| x@) =~= opre.map_values(|x: Doc| x@).push(
                        project_member(d@, names),
                    ));
                    assert(capped(mdone, gtopk as nat) =~= capped(mpre, gtopk as nat).push(
                        project_member(d@, names),
                    ));
                }
            } else {
                proof {
                    assert(mpre.len() >= gtopk);
                    assert(capped(mdone, gtopk as nat) =~= capped(mpre, gtopk as nat));
                }
            }
        } else {
            proof {
                assert(!(doc_group_key(all[i as int], gfield@) == Some(key@)));
            }
        }
    }
    proof {
        assert(all.skip(n as int) =~= Seq::<DocView>::empty());
        assert(mdone + Seq::<DocView>::empty() =~= mdone);
    }
    out
}

impl Collection {
    /// Run a grouped search: rank the competing documents as a plain search
    /// would, partition them by the group field's distinct values in rank
    /// order, and keep at most `group_count` groups of at most `group_topk`
    /// members each. Documents without a groupable scalar under the group
    /// field fall out. The query is consumed. Fails as a plain search does,
    /// and with `InvalidArgument` when no group-by field was named.
    pub fn group_by_query(&self, query: crate::query::GroupByVectorQuery) -> (r: Result<
        GroupResults,
    >)
        requires
            self@.wf(),
        ensures
            group_query_post(self@, query@, r),
    {
        let ghost qv = query@;
        let (field, gb_opt, gcount, gtopk, filter_s, output, target_opt) = query.take_parts();
        let gfield = match gb_opt {
            Some(g) => g,
            None => {
                return Err(Error::InvalidArgument(String::from_str("no group-by field set")));
            },
        };
        let fs = match self.schema.lookup(field.as_str()) {
            Some(fs) => fs,
            None => {
                return Err(Error::FieldNotFound(field));
            },
        };
        let target = match target_opt {
            Some(t) => t,
            None => {
                return Err(Error::InvalidArgument(String::from_str("no query target set")));
            },
        };
        let dt = fs.data_type();
        let kind_ok = match &target {
            crate::query::QueryTarget::Dense(_) => dt.is_vector() && !dt.is_sparse_vector(),
            crate::query::QueryTarget::Sparse(_, _) => dt.is_sparse_vector(),
        };
        if !kind_ok {
            return Err(
                Error::InvalidArgument(
                    String::from_str("query target does not match the field's type"),
                ),
            );
        }
        if let crate::query::QueryTarget::Dense(v) = &target {
            if v.len() != fs.dimension() as usize {
                return Err(
                    Error::DimensionMismatch { expected: fs.dimension() as usize, actual: v.len() },
                );
            }
        }
        let filt: Option<crate::filter::Filter> = match &filter_s {
            Some(s) => match crate::filter::parse_filter(s.as_str()) {
                Some(f) => Some(f),
                None => {
                    return Err(
                        Error::InvalidArgument(String::from_str("malformed filter expression")),
                    );
                },
            },
            None => None,
        };
        let metric = self.metric_of(&field);
        let ghost fv = match full_query_of(qv).filter {
            Some(s) => crate::filter::parse_filter_spec(s),
            None => None,
        };
        proof {
            assert(match filt {
                Some(f) => fv == Some(f@),
                None => fv is None,
            });
        }
        let ghost t = target@;
        let mut results: Vec<Doc> = Vec::new();
        let n = self.docs.len();
        proof {
            assert(self@.docs.skip(0) =~= self@.docs);
        }
        for i in 0..n
            invariant
                n == self@.docs.len(),
                self@.wf(),
                qv.field == field@,
                t == target@,
                (match filt {
                    Some(f) => fv == Some(f@),
                    None => fv is None,
                }),
                self@.schema.field_schema(field@) == Some(fs@),
                (t matches crate::query::QueryTargetV::Dense(v) ==> v.len() == fs@.dimension),
                results@.map_values(|d: Doc| d@) + scored_docs(
                    self@.docs.skip(i as int),
                    field@,
                    t,
                    metric,
                    fv,
                    None,
                    true,
                    true,
                ) == scored_docs(self@.docs, field@, t, metric, fv, None, true, true),
        {
            let d = &self.docs[i];
            proof {
                assert(self@.docs[i as int] == d@);
                assert(doc_valid(self@.schema, d@));
                assert(self@.docs.skip(i as int)[0] == self@.docs[i as int]);
                assert(self@.docs.skip(i as int).drop_first() =~= self@.docs.skip(i + 1));
            }
            let passes = match &filt {
                Some(f) => crate::filter::eval_filter(d, f),
                None => true,
            };
            if passes {
                match (d.get_value_ref(field.as_str()), &target) {
                    (Some(crate::doc::FieldValue::Vector(c)), crate::query::QueryTarget::Dense(
                        tv,
                    )) => {
                        proof {
                            lemma_field_idx(d@.fields, field@);
                            let k = field_idx(d@.fields, field@);
                            assert(d@.fields[k].1 == FieldVal::Vector(c@));
                            assert(d@.fields[k].0 == field@);
                            assert(kind_fits(fs@, FieldVal::Vector(c@)));
                        }
                        let score: i128 = if metric.is_distance() {
                            crate::score::l2_distance(tv, c)
                        } else {
                            crate::score::dot_product(tv, c)
                        };
                        let none_output: Option<Vec<String>> = None;
                        let fields = project_doc(d, &none_output, true);
                        let ghost rpre = results@;
                        results.push(
                            Doc::assemble(String::from_str(d.pk()), fields, score, d.doc_id()),
                        );
                        proof {
                            assert(results@.map_values(|x: Doc| x@) =~= rpre.map_values(
                                |x: Doc| x@,
                            ).push(result_doc(d@, field@, t, metric, None, true, true)));
                        }
                    },
                    (Some(crate::doc::FieldValue::Sparse(di, dv)), crate::query::QueryTarget::Sparse(
                        qi,
                        qvv,
                    )) => {
                        let score: i128 = crate::score::sparse_dot_product(qi, qvv, di, dv);
                        let none_output: Option<Vec<String>> = None;
                        let fields = project_doc(d, &none_output, true);
                        let ghost rpre = results@;
                        results.push(
                            Doc::assemble(String::from_str(d.pk()), fields, score, d.doc_id()),
                        );
                        proof {
                            assert(results@.map_values(|x: Doc| x@) =~= rpre.map_values(
                                |x: Doc| x@,
                            ).push(result_doc(d@, field@, t, metric, None, true, true)));
                        }
                    },
                    _ => {
                    },
                }
            }
        }
        proof {
            assert(self@.docs.skip(n as int) =~= Seq::<DocView>::empty());
            assert(results@.map_values(|d: Doc| d@) + Seq::<DocView>::empty() =~= results@.map_values(
                |d: Doc| d@,
            ));
        }
        let ghost scored = results@.map_values(|d: Doc| d@);
        let sorted = sort_by_rank(results, metric);
        let ghost full = sorted@.map_values(|d: Doc| d@);

        // Gather the distinct group keys, in rank order, capped.
        let mut keys: Vec<String> = Vec::new();
        let m = sorted.len();
        proof {
            assert(full.skip(0) =~= full);
            assert(keys@.map_values(|s: String| s@) =~= Seq::<Seq<char>>::empty());
        }
        for i in 0..m
            invariant
                m == sorted@.len(),
                full == sorted@.map_values(|d: Doc| d@),
                group_keys_fold(
                    full.skip(i as int),
                    gfield@,
                    gcount as nat,
                    keys@.map_values(|s: String| s@),
                ) == group_keys_fold(full, gfield@, gcount as nat, Seq::empty()),
        {
            let d = &sorted[i];
            proof {
                assert(full[i as int] == d@);
                assert(full.skip(i as int)[0] == full[i as int]);
                assert(full.skip(i as int).drop_first() =~= full.skip(i + 1));
            }
            match key_of(d, &gfield) {
                Some(k) => {
                    let ghost kpre = keys@.map_values(|s: String| s@);
                    let ghost kv0 = k@;
                    if !names_contain(&keys, &k) && keys.len() < gcount as usize {
                        keys.push(k);
                        proof {
                            assert(keys@.map_values(|s: String| s@) =~= kpre.push(kv0));
                        }
                    }
                },
                None => {
                },
            }
        }
        proof {
            assert(full.skip(m as int) =~= Seq::<DocView>::empty());
        }

        // Fill each group with its members, best first, capped.
        let mut groups: Vec<crate::query::GroupResult> = Vec::new();
        let kn = keys.len();
        let ghost key_views = keys@.map_values(|s: String| s@);
        for gi in 0..kn
            invariant
                kn == keys@.len(),
                key_views == keys@.map_values(|s: String| s@),
                full == sorted@.map_values(|d: Doc| d@),
                groups@.len() == gi,
                forall|j: int|
                    0 <= j < gi ==> (#[trigger] groups@[j])@ == (crate::query::GroupView {
                        key: key_views[j],
                        docs: capped(
                            group_members(full, gfield@, key_views[j], opt_names_view(output)),
                            gtopk as nat,
                        ),
                    }),
        {
            proof {
                assert(key_views[gi as int] == keys@[gi as int]@);
            }
            let members = collect_members(&sorted, &gfield, &keys[gi], gtopk, &output);
            let g = crate::query::GroupResult::assemble(
                keys[gi].clone(),
                DocList::from_docs(members),
            );
            groups.push(g);
        }
        let out = GroupResults::from_groups(groups);
        proof {
            assert(group_query_post(self@, qv, Ok(out))) by {
                assert(qv.group_by_field == Some(gfield@));
                assert(query_outcome(self@, full_query_of(qv)) == QueryOutcome::Ranked(
                    metric,
                    scored,
                ));
                full.to_multiset_ensures();
                scored.to_multiset_ensures();
                assert(out@ =~= grouped(
                    full,
                    gfield@,
                    gcount as nat,
                    gtopk as nat,
                    opt_names_view(output),
                ));
                assert(full.to_multiset() == scored.to_multiset() && ranked_by(full, metric) && out@
                    == grouped(full, gfield@, gcount as nat, gtopk as nat, qv.output_fields));
            }
        }
        Ok(out)
    }
}

/// Whether some stored document carries this key.
pub open spec fn pk_in(docs: Seq<DocView>, pk: Seq<char>) -> bool {
    exists|i: int| 0 <= i < docs.len() && (#[trigger] docs[i]).pk == pk
}

/// `field_idx` over the key/document pairs finds a key exactly when some
/// document carries it.
pub proof fn lemma_pk_idx(docs: Seq<DocView>, pk: Seq<char>)
    ensures
        field_idx(docs.map_values(|x: DocView| (x.pk, x)), pk) >= 0 <==> pk_in(docs, pk),
{
    let pairs = docs.map_values(|x: DocView| (x.pk, x));
    lemma_field_idx(pairs, pk);
    if field_idx(pairs, pk) >= 0 {
        let i = field_idx(pairs, pk);
        assert(docs[i].pk == pk);
    }
    if pk_in(docs, pk) {
        let i = choose|i: int| 0 <= i < docs.len() && (#[trigger] docs[i]).pk == pk;
        assert(pairs[i].0 == pk);
        if field_idx(pairs, pk) == -1 {
            assert(pairs[i].0 != pk);
        }
    }
}

/// After an insert batch of schema-fitting documents, a key is stored
/// exactly when it was stored before or some batch document carries it.
pub proof fn lemma_insert_state_pks(
    schema: CollectionSchemaView,
    stored: Seq<DocView>,
    batch: Seq<DocView>,
)
    requires
        forall|i: int| 0 <= i < batch.len() ==> doc_valid(schema, #[trigger] batch[i]),
    ensures
        forall|p: Seq<char>|
            #[trigger] pk_in(write_fold(stored, batch, insert_step(schema)).0, p) <==> (pk_in(
                stored,
                p,
            ) || exists|j: int| 0 <= j < batch.len() && (#[trigger] batch[j]).pk == p),
    decreases batch.len(),
{
    if batch.len() == 0 {
        assert forall|p: Seq<char>|
            #[trigger] pk_in(write_fold(stored, batch, insert_step(schema)).0, p) <==> (pk_in(
                stored,
                p,
            ) || exists|j: int| 0 <= j < batch.len() && (#[trigger] batch[j]).pk == p) by {
            assert(write_fold(stored, batch, insert_step(schema)).0 == stored);
        }
    } else {
        let d = batch[0];
        let (s1, c) = insert_step(schema)(stored, d);
        lemma_pk_idx(stored, d.pk);
        assert(forall|i: int|
            0 <= i < batch.drop_first().len() ==> doc_valid(
                schema,
                #[trigger] batch.drop_first()[i],
            ));
        lemma_insert_state_pks(schema, s1, batch.drop_first());
        assert forall|p: Seq<char>|
            #[trigger] pk_in(write_fold(stored, batch, insert_step(schema)).0, p) <==> (pk_in(
                stored,
                p,
            ) || exists|j: int| 0 <= j < batch.len() && (#[trigger] batch[j]).pk == p) by {
            assert(write_fold(stored, batch, insert_step(schema)).0 == write_fold(
                s1,
                batch.drop_first(),
                insert_step(schema),
            ).0);
            // A key sits in the state after the first step exactly when it
            // was stored before or is the first document's.
            assert(pk_in(s1, p) <==> (pk_in(stored, p) || d.pk == p)) by {
                if pk_in(s1, p) {
                    let i = choose|i: int| 0 <= i < s1.len() && (#[trigger] s1[i]).pk == p;
                    if i < stored.len() {
                        assert(stored[i].pk == p);
                    }
                }
                if pk_in(stored, p) {
                    let i = choose|i: int|
                        0 <= i < stored.len() && (#[trigger] stored[i]).pk == p;
                    assert(s1[i].pk == p);
                }
                if d.pk == p && !pk_in(stored, p) {
                    assert(s1[s1.len() - 1].pk == p);
                }
            }
            if pk_in(write_fold(stored, batch, insert_step(schema)).0, p) {
                if !pk_in(stored, p) {
                    if d.pk == p {
                        assert(batch[0].pk == p);
                    } else {
                        let j = choose|j: int|
                            0 <= j < batch.drop_first().len() && (#[trigger] batch.drop_first()[j]).pk
                                == p;
                        assert(batch[j + 1].pk == p);
                    }
                }
            }
            if exists|j: int| 0 <= j < batch.len() && (#[trigger] batch[j]).pk == p {
                let j = choose|j: int| 0 <= j < batch.len() && (#[trigger] batch[j]).pk == p;
                if j > 0 {
                    assert(batch.drop_first()[j - 1].pk == p);
                }
            }
        }
    }
}

/// The statuses of an insert batch of schema-fitting documents: one per
/// document, in input order; a document whose key is already stored — or
/// claimed by an earlier document of the same batch — earns `AlreadyExists`
/// at its position, and every other document is accepted.
pub proof fn lemma_insert_batch_statuses(
    schema: CollectionSchemaView,
    stored: Seq<DocView>,
    batch: Seq<DocView>,
)
    requires
        forall|i: int| 0 <= i < batch.len() ==> doc_valid(schema, #[trigger] batch[i]),
    ensures
        write_fold(stored, batch, insert_step(schema)).1.len() == batch.len(),
        forall|i: int|
            0 <= i < batch.len() ==> write_fold(stored, batch, insert_step(schema)).1[i] == (
            if pk_in(stored, (#[trigger] batch[i]).pk) || (exists|j: int|
                0 <= j < i && (#[trigger] batch[j]).pk == batch[i].pk) {
                crate::error::STATUS_ALREADY_EXISTS
            } else {
                crate::error::STATUS_OK
            }),
    decreases batch.len(),
{
    if batch.len() > 0 {
        let d = batch[0];
        let (s1, c0) = insert_step(schema)(stored, d);
        lemma_pk_idx(stored, d.pk);
        assert(forall|i: int|
            0 <= i < batch.drop_first().len() ==> doc_valid(
                schema,
                #[trigger] batch.drop_first()[i],
            ));
        lemma_insert_batch_statuses(schema, s1, batch.drop_first());
        let codes = write_fold(stored, batch, insert_step(schema)).1;
        let rest_codes = write_fold(s1, batch.drop_first(), insert_step(schema)).1;
        assert(codes == seq![c0] + rest_codes);
        assert(c0 == (if pk_in(stored, d.pk) {
            crate::error::STATUS_ALREADY_EXISTS
        } else {
            crate::error::STATUS_OK
        }));
        assert(pk_in(s1, d.pk)) by {
            if pk_in(stored, d.pk) {
                let i = choose|i: int|
                    0 <= i < stored.len() && (#[trigger] stored[i]).pk == d.pk;
                assert(s1[i].pk == d.pk);
            } else {
                assert(s1[s1.len() - 1].pk == d.pk);
            }
        }
        assert forall|i: int|
            0 <= i < batch.len() implies codes[i] == (if pk_in(stored, (#[trigger] batch[i]).pk)
            || (exists|j: int| 0 <= j < i && (#[trigger] batch[j]).pk == batch[i].pk) {
            crate::error::STATUS_ALREADY_EXISTS
        } else {
            crate::error::STATUS_OK
        }) by {
            if i > 0 {
                let e = batch[i];
                assert(codes[i] == rest_codes[i - 1]);
                assert(batch.drop_first()[i - 1] == e);
                // The claim over the rest of the batch, against the state
                // after the first step.
                assert(rest_codes[i - 1] == (if pk_in(s1, e.pk) || (exists|j: int|
                    0 <= j < i - 1 && (#[trigger] batch.drop_first()[j]).pk == e.pk) {
                    crate::error::STATUS_ALREADY_EXISTS
                } else {
                    crate::error::STATUS_OK
                }));
                assert(pk_in(s1, e.pk) <==> (pk_in(stored, e.pk) || d.pk == e.pk)) by {
                    if pk_in(s1, e.pk) {
                        let m = choose|m: int| 0 <= m < s1.len() && (#[trigger] s1[m]).pk == e.pk;
                        if m < stored.len() {
                            assert(stored[m].pk == e.pk);
                        }
                    }
                    if pk_in(stored, e.pk) {
                        let m = choose|m: int|
                            0 <= m < stored.len() && (#[trigger] stored[m]).pk == e.pk;
                        assert(s1[m].pk == e.pk);
                    }
                    if d.pk == e.pk && !pk_in(stored, e.pk) {
                        assert(s1[s1.len() - 1].pk == e.pk);
                    }
                }
                assert((exists|j: int|
                    0 <= j < i - 1 && (#[trigger] batch.drop_first()[j]).pk == e.pk) || d.pk == e.pk
                    <==> exists|j: int| 0 <= j < i && (#[trigger] batch[j]).pk == e.pk) by {
                    if exists|j: int|
                        0 <= j < i - 1 && (#[trigger] batch.drop_first()[j]).pk == e.pk {
                        let j = choose|j: int|
                            0 <= j < i - 1 && (#[trigger] batch.drop_first()[j]).pk == e.pk;
                        assert(batch[j + 1].pk == e.pk);
                    }
                    if d.pk == e.pk {
                        assert(batch[0].pk == e.pk);
                    }
                    if exists|j: int| 0 <= j < i && (#[trigger] batch[j]).pk == e.pk {
                        let j = choose|j: int| 0 <= j < i && (#[trigger] batch[j]).pk == e.pk;
                        if j > 0 {
                            assert(batch.drop_first()[j - 1].pk == e.pk);
                        }
                    }
                }
            }
        }
    }
}

/// The round trip of one accepted document: inserting a document whose field
/// `f` holds `v` and fetching its key yields exactly one document, under that
/// key, whose field `f` still holds `v` — for every kind of field value.
pub proof fn lemma_insert_fetch_round_trip(
    c: CollectionView,
    d: DocView,
    f: Seq<char>,
    v: FieldVal,
)
    requires
        c.wf(),
        value_of(d.fields, f) == Some(v),
        write_fold(c.docs, seq![d], insert_step(c.schema)).1[0] == crate::error::STATUS_OK,
    ensures
        ({
            let stored = write_fold(c.docs, seq![d], insert_step(c.schema)).0;
            let fetched = fetch_entries(stored, seq![d.pk]);
            &&& fetched.len() == 1
            &&& fetched[0].0 == d.pk
            &&& value_of(fetched[0].1.fields, f) == Some(v)
        }),
{
    let batch = seq![d];
    let (s1, c0) = insert_step(c.schema)(c.docs, d);
    assert(batch[0] == d);
    assert(batch.drop_first() =~= Seq::<DocView>::empty());
    assert(write_fold(s1, batch.drop_first(), insert_step(c.schema)) == (
        s1,
        Seq::<u32>::empty(),
    ));
    let stored = write_fold(c.docs, batch, insert_step(c.schema)).0;
    let codes = write_fold(c.docs, batch, insert_step(c.schema)).1;
    assert(stored == s1);
    assert(codes == seq![c0] + Seq::<u32>::empty());
    assert(codes[0] == c0);
    lemma_pk_idx(c.docs, d.pk);
    assert(c0 == crate::error::STATUS_OK);
    assert(stored == c.docs.push(stored_doc(d, c.docs.len() as u64)));
    let pairs = stored.map_values(|x: DocView| (x.pk, x));
    lemma_field_idx(pairs, d.pk);
    assert(pairs[stored.len() - 1].0 == d.pk);
    let k = field_idx(pairs, d.pk);
    assert(k >= 0) by {
        if k == -1 {
            assert(pairs[stored.len() - 1].0 != d.pk);
        }
    }
    assert(k == stored.len() - 1) by {
        if k < stored.len() - 1 {
            assert(stored[k].pk == d.pk);
            assert(c.docs[k].pk == d.pk);
            assert(pk_in(c.docs, d.pk));
        }
    }
    let fetched = fetch_entries(stored, seq![d.pk]);
    assert(seq![d.pk][0] == d.pk);
    assert(!Seq::<Seq<char>>::empty().contains(d.pk));
    assert(seq![d.pk].drop_first() =~= Seq::<Seq<char>>::empty());
    assert(fetch_entries_from(
        stored,
        seq![d.pk].drop_first(),
        Seq::<Seq<char>>::empty().push(d.pk),
    ) == Seq::<(Seq<char>, DocView)>::empty());
    assert(fetched =~= seq![(d.pk, stored[k])]);
    assert(stored[k].fields == d.fields);
}

/// Durability of a flush: persisting a collection's state at its path leaves
/// exactly that state to be found there, so writes completed before a
/// successful flush survive reopening the path.
pub proof fn lemma_flush_durability(
    store: Seq<(Seq<char>, CollectionView)>,
    c: CollectionView,
)
    requires
        forall|i: int, j: int| 0 <= i < j < store.len() ==> store[i].0 != store[j].0,
        field_idx(store, c.path) >= 0,
    ensures
        value_of(store.update(field_idx(store, c.path), (c.path, c)), c.path) == Some(c),
{
    let k = field_idx(store, c.path);
    lemma_field_idx(store, c.path);
    let updated = store.update(k, (c.path, c));
    lemma_field_idx(updated, c.path);
    let m = field_idx(updated, c.path);
    assert(updated[k].0 == c.path);
    assert(m >= 0) by {
        if m == -1 {
            assert(updated[k].0 != c.path);
        }
    }
    assert(m == k) by {
        if m < k {
            assert(updated[m].0 == c.path);
            assert(store[m].0 == c.path);
            assert(store[m].0 != c.path);
        }
        if m > k {
            assert(updated[k].0 != c.path);
        }
    }
}

/// Every document surviving a filter deletion is one of the stored
/// documents, and distinct survivors come from distinct stored documents, so
/// the keys stay unique.
pub proof fn lemma_surviving_unique(docs: Seq<DocView>, f: crate::filter::FilterView)
    requires
        forall|i: int, j: int|
            0 <= i < j < docs.len() ==> (#[trigger] docs[i]).pk != (#[trigger] docs[j]).pk,
    ensures
        forall|k: int|
            0 <= k < surviving(docs, f).len() ==> exists|m: int|
                0 <= m < docs.len() && (#[trigger] surviving(docs, f)[k]) == #[trigger] docs[m],
        forall|i: int, j: int|
            0 <= i < j < surviving(docs, f).len() ==> (#[trigger] surviving(docs, f)[i]).pk != (
            #[trigger] surviving(docs, f)[j]).pk,
    decreases docs.len(),
{
    if docs.len() > 0 {
        let rest = docs.drop_first();
        assert(forall|i: int, j: int|
            0 <= i < j < rest.len() ==> (#[trigger] rest[i]).pk != (#[trigger] rest[j]).pk);
        lemma_surviving_unique(rest, f);
        let surv = surviving(docs, f);
        let head: Seq<DocView> = if crate::filter::doc_matches(docs[0].fields, f) {
            Seq::empty()
        } else {
            seq![docs[0]]
        };
        let rsurv = surviving(rest, f);
        assert forall|k: int|
            0 <= k < surv.len() implies exists|m: int|
            0 <= m < docs.len() && (#[trigger] surv[k]) == #[trigger] docs[m] by {
            if k < head.len() {
                assert(surv[k] == docs[0]);
            } else {
                assert(surv[k] == rsurv[k - head.len()]);
                let m0 = choose|m0: int|
                    0 <= m0 < rest.len() && (#[trigger] rsurv[k - head.len()]) == #[trigger] rest[m0];
                assert(surv[k] == docs[m0 + 1]);
            }
        }
        assert forall|i: int, j: int|
            0 <= i < j < surv.len() implies (#[trigger] surv[i]).pk != (#[trigger] surv[j]).pk by {
            if i >= head.len() {
                assert(surv[i] == rsurv[i - head.len()]);
                assert(surv[j] == rsurv[j - head.len()]);
            } else {
                assert(surv[i] == docs[0]);
                assert(surv[j] == rsurv[j - head.len()]);
                let m0 = choose|m0: int|
                    0 <= m0 < rest.len() && (#[trigger] rsurv[j - head.len()]) == #[trigger] rest[m0];
                assert(docs[0].pk != docs[m0 + 1].pk);
            }
        }
    }
}

/// A fetch result is a map indexed by primary key: no two entries share a
/// key, and no entry carries a key already queried under `seen`.
pub proof fn lemma_fetch_entries_unique(
    stored: Seq<DocView>,
    pks: Seq<Seq<char>>,
    seen: Seq<Seq<char>>,
)
    ensures
        forall|k: int|
            0 <= k < fetch_entries_from(stored, pks, seen).len() ==> !seen.contains(
                (#[trigger] fetch_entries_from(stored, pks, seen)[k]).0,
            ),
        forall|i: int, j: int|
            0 <= i < j < fetch_entries_from(stored, pks, seen).len() ==> (
            #[trigger] fetch_entries_from(stored, pks, seen)[i]).0 != (#[trigger] fetch_entries_from(
                stored,
                pks,
                seen,
            )[j]).0,
    decreases pks.len(),
{
    if pks.len() > 0 {
        let fe = fetch_entries_from(stored, pks, seen);
        let idx = field_idx(stored.map_values(|x: DocView| (x.pk, x)), pks[0]);
        let head: Seq<(Seq<char>, DocView)> = if !seen.contains(pks[0]) && idx >= 0 {
            seq![(pks[0], stored[idx])]
        } else {
            Seq::empty()
        };
        let grown = seen.push(pks[0]);
        let rest = fetch_entries_from(stored, pks.drop_first(), grown);
        lemma_fetch_entries_unique(stored, pks.drop_first(), grown);
        assert(grown[grown.len() - 1] == pks[0]);
        assert(grown.contains(pks[0]));
        assert forall|k: int| 0 <= k < fe.len() implies !seen.contains((#[trigger] fe[k]).0) by {
            if k >= head.len() {
                assert(fe[k] == rest[k - head.len()]);
                assert(!grown.contains(rest[k - head.len()].0));
                if seen.contains(fe[k].0) {
                    let m = choose|m: int| 0 <= m < seen.len() && seen[m] == fe[k].0;
                    assert(grown[m] == fe[k].0);
                }
            }
        }
        assert forall|i: int, j: int|
            0 <= i < j < fe.len() implies (#[trigger] fe[i]).0 != (#[trigger] fe[j]).0 by {
            if i >= head.len() {
                assert(fe[i] == rest[i - head.len()]);
                assert(fe[j] == rest[j - head.len()]);
            } else {
                assert(fe[i].0 == pks[0]);
                assert(fe[j] == rest[j - head.len()]);
                assert(!grown.contains(rest[j - head.len()].0));
            }
        }
    }
}

/// An accepted point-delete removes the key for good: when the stored keys
/// are unique and the delete step reports success for a key, no stored
/// document carries that key afterwards.
pub proof fn lemma_delete_removes_key(stored: Seq<DocView>, pk: Seq<char>)
    requires
        forall|i: int, j: int|
            0 <= i < j < stored.len() ==> (#[trigger] stored[i]).pk != (#[trigger] stored[j]).pk,
        delete_step()(stored, pk).1 == crate::error::STATUS_OK,
    ensures
        !pk_in(delete_step()(stored, pk).0, pk),
{
    let pairs = stored.map_values(|x: DocView| (x.pk, x));
    let k = field_idx(pairs, pk);
    lemma_field_idx(pairs, pk);
    assert(k >= 0);
    assert(pairs[k] == (stored[k].pk, stored[k]));
    assert(stored[k].pk == pk);
    let post = stored.remove(k);
    assert(delete_step()(stored, pk).0 == post);
    assert forall|m: int| 0 <= m < post.len() implies (#[trigger] post[m]).pk != pk by {
        let m0 = if m < k {
            m
        } else {
            m + 1
        };
        assert(post[m] == stored[m0]);
        if m0 < k {
            assert(stored[m0].pk != stored[k].pk);
        } else {
            assert(stored[k].pk != stored[m0].pk);
        }
    }
    if pk_in(post, pk) {
        let m = choose|m: int| 0 <= m < post.len() && (#[trigger] post[m]).pk == pk;
        assert(post[m].pk != pk);
    }
}

/// Pushing a document whose key no stored document carries keeps the keys
/// unique.
proof fn lemma_unique_after_push(pre: Seq<DocView>, post: Seq<DocView>, pk: Seq<char>)
    requires
        forall|i: int, j: int|
            0 <= i < j < pre.len() ==> (#[trigger] pre[i]).pk != (#[trigger] pre[j]).pk,
        forall|m: int| 0 <= m < pre.len() ==> (#[trigger] pre[m]).pk != pk,
        post.len() == pre.len() + 1,
        forall|m: int| 0 <= m < pre.len() ==> (#[trigger] post[m]) == pre[m],
        post[post.len() - 1].pk == pk,
    ensures
        forall|i: int, j: int|
            0 <= i < j < post.len() ==> (#[trigger] post[i]).pk != (#[trigger] post[j]).pk,
{
    assert forall|i: int, j: int|
        0 <= i < j < post.len() implies (#[trigger] post[i]).pk != (#[trigger] post[j]).pk by {
        if j < pre.len() {
            assert(pre[i].pk != pre[j].pk);
        } else {
            assert(pre[i].pk != pk);
        }
    }
}

/// Which write a batch performs.
enum WriteKind {
    Insert,
    Upsert,
    Update,
}

/// The names of an optional output-field list.
pub open spec fn opt_names_view(o: Option<Vec<String>>) -> Option<Seq<Seq<char>>> {
    match o {
        Some(v) => Some(v@.map_values(|s: String| s@)),
        None => None,
    }
}

/// Whether a result keeps this field: vector fields only when asked for, and
/// under a non-empty allow-list only the fields it names.
pub open spec fn keep_field(
    p: (Seq<char>, FieldVal),
    output: Option<Seq<Seq<char>>>,
    include_vectors: bool,
) -> bool {
    &&& (include_vectors || !(p.1 is Vector || p.1 is Sparse))
    &&& (match output {
        Some(names) => names.len() == 0 || names.contains(p.0),
        None => true,
    })
}

/// The fields a result document carries: the stored fields that the
/// projection keeps, in stored order.
pub open spec fn project_fields(
    fields: crate::doc::FieldsView,
    output: Option<Seq<Seq<char>>>,
    include_vectors: bool,
) -> crate::doc::FieldsView
    decreases fields.len(),
{
    if fields.len() == 0 {
        Seq::empty()
    } else {
        let head: crate::doc::FieldsView = if keep_field(fields[0], output, include_vectors) {
            seq![fields[0]]
        } else {
            Seq::empty()
        };
        head + project_fields(fields.drop_first(), output, include_vectors)
    }
}

/// Whether a stored document competes in the search: it holds the queried
/// field with a value of the target's kind, and it passes the filter.
pub open spec fn is_candidate(
    d: DocView,
    field: Seq<char>,
    t: crate::query::QueryTargetV,
    fv: Option<crate::filter::FilterView>,
) -> bool {
    &&& (match (value_of(d.fields, field), t) {
        (Some(FieldVal::Vector(_)), crate::query::QueryTargetV::Dense(_)) => true,
        (Some(FieldVal::Sparse(_, _)), crate::query::QueryTargetV::Sparse(_, _)) => true,
        _ => false,
    })
    &&& (match fv {
        Some(f) => crate::filter::doc_matches(d.fields, f),
        None => true,
    })
}

/// The exact score of a stored value against the target: the squared
/// Euclidean distance under a distance metric, the dot product under a
/// similarity metric, and the sparse dot product for a sparse target.
pub open spec fn target_score(
    t: crate::query::QueryTargetV,
    v: FieldVal,
    metric: MetricType,
) -> int {
    match (t, v) {
        (crate::query::QueryTargetV::Dense(q), FieldVal::Vector(c)) => if metric.is_distance_spec() {
            crate::score::l2_dist(q, c)
        } else {
            crate::score::dot(q, c)
        },
        (crate::query::QueryTargetV::Sparse(qi, qv), FieldVal::Sparse(di, dv)) => crate::score::sparse_dot(
            qi,
            qv,
            di,
            dv,
        ),
        _ => 0,
    }
}

/// The document a search returns for one competing stored document: the
/// projected fields, the exact score, and the internal id when asked for.
pub open spec fn result_doc(
    d: DocView,
    field: Seq<char>,
    t: crate::query::QueryTargetV,
    metric: MetricType,
    output: Option<Seq<Seq<char>>>,
    include_vectors: bool,
    include_ids: bool,
) -> DocView {
    DocView {
        pk: d.pk,
        fields: project_fields(d.fields, output, include_vectors),
        score: (match value_of(d.fields, field) {
            Some(v) => target_score(t, v, metric),
            None => 0,
        }) as i128,
        doc_id: if include_ids {
            d.doc_id
        } else {
            0
        },
    }
}

/// The scored result documents of a search, one per competing stored
/// document, in stored order.
pub open spec fn scored_docs(
    docs: Seq<DocView>,
    field: Seq<char>,
    t: crate::query::QueryTargetV,
    metric: MetricType,
    fv: Option<crate::filter::FilterView>,
    output: Option<Seq<Seq<char>>>,
    include_vectors: bool,
    include_ids: bool,
) -> Seq<DocView>
    decreases docs.len(),
{
    if docs.len() == 0 {
        Seq::empty()
    } else {
        let head: Seq<DocView> = if is_candidate(docs[0], field, t, fv) {
            seq![result_doc(docs[0], field, t, metric, output, include_vectors, include_ids)]
        } else {
            Seq::empty()
        };
        head + scored_docs(docs.drop_first(), field, t, metric, fv, output, include_vectors, include_ids)
    }
}

/// Whether the documents stand best match first: scores never get better —
/// smaller for a distance metric, larger for a similarity metric — later in
/// the sequence.
pub open spec fn ranked_by(s: Seq<DocView>, metric: MetricType) -> bool {
    forall|i: int, j: int|
        0 <= i < j < s.len() ==> crate::score::rank_leq(
            metric,
            s[i].score as int,
            s[j].score as int,
        )
}

/// How a search may answer: refused for one of five reasons, or ranked
/// results under the field's metric.
pub enum QueryOutcome {
    /// The queried field is not in the schema.
    UnknownField,
    /// No query target was set.
    NoTarget,
    /// The target's kind does not match the field's type.
    WrongKind,
    /// A dense target's length differs from the field's dimension.
    WrongDim { expected: int, actual: int },
    /// The filter expression is malformed.
    BadFilter,
    /// All checks passed: the metric, and the scored results in stored order.
    Ranked(MetricType, Seq<DocView>),
}

/// The outcome a search of this collection owes this query.
pub open spec fn query_outcome(c: CollectionView, q: crate::query::VectorQueryView) -> QueryOutcome {
    match c.schema.field_schema(q.field) {
        None => QueryOutcome::UnknownField,
        Some(fs) => match q.target {
            None => QueryOutcome::NoTarget,
            Some(t) => {
                let kind_ok = match t {
                    crate::query::QueryTargetV::Dense(_) => fs.data_type.is_vector_spec()
                        && !fs.data_type.is_sparse_vector_spec(),
                    crate::query::QueryTargetV::Sparse(_, _) => fs.data_type.is_sparse_vector_spec(),
                };
                if !kind_ok {
                    QueryOutcome::WrongKind
                } else if (t matches crate::query::QueryTargetV::Dense(v) && v.len()
                    != fs.dimension) {
                    QueryOutcome::WrongDim {
                        expected: fs.dimension as int,
                        actual: (t->Dense_0).len() as int,
                    }
                } else {
                    let fv = match q.filter {
                        Some(s) => crate::filter::parse_filter_spec(s),
                        None => None,
                    };
                    if q.filter is Some && fv is None {
                        QueryOutcome::BadFilter
                    } else {
                        let metric = c.metric_for(q.field);
                        QueryOutcome::Ranked(
                            metric,
                            scored_docs(
                                c.docs,
                                q.field,
                                t,
                                metric,
                                fv,
                                q.output_fields,
                                q.include_vector,
                                q.include_doc_id,
                            ),
                        )
                    }
                }
            },
        },
    }
}

/// Whether the list names the string.
fn names_contain(names: &Vec<String>, s: &String) -> (r: bool)
    ensures
        r == names@.map_values(|x: String| x@).contains(s@),
{
    let n = names.len();
    let ghost views = names@.map_values(|x: String| x@);
    for i in 0..n
        invariant
            n == names@.len(),
            views == names@.map_values(|x: String| x@),
            forall|j: int| 0 <= j < i ==> views[j] != s@,
    {
        if names[i] == *s {
            proof {
                assert(views[i as int] == s@);
            }
            return true;
        }
    }
    proof {
        assert(!views.contains(s@));
    }
    false
}

/// Build the fields a result document carries.
fn project_doc(d: &Doc, output: &Option<Vec<String>>, include_vectors: bool) -> (r: Vec<
    (String, crate::doc::FieldValue),
>)
    ensures
        r@.map_values(|p: (String, crate::doc::FieldValue)| (p.0@, p.1@)) == project_fields(
            d@.fields,
            opt_names_view(*output),
            include_vectors,
        ),
{
    let ghost names = opt_names_view(*output);
    let ghost fields = d@.fields;
    let mut out: Vec<(String, crate::doc::FieldValue)> = Vec::new();
    let n = d.fields_len();
    proof {
        assert(fields.skip(0) =~= fields);
    }
    for i in 0..n
        invariant
            n == fields.len(),
            fields == d@.fields,
            names == opt_names_view(*output),
            out@.map_values(|p: (String, crate::doc::FieldValue)| (p.0@, p.1@)) + project_fields(
                fields.skip(i as int),
                names,
                include_vectors,
            ) == project_fields(fields, names, include_vectors),
    {
        let pair = d.field_pair(i);
        proof {
            assert(fields.skip(i as int)[0] == fields[i as int]);
            assert(fields.skip(i as int).drop_first() =~= fields.skip(i + 1));
        }
        let vector_ok = include_vectors || !matches!(
            &pair.1,
            crate::doc::FieldValue::Vector(_) | crate::doc::FieldValue::Sparse(_, _)
        );
        let listed = match output {
            Some(list) => list.len() == 0 || names_contain(list, &pair.0),
            None => true,
        };
        if vector_ok && listed {
            let ghost opre = out@;
            out.push((pair.0.clone(), crate::doc::clone_value(&pair.1)));
            proof {
                assert(out@.map_values(|p: (String, crate::doc::FieldValue)| (p.0@, p.1@))
                    =~= opre.map_values(|p: (String, crate::doc::FieldValue)| (p.0@, p.1@)).push(
                    fields[i as int],
                ));
            }
        }
    }
    proof {
        assert(fields.skip(n as int) =~= Seq::<(Seq<char>, FieldVal)>::empty());
        assert(out@.map_values(|p: (String, crate::doc::FieldValue)| (p.0@, p.1@))
            + Seq::<(Seq<char>, FieldVal)>::empty() =~= out@.map_values(
            |p: (String, crate::doc::FieldValue)| (p.0@, p.1@),
        ));
    }
    out
}

/// Whether `a` ranks strictly better than `b` under the metric.
fn rank_better(metric: MetricType, a: i128, b: i128) -> (r: bool)
    ensures
        r == (!crate::score::rank_leq(metric, b as int, a as int)),
{
    if metric.is_distance() {
        a < b
    } else {
        a > b
    }
}

/// Sort documents best match first under the metric, by repeatedly moving
/// the best remaining one over. The result holds exactly the given
/// documents.
fn sort_by_rank(input: Vec<Doc>, metric: MetricType) -> (r: Vec<Doc>)
    ensures
        r@.map_values(|d: Doc| d@).to_multiset() == input@.map_values(|d: Doc| d@).to_multiset(),
        ranked_by(r@.map_values(|d: Doc| d@), metric),
{
    let mut rest = input;
    let mut out: Vec<Doc> = Vec::new();
    let ghost all = input@.map_values(|d: Doc| d@);
    proof {
        out@.map_values(|d: Doc| d@).to_multiset_ensures();
        rest@.map_values(|d: Doc| d@).to_multiset_ensures();
        assert(out@.map_values(|d: Doc| d@).to_multiset() =~= Multiset::<DocView>::empty());
        assert(Multiset::<DocView>::empty().add(rest@.map_values(|d: Doc| d@).to_multiset())
            =~= rest@.map_values(|d: Doc| d@).to_multiset());
    }
    while rest.len() > 0
        invariant
            out@.map_values(|d: Doc| d@).to_multiset().add(
                rest@.map_values(|d: Doc| d@).to_multiset(),
            ) == all.to_multiset(),
            ranked_by(out@.map_values(|d: Doc| d@), metric),
            forall|a: int, b: int|
                0 <= a < out@.len() && 0 <= b < rest@.len() ==> crate::score::rank_leq(
                    metric,
                    (#[trigger] out@[a])@.score as int,
                    (#[trigger] rest@[b])@.score as int,
                ),
        decreases rest@.len(),
    {
        let mut best: usize = 0;
        let m = rest.len();
        for i in 1..m
            invariant
                m == rest@.len(),
                best < i <= m,
                forall|j: int|
                    0 <= j < i ==> crate::score::rank_leq(
                        metric,
                        rest@[best as int]@.score as int,
                        (#[trigger] rest@[j])@.score as int,
                    ),
        {
            proof {
                assert(rest@.map_values(|d: Doc| d@)[i as int] == rest@[i as int]@);
                assert(rest@.map_values(|d: Doc| d@)[best as int] == rest@[best as int]@);
            }
            if rank_better(metric, rest[i].score(), rest[best].score()) {
                best = i;
            }
        }
        let ghost rpre = rest@.map_values(|d: Doc| d@);
        let ghost opre = out@.map_values(|d: Doc| d@);
        let chosen = rest.remove(best);
        out.push(chosen);
        proof {
            rpre.to_multiset_ensures();
            opre.to_multiset_ensures();
            assert(rest@.map_values(|d: Doc| d@) =~= rpre.remove(best as int));
            assert(out@.map_values(|d: Doc| d@) =~= opre.push(chosen@));
            assert(rpre.remove(best as int).to_multiset() =~= rpre.to_multiset().remove(
                rpre[best as int],
            ));
            assert(opre.push(chosen@).to_multiset() =~= opre.to_multiset().insert(chosen@));
            assert(chosen@ == rpre[best as int]);
            assert(opre.to_multiset().insert(chosen@).add(
                rpre.to_multiset().remove(rpre[best as int]),
            ) =~= opre.to_multiset().add(rpre.to_multiset()));
            assert forall|a: int, b: int|
                0 <= a < out@.len() && 0 <= b < rest@.len() implies crate::score::rank_leq(
                metric,
                (#[trigger] out@[a])@.score as int,
                (#[trigger] rest@[b])@.score as int,
            ) by {
                let b0 = if b < best {
                    b
                } else {
                    b + 1
                };
                assert(rest@[b]@ == rpre[b0]);
                if a < opre.len() {
                    assert(out@[a]@ == opre[a]);
                } else {
                    assert(out@[a]@ == chosen@);
                    assert(crate::score::rank_leq(
                        metric,
                        rpre[best as int].score as int,
                        rpre[b0].score as int,
                    ));
                }
            }
        }
    }
    proof {
        rest@.map_values(|d: Doc| d@).to_multiset_ensures();
        assert(rest@.map_values(|d: Doc| d@) =~= Seq::<DocView>::empty());
        assert(rest@.map_values(|d: Doc| d@).to_multiset() =~= Multiset::<DocView>::empty());
        assert(out@.map_values(|d: Doc| d@).to_multiset().add(Multiset::<DocView>::empty())
            =~= out@.map_values(|d: Doc| d@).to_multiset());
    }
    out
}

/// What a search promises: the error its outcome names, or ranked results —
/// at most `topk` of them, best match first, a prefix of some ranking of all
/// scored results.
pub open spec fn query_post(
    c: CollectionView,
    q: crate::query::VectorQueryView,
    r: Result<DocList>,
) -> bool {
    match query_outcome(c, q) {
        QueryOutcome::UnknownField => r matches Err(e) && e is FieldNotFound,
        QueryOutcome::NoTarget => r matches Err(e) && e is InvalidArgument,
        QueryOutcome::WrongKind => r matches Err(e) && e is InvalidArgument,
        QueryOutcome::WrongDim { expected, actual } => r matches Err(e) && (e matches Error::DimensionMismatch {
            expected: ee,
            actual: aa,
        } && ee as int == expected && aa as int == actual),
        QueryOutcome::BadFilter => r matches Err(e) && e is InvalidArgument,
        QueryOutcome::Ranked(metric, scored) => r matches Ok(list) && {
            &&& list@.len() == (if q.topk <= scored.len() {
                q.topk as int
            } else {
                scored.len() as int
            })
            &&& ranked_by(list@, metric)
            &&& exists|p: Seq<DocView>|
                {
                    &&& #[trigger] p.to_multiset() == scored.to_multiset()
                    &&& ranked_by(p, metric)
                    &&& list@ == p.take(list@.len() as int)
                }
        },
    }
}

} // verus!
