use zvec::{create_and_open, open, Collection, CollectionSchema, Doc, FieldSchema,
    GroupByVectorQuery, IndexParams, MetricType, QuantizeType, Storage, VectorQuery, VectorSchema};

fn create_collection(store: &mut Storage, path: &str) -> zvec::Result<Collection> {
    let mut schema = CollectionSchema::new("test");
    schema.add_field(VectorSchema::fp32("embedding", 4).into())?;
    create_and_open(store, path, schema)
}

#[test]
fn test_collection_create_and_insert() -> zvec::Result<()> {
    let mut store = Storage::new();
    let mut collection = create_collection(&mut store, "test_db")?;

    let mut doc = Doc::id("test_1");
    doc.set_vector("embedding", &[1, 2, 3, 4])?;

    let results = collection.insert(&[doc])?;
    assert_eq!(results.len(), 1);
    assert!(results.get(0).unwrap().is_ok());

    Ok(())
}

#[test]
fn test_collection_fetch() -> zvec::Result<()> {
    let mut store = Storage::new();
    let mut collection = create_collection(&mut store, "test_db")?;

    let mut doc = Doc::id("fetch_test");
    doc.set_vector("embedding", &[5, 5, 5, 5])?;
    collection.insert(&[doc])?;

    let fetched = collection.fetch(&["fetch_test"])?;
    assert_eq!(fetched.len(), 1);
    assert!(fetched.get("fetch_test").is_some());

    Ok(())
}

#[test]
fn test_collection_query() -> zvec::Result<()> {
    let mut store = Storage::new();
    let mut collection = create_collection(&mut store, "test_db")?;

    let mut doc1 = Doc::id("doc_1");
    doc1.set_vector("embedding", &[10, 0, 0, 0])?;

    let mut doc2 = Doc::id("doc_2");
    doc2.set_vector("embedding", &[0, 10, 0, 0])?;

    collection.insert(&[doc1, doc2])?;

    let query = VectorQuery::new("embedding")
        .topk(10)
        .include_vector(true)
        .vector(&[10, 0, 0, 0])?;

    let results = collection.query(query)?;

    assert!(!results.is_empty(), "Query should return results");

    let first = results.get(0).expect("Should have at least one result");
    // The best match is the identical vector, at squared distance zero.
    assert_eq!(first.pk(), "doc_1");
    assert_eq!(first.score(), 0);

    Ok(())
}

#[test]
fn test_collection_delete() -> zvec::Result<()> {
    let mut store = Storage::new();
    let mut collection = create_collection(&mut store, "test_db")?;

    let mut doc = Doc::id("delete_test");
    doc.set_vector("embedding", &[5, 5, 5, 5])?;

    collection.insert(&[doc])?;

    let fetched = collection.fetch(&["delete_test"])?;
    assert!(fetched.get("delete_test").is_some(), "Document should exist before delete");

    let results = collection.delete(&["delete_test"])?;
    assert_eq!(results.len(), 1);
    assert!(results.get(0).unwrap().is_ok(), "Delete operation should succeed");

    Ok(())
}

#[test]
fn test_collection_delete_absent_key_is_not_found() -> zvec::Result<()> {
    let mut store = Storage::new();
    let mut collection = create_collection(&mut store, "test_db")?;

    let results = collection.delete(&["never_inserted"])?;
    assert_eq!(results.len(), 1);
    assert!(matches!(results.get(0).unwrap(), Err(zvec::Error::NotFound(_))));

    Ok(())
}

#[test]
fn test_collection_upsert() -> zvec::Result<()> {
    let mut store = Storage::new();
    let mut collection = create_collection(&mut store, "test_db")?;

    let mut doc = Doc::id("upsert_test");
    doc.set_vector("embedding", &[10, 0, 0, 0])?;
    collection.insert(&[doc])?;

    let mut updated_doc = Doc::id("upsert_test");
    updated_doc.set_vector("embedding", &[0, 10, 0, 0])?;
    let results = collection.upsert(&[updated_doc])?;
    assert_eq!(results.len(), 1);
    assert!(results.get(0).unwrap().is_ok());

    Ok(())
}

#[test]
fn test_collection_update() -> zvec::Result<()> {
    let mut store = Storage::new();
    let mut collection = create_collection(&mut store, "test_db")?;

    let mut doc = Doc::id("update_test");
    doc.set_vector("embedding", &[10, 0, 0, 0])?;
    collection.insert(&[doc])?;

    let mut updated_doc = Doc::id("update_test");
    updated_doc.set_vector("embedding", &[5, 5, 5, 5])?;
    let results = collection.update(&[updated_doc])?;
    assert_eq!(results.len(), 1);

    Ok(())
}

#[test]
fn test_collection_update_missing_key_is_not_found() -> zvec::Result<()> {
    let mut store = Storage::new();
    let mut collection = create_collection(&mut store, "test_db")?;

    let mut doc = Doc::id("ghost");
    doc.set_vector("embedding", &[1, 2, 3, 4])?;
    let results = collection.update(&[doc])?;
    assert_eq!(results.len(), 1);
    assert!(matches!(results.get(0).unwrap(), Err(zvec::Error::NotFound(_))));

    Ok(())
}

#[test]
fn test_collection_scalar_fields() -> zvec::Result<()> {
    let mut store = Storage::new();
    let mut schema = CollectionSchema::new("test");
    schema.add_field(VectorSchema::fp32("embedding", 4).into())?;
    schema.add_field(FieldSchema::int64("count"))?;
    schema.add_field(FieldSchema::float("score"))?;
    let mut collection = create_and_open(&mut store, "test_db", schema)?;

    let mut doc = Doc::id("scalar_test");
    doc.set_vector("embedding", &[1, 2, 3, 4])?;
    doc.set_int64("count", 42)?;
    doc.set_float("score", 1.5f32.to_bits())?;
    collection.insert(&[doc])?;

    let fetched = collection.fetch(&["scalar_test"])?;
    let doc = fetched.get("scalar_test").expect("Document should exist");
    assert_eq!(doc.get_int64("count"), Some(42));
    assert!(doc.get_float("score").is_some());

    Ok(())
}

#[test]
fn test_collection_multiple_vectors() -> zvec::Result<()> {
    let mut store = Storage::new();
    let mut schema = CollectionSchema::new("test");
    schema.add_field(VectorSchema::fp32("embedding_a", 4).into())?;
    schema.add_field(VectorSchema::fp32("embedding_b", 4).into())?;
    let mut collection = create_and_open(&mut store, "test_db", schema)?;

    let mut doc = Doc::id("multi_vec");
    doc.set_vector("embedding_a", &[10, 0, 0, 0])?;
    doc.set_vector("embedding_b", &[0, 10, 0, 0])?;
    collection.insert(&[doc])?;

    let query = VectorQuery::new("embedding_a").topk(10).vector(&[10, 0, 0, 0])?;
    let results = collection.query(query)?;
    assert!(!results.is_empty());

    Ok(())
}

#[test]
fn test_collection_create_hnsw_index() -> zvec::Result<()> {
    let mut store = Storage::new();
    let mut collection = create_collection(&mut store, "test_db")?;

    let params = IndexParams::hnsw(16, 200, MetricType::L2, QuantizeType::Undefined);
    collection.create_index("embedding", params)?;

    Ok(())
}

#[test]
fn test_collection_create_flat_index() -> zvec::Result<()> {
    let mut store = Storage::new();
    let mut collection = create_collection(&mut store, "test_db")?;

    let params = IndexParams::flat(MetricType::L2, QuantizeType::Undefined);
    collection.create_index("embedding", params)?;

    Ok(())
}

#[test]
fn test_collection_ivf_index() -> zvec::Result<()> {
    let mut store = Storage::new();
    let mut collection = create_collection(&mut store, "test_db")?;

    let params = IndexParams::ivf(10, 10, false, MetricType::L2, QuantizeType::Undefined);
    collection.create_index("embedding", params)?;

    Ok(())
}

#[test]
fn test_collection_drop_index() -> zvec::Result<()> {
    let mut store = Storage::new();
    let mut collection = create_collection(&mut store, "test_db")?;

    let params = IndexParams::flat(MetricType::L2, QuantizeType::Undefined);
    collection.create_index("embedding", params)?;

    collection.drop_index("embedding")?;

    Ok(())
}

#[test]
fn test_drop_index_without_index_is_index_not_found() -> zvec::Result<()> {
    let mut store = Storage::new();
    let mut collection = create_collection(&mut store, "test_db")?;

    let result = collection.drop_index("embedding");
    assert!(matches!(result, Err(zvec::Error::IndexNotFound(_))));

    Ok(())
}

#[test]
fn test_create_index_twice_is_already_exists() -> zvec::Result<()> {
    let mut store = Storage::new();
    let mut collection = create_collection(&mut store, "test_db")?;

    collection.create_index("embedding", IndexParams::flat(MetricType::L2, QuantizeType::Undefined))?;
    let result = collection.create_index(
        "embedding",
        IndexParams::flat(MetricType::Cosine, QuantizeType::Undefined),
    );
    assert!(matches!(result, Err(zvec::Error::AlreadyExists(_))));

    Ok(())
}

#[test]
fn test_sparse_vector() -> zvec::Result<()> {
    let mut store = Storage::new();
    let mut schema = CollectionSchema::new("test");
    schema.add_field(VectorSchema::sparse_fp32_with_dim("sparse_embedding", 1000).into())?;
    let mut collection = create_and_open(&mut store, "test_db", schema)?;

    let mut doc = Doc::id("sparse_test");
    doc.set_sparse_vector("sparse_embedding", &[1, 5, 10], &[5, 3, 2])?;
    collection.insert(&[doc])?;

    let query = VectorQuery::new("sparse_embedding")
        .topk(10)
        .sparse_vector(&[1, 5, 10], &[5, 3, 2])?;
    let results = collection.query(query)?;
    assert!(!results.is_empty());

    Ok(())
}

#[test]
fn test_collection_group_by_query() -> zvec::Result<()> {
    let mut store = Storage::new();
    let mut schema = CollectionSchema::new("test");
    schema.add_field(VectorSchema::fp32("embedding", 4).into())?;
    schema.add_field(FieldSchema::string("category"))?;
    let mut collection = create_and_open(&mut store, "test_db", schema)?;

    let mut doc1 = Doc::id("doc_1");
    doc1.set_vector("embedding", &[10, 0, 0, 0])?;
    doc1.set_string("category", "cat_a")?;

    let mut doc2 = Doc::id("doc_2");
    doc2.set_vector("embedding", &[9, 1, 0, 0])?;
    doc2.set_string("category", "cat_a")?;

    let mut doc3 = Doc::id("doc_3");
    doc3.set_vector("embedding", &[0, 10, 0, 0])?;
    doc3.set_string("category", "cat_b")?;

    collection.insert(&[doc1, doc2, doc3])?;

    let query = GroupByVectorQuery::new("embedding")
        .group_by("category")
        .group_count(10)
        .group_topk(5)
        .vector(&[10, 0, 0, 0])?;

    let results = collection.group_by_query(query)?;
    assert!(!results.is_empty());

    Ok(())
}

#[test]
fn test_group_by_query_partitions_and_caps() -> zvec::Result<()> {
    let mut store = Storage::new();
    let mut schema = CollectionSchema::new("test");
    schema.add_field(VectorSchema::fp32("embedding", 2).into())?;
    schema.add_field(FieldSchema::string("category"))?;
    let mut collection = create_and_open(&mut store, "test_db", schema)?;

    let docs = vec![
        Doc::id("a1").with_vector("embedding", &[1, 0])?.with_string("category", "a")?,
        Doc::id("a2").with_vector("embedding", &[2, 0])?.with_string("category", "a")?,
        Doc::id("a3").with_vector("embedding", &[3, 0])?.with_string("category", "a")?,
        Doc::id("b1").with_vector("embedding", &[4, 0])?.with_string("category", "b")?,
        Doc::id("c1").with_vector("embedding", &[5, 0])?.with_string("category", "c")?,
    ];
    collection.insert(&docs)?;

    let query = GroupByVectorQuery::new("embedding")
        .group_by("category")
        .group_count(2)
        .group_topk(2)
        .vector(&[0, 0])?;

    let results = collection.group_by_query(query)?;
    // Only two groups fit, in rank order: "a" (best member at distance 1)
    // then "b".
    assert_eq!(results.len(), 2);
    let g0 = results.get(0).unwrap();
    assert_eq!(g0.group_by_value(), "a");
    // Each group holds at most two members, best first.
    assert_eq!(g0.docs().len(), 2);
    assert_eq!(g0.docs().get(0).unwrap().pk(), "a1");
    assert_eq!(g0.docs().get(1).unwrap().pk(), "a2");
    let g1 = results.get(1).unwrap();
    assert_eq!(g1.group_by_value(), "b");
    assert_eq!(g1.docs().len(), 1);

    Ok(())
}

#[test]
fn test_collection_delete_by_filter() -> zvec::Result<()> {
    let mut store = Storage::new();
    let mut schema = CollectionSchema::new("test");
    schema.add_field(VectorSchema::fp32("embedding", 4).into())?;
    schema.add_field(FieldSchema::string("status"))?;
    let mut collection = create_and_open(&mut store, "test_db", schema)?;

    let mut doc1 = Doc::id("doc_1");
    doc1.set_vector("embedding", &[1, 2, 3, 4])?;
    doc1.set_string("status", "active")?;

    let mut doc2 = Doc::id("doc_2");
    doc2.set_vector("embedding", &[5, 6, 7, 8])?;
    doc2.set_string("status", "inactive")?;

    collection.insert(&[doc1, doc2])?;

    collection.delete_by_filter("status = 'inactive'")?;

    Ok(())
}

#[test]
fn test_delete_by_filter_removes_exactly_the_matches() -> zvec::Result<()> {
    let mut store = Storage::new();
    let mut schema = CollectionSchema::new("test");
    schema.add_field(VectorSchema::fp32("embedding", 2).into())?;
    schema.add_field(FieldSchema::int64("count"))?;
    let mut collection = create_and_open(&mut store, "test_db", schema)?;

    let docs = vec![
        Doc::id("low").with_vector("embedding", &[1, 0])?.with_int64("count", 5)?,
        Doc::id("high").with_vector("embedding", &[2, 0])?.with_int64("count", 50)?,
    ];
    collection.insert(&docs)?;

    collection.delete_by_filter("count > 10")?;

    let fetched = collection.fetch(&["low", "high"])?;
    assert!(fetched.get("low").is_some());
    assert!(fetched.get("high").is_none());

    // A malformed filter deletes nothing and is rejected.
    let result = collection.delete_by_filter("count >");
    assert!(matches!(result, Err(zvec::Error::InvalidArgument(_))));
    assert!(collection.fetch(&["low"])?.get("low").is_some());

    Ok(())
}

#[test]
fn test_query_filter_narrows_results() -> zvec::Result<()> {
    let mut store = Storage::new();
    let mut schema = CollectionSchema::new("test");
    schema.add_field(VectorSchema::fp32("embedding", 2).into())?;
    schema.add_field(FieldSchema::string("status"))?;
    let mut collection = create_and_open(&mut store, "test_db", schema)?;

    let docs = vec![
        Doc::id("a").with_vector("embedding", &[1, 0])?.with_string("status", "active")?,
        Doc::id("b").with_vector("embedding", &[2, 0])?.with_string("status", "inactive")?,
    ];
    collection.insert(&docs)?;

    let query = VectorQuery::new("embedding").filter("status != 'inactive'").vector(&[0, 0])?;
    let results = collection.query(query)?;
    assert_eq!(results.len(), 1);
    assert_eq!(results.get(0).unwrap().pk(), "a");

    Ok(())
}

#[test]
fn test_query_errors() -> zvec::Result<()> {
    let mut store = Storage::new();
    let collection = create_collection(&mut store, "test_db")?;

    // Unknown field.
    let q = VectorQuery::new("nope").vector(&[1, 0, 0, 0])?;
    assert!(matches!(collection.query(q), Err(zvec::Error::FieldNotFound(_))));

    // No target set.
    let q = VectorQuery::new("embedding");
    assert!(matches!(collection.query(q), Err(zvec::Error::InvalidArgument(_))));

    // Dense target of the wrong length.
    let q = VectorQuery::new("embedding").vector(&[1, 0])?;
    match collection.query(q) {
        Err(zvec::Error::DimensionMismatch { expected, actual }) => {
            assert_eq!(expected, 4);
            assert_eq!(actual, 2);
        },
        _ => panic!("expected a dimension mismatch"),
    }

    // Malformed filter.
    let q = VectorQuery::new("embedding").filter("nonsense").vector(&[1, 0, 0, 0])?;
    assert!(matches!(collection.query(q), Err(zvec::Error::InvalidArgument(_))));

    Ok(())
}

#[test]
fn test_query_topk_bounds_and_order() -> zvec::Result<()> {
    let mut store = Storage::new();
    let mut schema = CollectionSchema::new("test");
    schema.add_field(VectorSchema::fp32("embedding", 2).into())?;
    let mut collection = create_and_open(&mut store, "test_db", schema)?;

    let docs = vec![
        Doc::id("far").with_vector("embedding", &[9, 0])?,
        Doc::id("near").with_vector("embedding", &[1, 0])?,
        Doc::id("mid").with_vector("embedding", &[5, 0])?,
    ];
    collection.insert(&docs)?;

    let query = VectorQuery::new("embedding").topk(2).vector(&[0, 0])?;
    let results = collection.query(query)?;
    // At most topk results, smallest distance first.
    assert_eq!(results.len(), 2);
    assert_eq!(results.get(0).unwrap().pk(), "near");
    assert_eq!(results.get(0).unwrap().score(), 1);
    assert_eq!(results.get(1).unwrap().pk(), "mid");
    assert_eq!(results.get(1).unwrap().score(), 25);

    Ok(())
}

#[test]
fn test_query_similarity_metric_ranks_largest_first() -> zvec::Result<()> {
    let mut store = Storage::new();
    let mut schema = CollectionSchema::new("test");
    schema.add_field(VectorSchema::fp32("embedding", 2).into())?;
    let mut collection = create_and_open(&mut store, "test_db", schema)?;

    collection.create_index(
        "embedding",
        IndexParams::flat(MetricType::Ip, QuantizeType::Undefined),
    )?;

    let docs = vec![
        Doc::id("weak").with_vector("embedding", &[1, 0])?,
        Doc::id("strong").with_vector("embedding", &[7, 0])?,
    ];
    collection.insert(&docs)?;

    let query = VectorQuery::new("embedding").topk(10).vector(&[2, 0])?;
    let results = collection.query(query)?;
    // Largest inner product first.
    assert_eq!(results.get(0).unwrap().pk(), "strong");
    assert_eq!(results.get(0).unwrap().score(), 14);
    assert_eq!(results.get(1).unwrap().pk(), "weak");
    assert_eq!(results.get(1).unwrap().score(), 2);

    Ok(())
}

#[test]
fn test_insert_duplicate_key_statuses_in_order() -> zvec::Result<()> {
    let mut store = Storage::new();
    let mut collection = create_collection(&mut store, "test_db")?;

    let docs = vec![
        Doc::id("k1").with_vector("embedding", &[1, 0, 0, 0])?,
        Doc::id("k1").with_vector("embedding", &[2, 0, 0, 0])?,
        Doc::id("k2").with_vector("embedding", &[3, 0, 0, 0])?,
    ];
    let results = collection.insert(&docs)?;
    // One status per document, in input order: the duplicate fails at its
    // position while the unrelated sibling still succeeds.
    assert_eq!(results.len(), 3);
    assert!(results.get(0).unwrap().is_ok());
    assert!(matches!(results.get(1).unwrap(), Err(zvec::Error::AlreadyExists(_))));
    assert!(results.get(2).unwrap().is_ok());

    Ok(())
}

#[test]
fn test_insert_schema_mismatch_is_invalid_argument() -> zvec::Result<()> {
    let mut store = Storage::new();
    let mut collection = create_collection(&mut store, "test_db")?;

    // A dense vector of the wrong dimension does not fit the schema.
    let bad = Doc::id("bad").with_vector("embedding", &[1, 0])?;
    // A field the schema does not declare does not fit either.
    let unknown = Doc::id("unknown").with_int64("count", 1)?;
    let results = collection.insert(&[bad, unknown])?;
    assert!(matches!(results.get(0).unwrap(), Err(zvec::Error::InvalidArgument(_))));
    assert!(matches!(results.get(1).unwrap(), Err(zvec::Error::InvalidArgument(_))));

    Ok(())
}

#[test]
fn test_scenario_nearest_neighbour() -> zvec::Result<()> {
    let mut store = Storage::new();
    let mut schema = CollectionSchema::new("test");
    schema.add_field(VectorSchema::fp32("embedding", 4).into())?;
    let mut collection = create_and_open(&mut store, "test_db", schema)?;

    let doc1 = Doc::id("doc_1").with_vector("embedding", &[1, 0, 0, 0])?;
    let doc2 = Doc::id("doc_2").with_vector("embedding", &[0, 1, 0, 0])?;
    collection.insert(&[doc1, doc2])?;

    let query = VectorQuery::new("embedding").topk(1).vector(&[1, 0, 0, 0])?;
    let results = collection.query(query)?;
    assert_eq!(results.len(), 1);
    assert_eq!(results.get(0).unwrap().pk(), "doc_1");

    Ok(())
}

#[test]
fn test_scenario_update_then_fetch() -> zvec::Result<()> {
    let mut store = Storage::new();
    let mut schema = CollectionSchema::new("test");
    schema.add_field(VectorSchema::fp32("embedding", 4).into())?;
    schema.add_field(FieldSchema::int64("count"))?;
    let mut collection = create_and_open(&mut store, "test_db", schema)?;

    let doc = Doc::id("doc_1").with_vector("embedding", &[1, 0, 0, 0])?.with_int64("count", 1)?;
    collection.insert(&[doc])?;

    let updated = Doc::id("doc_1").with_vector("embedding", &[1, 0, 0, 0])?.with_int64(
        "count",
        100,
    )?;
    let results = collection.update(&[updated])?;
    assert!(results.get(0).unwrap().is_ok());

    let fetched = collection.fetch(&["doc_1"])?;
    let doc = fetched.get("doc_1").expect("doc_1 should exist");
    assert_eq!(doc.get_int64("count"), Some(100));

    Ok(())
}

#[test]
fn test_scenario_round_trip_each_scalar_kind() -> zvec::Result<()> {
    let mut store = Storage::new();
    let mut schema = CollectionSchema::new("test");
    schema.add_field(FieldSchema::bool_("b"))?;
    schema.add_field(FieldSchema::int32("i32"))?;
    schema.add_field(FieldSchema::int64("i64"))?;
    schema.add_field(FieldSchema::float("f"))?;
    schema.add_field(FieldSchema::double("d"))?;
    schema.add_field(FieldSchema::string("s"))?;
    let mut collection = create_and_open(&mut store, "test_db", schema)?;

    let mut doc = Doc::id("k");
    doc.set_bool("b", true)?;
    doc.set_int32("i32", -5)?;
    doc.set_int64("i64", 77)?;
    doc.set_float("f", 1.25f32.to_bits())?;
    doc.set_double("d", 2.75f64.to_bits())?;
    doc.set_string("s", "value")?;
    let results = collection.insert(&[doc])?;
    assert!(results.get(0).unwrap().is_ok());

    let fetched = collection.fetch(&["k"])?;
    let doc = fetched.get("k").expect("k should exist");
    assert_eq!(doc.get_int64("i64"), Some(77));
    assert_eq!(doc.get_float("f"), Some(1.25f32.to_bits()));
    assert_eq!(doc.get_string("s"), Some("value"));

    Ok(())
}

#[test]
fn test_collection_path() -> zvec::Result<()> {
    let mut store = Storage::new();
    let collection = create_collection(&mut store, "test_db")?;

    let path_result = collection.path()?;
    assert!(path_result.contains("test_db"));

    Ok(())
}

#[test]
fn test_collection_open() -> zvec::Result<()> {
    let mut store = Storage::new();
    let collection = create_collection(&mut store, "test_db")?;
    collection.flush(&mut store)?;
    drop(collection);

    let reopened = open(&store, "test_db")?;
    assert!(reopened.path()?.contains("test_db"));

    Ok(())
}

#[test]
fn test_flush_persists_writes_across_reopen() -> zvec::Result<()> {
    let mut store = Storage::new();
    let mut collection = create_collection(&mut store, "test_db")?;

    let doc = Doc::id("kept").with_vector("embedding", &[1, 2, 3, 4])?;
    collection.insert(&[doc])?;
    collection.flush(&mut store)?;
    drop(collection);

    let reopened = open(&store, "test_db")?;
    let fetched = reopened.fetch(&["kept"])?;
    assert!(fetched.get("kept").is_some());

    Ok(())
}

#[test]
fn test_collection_optimize() -> zvec::Result<()> {
    let mut store = Storage::new();
    let collection = create_collection(&mut store, "test_db")?;

    collection.optimize()?;

    Ok(())
}

#[test]
fn test_collection_destroy() -> zvec::Result<()> {
    let mut store = Storage::new();
    let collection = create_collection(&mut store, "test_db")?;

    collection.destroy(&mut store)?;

    Ok(())
}

#[test]
fn test_destroy_then_open_fails() -> zvec::Result<()> {
    let mut store = Storage::new();
    let collection = create_collection(&mut store, "test_db")?;
    collection.destroy(&mut store)?;

    let result = open(&store, "test_db");
    assert!(matches!(result, Err(zvec::Error::CollectionNotFound(_))));

    Ok(())
}

#[test]
fn test_create_and_open_conflicts() -> zvec::Result<()> {
    let mut store = Storage::new();
    let _first = create_collection(&mut store, "test_db")?;

    let schema = CollectionSchema::new("test");
    let result = create_and_open(&mut store, "test_db", schema);
    assert!(matches!(result, Err(zvec::Error::AlreadyExists(_))));

    let schema = CollectionSchema::new("test");
    let result = create_and_open(&mut store, "", schema);
    assert!(matches!(result, Err(zvec::Error::InvalidArgument(_))));

    Ok(())
}

#[test]
fn test_write_results_iteration() -> zvec::Result<()> {
    let mut store = Storage::new();
    let mut collection = create_collection(&mut store, "test_db")?;

    let mut doc1 = Doc::id("doc_1");
    doc1.set_vector("embedding", &[1, 2, 3, 4])?;

    let mut doc2 = Doc::id("doc_2");
    doc2.set_vector("embedding", &[5, 6, 7, 8])?;

    let results = collection.insert(&[doc1, doc2])?;
    assert_eq!(results.len(), 2);

    let mut count = 0;
    let mut it = results.iter();
    while let Some(result) = it.next() {
        assert!(result.is_ok());
        count += 1;
    }
    assert_eq!(count, 2);

    Ok(())
}

#[test]
fn test_doc_list_iteration() -> zvec::Result<()> {
    let mut store = Storage::new();
    let mut collection = create_collection(&mut store, "test_db")?;

    let mut doc1 = Doc::id("doc_1");
    doc1.set_vector("embedding", &[10, 0, 0, 0])?;

    let mut doc2 = Doc::id("doc_2");
    doc2.set_vector("embedding", &[0, 10, 0, 0])?;

    collection.insert(&[doc1, doc2])?;

    let query = VectorQuery::new("embedding").topk(10).vector(&[10, 0, 0, 0])?;

    let results = collection.query(query)?;
    assert!(!results.is_empty());

    let mut count = 0;
    let mut it = results.iter();
    while let Some(doc) = it.next() {
        assert!(!doc.pk().is_empty() || doc.score() >= 0);
        count += 1;
    }
    assert!(count > 0);

    Ok(())
}

#[test]
fn test_doc_map_iteration() -> zvec::Result<()> {
    let mut store = Storage::new();
    let mut collection = create_collection(&mut store, "test_db")?;

    let mut doc1 = Doc::id("doc_1");
    doc1.set_vector("embedding", &[1, 2, 3, 4])?;

    let mut doc2 = Doc::id("doc_2");
    doc2.set_vector("embedding", &[5, 6, 7, 8])?;

    collection.insert(&[doc1, doc2])?;

    let fetched = collection.fetch(&["doc_1", "doc_2"])?;
    assert_eq!(fetched.len(), 2);

    let keys = fetched.keys();
    for key in keys {
        let doc = fetched.get(key.as_str());
        if let Some(doc) = doc {
            let _ = doc.pk();
        }
    }

    assert!(fetched.get("nonexistent").is_none());

    Ok(())
}

#[test]
fn test_doc_ref_getters() -> zvec::Result<()> {
    let mut store = Storage::new();
    let mut schema = CollectionSchema::new("test");
    schema.add_field(VectorSchema::fp32("embedding", 4).into())?;
    schema.add_field(FieldSchema::int64("count"))?;
    schema.add_field(FieldSchema::float("score"))?;
    let mut collection = create_and_open(&mut store, "test_db", schema)?;

    let mut doc = Doc::id("test_doc");
    doc.set_vector("embedding", &[1, 2, 3, 4])?;
    doc.set_int64("count", 42)?;
    doc.set_float("score", 1.5f32.to_bits())?;
    collection.insert(&[doc])?;

    let fetched = collection.fetch(&["test_doc"])?;
    let doc = fetched.get("test_doc").expect("Document should exist");

    assert_eq!(doc.get_int64("count"), Some(42));
    assert_eq!(doc.get_float("score"), Some(1.5f32.to_bits()));

    let vec = doc.get_vector("embedding").expect("Should have vector");
    assert_eq!(vec.len(), 4);

    assert!(doc.get_string("nonexistent").is_none());
    assert!(doc.get_int64("nonexistent").is_none());
    assert!(doc.get_float("nonexistent").is_none());
    assert!(doc.get_vector("nonexistent").is_none());

    Ok(())
}

#[test]
fn test_doc_ref_doc_id_and_score() -> zvec::Result<()> {
    let mut store = Storage::new();
    let mut collection = create_collection(&mut store, "test_db")?;

    let mut doc = Doc::id("test_doc");
    doc.set_vector("embedding", &[10, 0, 0, 0])?;
    collection.insert(&[doc])?;

    let query = VectorQuery::new("embedding")
        .topk(10)
        .include_doc_id(true)
        .vector(&[10, 0, 0, 0])?;

    let results = collection.query(query)?;
    let first = results.get(0).expect("Should have result");

    let _score = first.score();
    let _doc_id = first.doc_id();

    Ok(())
}

#[test]
fn test_doc_get_all_types() -> zvec::Result<()> {
    let mut store = Storage::new();
    let mut schema = CollectionSchema::new("test");
    schema.add_field(VectorSchema::fp32("embedding", 4).into())?;
    schema.add_field(FieldSchema::bool_("bool_field"))?;
    schema.add_field(FieldSchema::int32("int32_field"))?;
    schema.add_field(FieldSchema::int64("int64_field"))?;
    schema.add_field(FieldSchema::float("float_field"))?;
    schema.add_field(FieldSchema::double("double_field"))?;
    schema.add_field(FieldSchema::string("string_field"))?;
    let mut collection = create_and_open(&mut store, "test_db", schema)?;

    let mut doc = Doc::id("test_doc");
    doc.set_vector("embedding", &[1, 2, 3, 4])?;
    doc.set_bool("bool_field", true)?;
    doc.set_int32("int32_field", 123)?;
    doc.set_int64("int64_field", 456)?;
    doc.set_float("float_field", 1.5f32.to_bits())?;
    doc.set_double("double_field", 2.5f64.to_bits())?;
    doc.set_string("string_field", "hello")?;
    collection.insert(&[doc])?;

    let fetched = collection.fetch(&["test_doc"])?;
    let doc = fetched.get("test_doc").expect("Document should exist");

    assert_eq!(doc.get_int64("int64_field"), Some(456));
    assert_eq!(doc.get_float("float_field"), Some(1.5f32.to_bits()));
    let _ = doc.get_string("string_field");

    assert!(doc.get_int64("nonexistent").is_none());
    assert!(doc.get_float("nonexistent").is_none());
    assert!(doc.get_string("nonexistent").is_none());

    Ok(())
}

#[test]
fn test_doc_list_len_and_is_empty() -> zvec::Result<()> {
    let mut store = Storage::new();
    let mut collection = create_collection(&mut store, "test_db")?;

    let mut doc = Doc::id("test_doc");
    doc.set_vector("embedding", &[1, 2, 3, 4])?;
    collection.insert(&[doc])?;

    let query = VectorQuery::new("embedding").topk(10).vector(&[1, 2, 3, 4])?;

    let results = collection.query(query)?;
    assert!(!results.is_empty());
    assert!(!results.is_empty());

    Ok(())
}

#[test]
fn test_doc_map_is_empty() -> zvec::Result<()> {
    let mut store = Storage::new();
    let mut collection = create_collection(&mut store, "test_db")?;

    let mut doc = Doc::id("test_doc");
    doc.set_vector("embedding", &[1, 2, 3, 4])?;
    collection.insert(&[doc])?;

    let fetched = collection.fetch(&["test_doc"])?;
    assert!(!fetched.is_empty());
    assert_eq!(fetched.len(), 1);

    Ok(())
}

#[test]
fn test_write_results_get_out_of_bounds() -> zvec::Result<()> {
    let mut store = Storage::new();
    let mut collection = create_collection(&mut store, "test_db")?;

    let mut doc = Doc::id("test_doc");
    doc.set_vector("embedding", &[1, 2, 3, 4])?;
    let results = collection.insert(&[doc])?;

    assert!(results.get(100).is_none());

    Ok(())
}

#[test]
fn test_list_registered_metrics() {
    let metrics = zvec::list_registered_metrics();
    assert!(!metrics.is_empty());
    assert!(metrics.contains(&"L2".to_string()) || metrics.contains(&"Euclidean".to_string()));
}

#[test]
fn test_query_projection_and_vector_payload() -> zvec::Result<()> {
    let mut store = Storage::new();
    let mut schema = CollectionSchema::new("test");
    schema.add_field(VectorSchema::fp32("embedding", 2).into())?;
    schema.add_field(FieldSchema::string("name"))?;
    schema.add_field(FieldSchema::int64("count"))?;
    let mut collection = create_and_open(&mut store, "test_db", schema)?;

    let doc = Doc::id("k")
        .with_vector("embedding", &[1, 2])?
        .with_string("name", "n")?
        .with_int64("count", 3)?;
    collection.insert(&[doc])?;

    // Vectors stay out of results unless asked for.
    let q = VectorQuery::new("embedding").vector(&[0, 0])?;
    let results = collection.query(q)?;
    let first = results.get(0).unwrap();
    assert!(first.get_vector("embedding").is_none());
    assert_eq!(first.get_int64("count"), Some(3));

    // Asked for, they come back; a non-empty allow-list keeps only the named
    // fields.
    let q = VectorQuery::new("embedding").include_vector(true).output_fields(&["embedding"]).vector(
        &[0, 0],
    )?;
    let results = collection.query(q)?;
    let first = results.get(0).unwrap();
    assert_eq!(first.get_vector("embedding"), Some(vec![1, 2]));
    assert_eq!(first.get_int64("count"), None);

    Ok(())
}

#[test]
fn test_collection_options() {
    let opts = zvec::CollectionOptions::new().read_only(true).enable_mmap(true);
    drop(opts);
    let opts = zvec::CollectionOptions::default();
    drop(opts);
}

#[test]
fn test_sparse_score_exact() -> zvec::Result<()> {
    let mut store = Storage::new();
    let mut schema = CollectionSchema::new("test");
    schema.add_field(VectorSchema::sparse_fp32("sparse_embedding").into())?;
    let mut collection = create_and_open(&mut store, "test_db", schema)?;

    let doc = Doc::id("s1");
    let mut doc = doc;
    doc.set_sparse_vector("sparse_embedding", &[1, 5, 10], &[5, 3, 2])?;
    collection.insert(&[doc])?;

    // The sparse dot product over matching indices: 5*5 + 3*3 + 2*2, with
    // index 7 matching nothing.
    let query = VectorQuery::new("sparse_embedding")
        .topk(1)
        .sparse_vector(&[1, 5, 10, 7], &[5, 3, 2, 9])?;
    let results = collection.query(query)?;
    assert_eq!(results.len(), 1);
    assert_eq!(results.get(0).unwrap().score(), 38);

    Ok(())
}

#[test]
fn test_null_fits_only_nullable_schema_fields() -> zvec::Result<()> {
    let mut store = Storage::new();
    let mut schema = CollectionSchema::new("test");
    let mut strict = FieldSchema::int64("strict");
    strict.set_nullable(false);
    schema.add_field(strict)?;
    let mut loose = FieldSchema::int64("loose");
    loose.set_nullable(true);
    schema.add_field(loose)?;
    let mut collection = create_and_open(&mut store, "test_db", schema)?;

    let mut ok_doc = Doc::id("ok");
    ok_doc.set_value("loose", zvec::doc::FieldValue::Null)?;
    let mut bad_doc = Doc::id("bad");
    bad_doc.set_value("strict", zvec::doc::FieldValue::Null)?;

    let results = collection.insert(&[ok_doc, bad_doc])?;
    assert!(results.get(0).unwrap().is_ok());
    assert!(matches!(results.get(1).unwrap(), Err(zvec::Error::InvalidArgument(_))));

    Ok(())
}

#[test]
fn test_cosine_index_ranks_as_similarity() -> zvec::Result<()> {
    let mut store = Storage::new();
    let mut schema = CollectionSchema::new("test");
    schema.add_field(VectorSchema::fp32("embedding", 2).into())?;
    let mut collection = create_and_open(&mut store, "test_db", schema)?;

    collection.create_index(
        "embedding",
        IndexParams::flat(MetricType::Cosine, QuantizeType::Undefined),
    )?;

    let docs = vec![
        Doc::id("low").with_vector("embedding", &[1, 1])?,
        Doc::id("high").with_vector("embedding", &[3, 3])?,
    ];
    collection.insert(&docs)?;

    let query = VectorQuery::new("embedding").vector(&[1, 1])?;
    let results = collection.query(query)?;
    // A cosine-style metric ranks the largest similarity first.
    assert_eq!(results.get(0).unwrap().pk(), "high");
    assert_eq!(results.get(0).unwrap().score(), 6);
    assert_eq!(results.get(1).unwrap().score(), 2);

    Ok(())
}

#[test]
fn test_flush_after_destroy_is_collection_not_found() -> zvec::Result<()> {
    let mut store = Storage::new();
    let first = create_collection(&mut store, "test_db")?;
    let second = open(&store, "test_db")?;
    first.destroy(&mut store)?;

    let result = second.flush(&mut store);
    assert!(matches!(result, Err(zvec::Error::CollectionNotFound(_))));

    Ok(())
}

#[test]
fn test_filter_boolean_literal() -> zvec::Result<()> {
    let mut store = Storage::new();
    let mut schema = CollectionSchema::new("test");
    schema.add_field(VectorSchema::fp32("embedding", 2).into())?;
    schema.add_field(FieldSchema::bool_("done"))?;
    let mut collection = create_and_open(&mut store, "test_db", schema)?;

    let docs = vec![
        Doc::id("open_item").with_vector("embedding", &[1, 0])?,
        Doc::id("closed_item").with_vector("embedding", &[2, 0])?,
    ];
    let mut docs = docs;
    docs[0].set_bool("done", false)?;
    docs[1].set_bool("done", true)?;
    collection.insert(&docs)?;

    let query = VectorQuery::new("embedding").filter("done != true").vector(&[0, 0])?;
    let results = collection.query(query)?;
    assert_eq!(results.len(), 1);
    assert_eq!(results.get(0).unwrap().pk(), "open_item");

    Ok(())
}

#[test]
fn test_fetch_repeated_keys_yield_one_entry() -> zvec::Result<()> {
    let mut store = Storage::new();
    let mut collection = create_collection(&mut store, "test_db")?;

    let doc = Doc::id("only").with_vector("embedding", &[1, 2, 3, 4])?;
    collection.insert(&[doc])?;

    // The result is a map indexed by primary key: repeats collapse.
    let fetched = collection.fetch(&["only", "only", "missing", "only"])?;
    assert_eq!(fetched.len(), 1);
    assert_eq!(fetched.keys().len(), 1);
    assert!(fetched.get("only").is_some());

    Ok(())
}

#[test]
fn test_delete_ok_means_key_gone() -> zvec::Result<()> {
    let mut store = Storage::new();
    let mut collection = create_collection(&mut store, "test_db")?;

    let doc = Doc::id("gone").with_vector("embedding", &[1, 2, 3, 4])?;
    collection.insert(&[doc])?;

    let results = collection.delete(&["gone"])?;
    assert!(results.get(0).unwrap().is_ok());
    assert!(collection.fetch(&["gone"])?.is_empty());

    Ok(())
}
