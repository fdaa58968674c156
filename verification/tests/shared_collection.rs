use zvec::{create_and_open, create_and_open_shared, open_shared, CollectionSchema, Doc,
    SharedCollection, Storage, VectorQuery, VectorSchema};

fn create_shared_collection(store: &mut Storage, path: &str) -> zvec::Result<SharedCollection> {
    let mut schema = CollectionSchema::new("test");
    schema.add_field(VectorSchema::fp32("embedding", 4).into())?;
    create_and_open_shared(store, path, schema)
}

#[test]
fn test_shared_collection_clone() -> zvec::Result<()> {
    let mut store = Storage::new();
    let collection = create_shared_collection(&mut store, "test_db")?;

    let c2 = collection.clone();
    let c3 = collection.clone();

    // All clones share the same underlying collection.
    assert_eq!(collection.path()?, c2.path()?);
    assert_eq!(collection.path()?, c3.path()?);

    Ok(())
}

#[test]
fn test_shared_collection_from_collection() -> zvec::Result<()> {
    let mut store = Storage::new();
    let mut schema = CollectionSchema::new("test");
    schema.add_field(VectorSchema::fp32("embedding", 4).into())?;
    let collection = create_and_open(&mut store, "test_db", schema)?;

    let shared = SharedCollection::new(collection);

    let _ = shared.path()?;

    Ok(())
}

#[test]
fn test_shared_collection_fetch() -> zvec::Result<()> {
    let mut store = Storage::new();
    let collection = create_shared_collection(&mut store, "test_db")?;

    let mut doc = Doc::id("test_doc");
    doc.set_vector("embedding", &[1, 2, 3, 4])?;
    collection.insert(&[doc])?;

    let fetched = collection.fetch(&["test_doc"])?;
    assert_eq!(fetched.len(), 1);

    Ok(())
}

#[test]
fn test_shared_collection_open() -> zvec::Result<()> {
    let mut store = Storage::new();
    let collection = create_shared_collection(&mut store, "test_db")?;
    collection.flush(&mut store)?;
    drop(collection);

    let reopened = open_shared(&store, "test_db")?;
    assert!(reopened.path()?.contains("test_db"));

    Ok(())
}

#[test]
fn test_shared_collection_all_operations() -> zvec::Result<()> {
    let mut store = Storage::new();
    let collection = create_shared_collection(&mut store, "test_db")?;

    // Insert
    let mut doc = Doc::id("doc_1");
    doc.set_vector("embedding", &[10, 0, 0, 0])?;
    collection.insert(&[doc])?;

    // Upsert
    let mut doc = Doc::id("doc_2");
    doc.set_vector("embedding", &[0, 10, 0, 0])?;
    collection.upsert(&[doc])?;

    // Update
    let mut doc = Doc::id("doc_1");
    doc.set_vector("embedding", &[5, 5, 0, 0])?;
    collection.update(&[doc])?;

    // Query
    let query = VectorQuery::new("embedding").topk(10).vector(&[10, 0, 0, 0])?;
    let results = collection.query(query)?;
    assert!(!results.is_empty());

    // Fetch
    let fetched = collection.fetch(&["doc_1"])?;
    assert_eq!(fetched.len(), 1);

    // Create index
    let params = zvec::IndexParams::flat(zvec::MetricType::L2, zvec::QuantizeType::Undefined);
    collection.create_index("embedding", params)?;

    // Optimize
    collection.optimize()?;

    // Flush
    collection.flush(&mut store)?;

    // Delete
    collection.delete(&["doc_2"])?;

    // Destroy
    collection.destroy(&mut store)?;

    Ok(())
}

#[test]
fn test_shared_collection_group_by_and_filters() -> zvec::Result<()> {
    let mut store = Storage::new();
    let mut schema = CollectionSchema::new("test");
    schema.add_field(VectorSchema::fp32("embedding", 2).into())?;
    schema.add_field(zvec::FieldSchema::string("category"))?;
    let collection = create_and_open_shared(&mut store, "test_db", schema)?;

    let docs = vec![
        Doc::id("a1").with_vector("embedding", &[1, 0])?.with_string("category", "a")?,
        Doc::id("b1").with_vector("embedding", &[2, 0])?.with_string("category", "b")?,
    ];
    collection.insert(&docs)?;

    let gq = zvec::GroupByVectorQuery::new("embedding").group_by("category").vector(&[0, 0])?;
    let groups = collection.group_by_query(gq)?;
    assert_eq!(groups.len(), 2);
    let mut it = groups.iter();
    let first = it.next().unwrap();
    assert_eq!(first.group_by_value(), "a");
    assert_eq!(first.docs().len(), 1);

    collection.delete_by_filter("category = 'b'")?;
    assert!(collection.fetch(&["b1"])?.is_empty());

    Ok(())
}

#[test]
fn test_shared_destroy_refused_while_shared() -> zvec::Result<()> {
    let mut store = Storage::new();
    let collection = create_shared_collection(&mut store, "test_db")?;
    let other = collection.clone();

    // Two owners: destroying fails and leaves storage intact.
    let result = collection.destroy(&mut store);
    assert!(matches!(result, Err(zvec::Error::InvalidArgument(_))));
    assert!(zvec::open(&store, "test_db").is_ok());

    // Down to the sole owner, destroying succeeds, and the path is gone.
    other.destroy(&mut store)?;
    let result = zvec::open(&store, "test_db");
    assert!(matches!(result, Err(zvec::Error::CollectionNotFound(_))));

    Ok(())
}

#[test]
fn test_shared_collection_drop_index_error() -> zvec::Result<()> {
    let mut store = Storage::new();
    let collection = create_shared_collection(&mut store, "test_db")?;

    let result = collection.drop_index("embedding");
    assert!(matches!(result, Err(zvec::Error::IndexNotFound(_))));

    Ok(())
}
