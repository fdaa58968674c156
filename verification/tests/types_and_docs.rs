use zvec::{DataType, Doc, FieldSchema, IndexParams, IndexType, MetricType, QuantizeType,
    VectorQuery, GroupByVectorQuery, VectorSchema, CollectionSchema};

#[test]
fn test_data_type_all_variants() {
    assert!(matches!(DataType::Undefined, DataType::Undefined));
    assert!(matches!(DataType::Binary, DataType::Binary));
    assert!(matches!(DataType::String, DataType::String));
    assert!(matches!(DataType::Bool, DataType::Bool));
    assert!(matches!(DataType::Int32, DataType::Int32));
    assert!(matches!(DataType::Int64, DataType::Int64));
    assert!(matches!(DataType::UInt32, DataType::UInt32));
    assert!(matches!(DataType::UInt64, DataType::UInt64));
    assert!(matches!(DataType::Float, DataType::Float));
    assert!(matches!(DataType::Double, DataType::Double));
    assert!(matches!(DataType::VectorBinary32, DataType::VectorBinary32));
    assert!(matches!(DataType::VectorBinary64, DataType::VectorBinary64));
    assert!(matches!(DataType::VectorFp16, DataType::VectorFp16));
    assert!(matches!(DataType::VectorFp32, DataType::VectorFp32));
    assert!(matches!(DataType::VectorFp64, DataType::VectorFp64));
    assert!(matches!(DataType::VectorInt4, DataType::VectorInt4));
    assert!(matches!(DataType::VectorInt8, DataType::VectorInt8));
    assert!(matches!(DataType::VectorInt16, DataType::VectorInt16));
    assert!(matches!(DataType::SparseVectorFp16, DataType::SparseVectorFp16));
    assert!(matches!(DataType::SparseVectorFp32, DataType::SparseVectorFp32));
    assert!(matches!(DataType::ArrayBinary, DataType::ArrayBinary));
    assert!(matches!(DataType::ArrayString, DataType::ArrayString));
    assert!(matches!(DataType::ArrayBool, DataType::ArrayBool));
    assert!(matches!(DataType::ArrayInt32, DataType::ArrayInt32));
    assert!(matches!(DataType::ArrayInt64, DataType::ArrayInt64));
    assert!(matches!(DataType::ArrayUInt32, DataType::ArrayUInt32));
    assert!(matches!(DataType::ArrayUInt64, DataType::ArrayUInt64));
    assert!(matches!(DataType::ArrayFloat, DataType::ArrayFloat));
    assert!(matches!(DataType::ArrayDouble, DataType::ArrayDouble));
}

#[test]
fn test_metric_type_all_variants() {
    assert!(matches!(MetricType::Undefined, MetricType::Undefined));
    assert!(matches!(MetricType::L2, MetricType::L2));
    assert!(matches!(MetricType::Ip, MetricType::Ip));
    assert!(matches!(MetricType::Cosine, MetricType::Cosine));
    assert!(matches!(MetricType::MipsL2, MetricType::MipsL2));
}

#[test]
fn test_quantize_type_all_variants() {
    assert!(matches!(QuantizeType::Undefined, QuantizeType::Undefined));
    assert!(matches!(QuantizeType::Fp16, QuantizeType::Fp16));
    assert!(matches!(QuantizeType::Int8, QuantizeType::Int8));
    assert!(matches!(QuantizeType::Int4, QuantizeType::Int4));
}

#[test]
fn test_index_type_all_variants() {
    assert!(matches!(IndexType::Undefined, IndexType::Undefined));
    assert!(matches!(IndexType::Hnsw, IndexType::Hnsw));
    assert!(matches!(IndexType::Ivf, IndexType::Ivf));
    assert!(matches!(IndexType::Flat, IndexType::Flat));
    assert!(matches!(IndexType::Invert, IndexType::Invert));
}

#[test]
fn test_data_type_is_vector() {
    assert!(DataType::VectorFp32.is_vector());
    assert!(DataType::VectorFp16.is_vector());
    assert!(DataType::SparseVectorFp32.is_vector());
    assert!(!DataType::String.is_vector());
    assert!(!DataType::Int64.is_vector());
}

#[test]
fn test_data_type_is_sparse() {
    assert!(DataType::SparseVectorFp32.is_sparse_vector());
    assert!(DataType::SparseVectorFp16.is_sparse_vector());
    assert!(!DataType::VectorFp32.is_sparse_vector());
    assert!(!DataType::String.is_sparse_vector());
}

#[test]
fn test_data_type_is_vector_checks() {
    assert!(DataType::VectorFp32.is_vector());
    assert!(DataType::VectorFp16.is_vector());
    assert!(DataType::VectorFp64.is_vector());
    assert!(DataType::VectorInt4.is_vector());
    assert!(DataType::VectorInt8.is_vector());
    assert!(DataType::VectorInt16.is_vector());
    assert!(DataType::SparseVectorFp32.is_vector());
    assert!(DataType::SparseVectorFp16.is_vector());
    assert!(!DataType::String.is_vector());
    assert!(!DataType::Int64.is_vector());
    assert!(!DataType::Float.is_vector());
}

#[test]
fn test_data_type_is_sparse_checks() {
    assert!(DataType::SparseVectorFp32.is_sparse_vector());
    assert!(DataType::SparseVectorFp16.is_sparse_vector());
    assert!(!DataType::VectorFp32.is_sparse_vector());
    assert!(!DataType::String.is_sparse_vector());
}

#[test]
fn test_doc_id_methods() -> zvec::Result<()> {
    let mut doc = Doc::id("test_pk");
    let _ = doc.pk();

    doc.set_pk("new_pk");
    let _ = doc.pk();

    let doc2 = Doc::with_pk("pk2");
    let _ = doc2.pk();

    let doc3 = Doc::new();
    let _ = doc3.pk();

    Ok(())
}

#[test]
fn test_doc_setters_all_types() -> zvec::Result<()> {
    let mut doc = Doc::id("test");

    doc.set_bool("bool_field", true)?;
    doc.set_int32("int32_field", 42)?;
    doc.set_int64("int64_field", 1234567890i64)?;
    doc.set_float("float_field", 1.5f32.to_bits())?;
    doc.set_double("double_field", 2.5f64.to_bits())?;
    doc.set_string("string_field", "hello")?;

    doc.set_vector("vec_field", &[10, 20, 30, 40])?;
    doc.set_sparse_vector("sparse_field", &[1, 2, 3], &[1, 2, 3])?;

    Ok(())
}

#[test]
fn test_doc_builder_chaining() -> zvec::Result<()> {
    let doc = Doc::id("test")
        .with_pk_mut("updated_pk")
        .with_vector("embedding", &[10, 0, 0, 0])?
        .with_string("name", "test_name")?
        .with_float("score", 1.5f32.to_bits())?
        .with_int64("count", 100)?;

    let _ = doc.pk();

    Ok(())
}

#[test]
fn test_doc_setter_kind_mismatch_is_invalid_argument() -> zvec::Result<()> {
    let mut doc = Doc::id("test");
    doc.set_int64("count", 1)?;
    let result = doc.set_string("count", "oops");
    assert!(matches!(result, Err(zvec::Error::InvalidArgument(_))));
    // The document is unchanged.
    assert_eq!(doc.get_int64("count"), Some(1));
    // Overwriting with the same kind succeeds.
    doc.set_int64("count", 2)?;
    assert_eq!(doc.get_int64("count"), Some(2));
    Ok(())
}

#[test]
fn test_sparse_vector_mismatched_length() -> zvec::Result<()> {
    let mut doc = Doc::id("test");
    let result = doc.set_sparse_vector("sparse", &[1, 2, 3], &[1, 2]);
    assert!(result.is_err());
    Ok(())
}

#[test]
fn test_query_sparse_vector_mismatched_length() {
    let result = VectorQuery::new("sparse_embedding").sparse_vector(&[1, 2, 3], &[5, 3]);
    assert!(matches!(result, Err(zvec::Error::InvalidArgument(_))));
}

#[test]
fn test_doc_has_and_has_value() -> zvec::Result<()> {
    let mut doc = Doc::id("test");
    doc.set_vector("embedding", &[1, 2, 3, 4])?;

    assert!(doc.has("embedding"));
    assert!(doc.has_value("embedding"));
    assert!(!doc.has("nonexistent"));

    Ok(())
}

#[test]
fn test_doc_is_null() -> zvec::Result<()> {
    let mut doc = Doc::id("test");
    doc.set_vector("embedding", &[1, 2, 3, 4])?;

    let _ = doc.is_null("embedding");
    let _ = doc.is_null("nonexistent");

    Ok(())
}

#[test]
fn test_doc_default() {
    let doc = Doc::default();
    let _ = doc.pk();
}

#[test]
fn test_doc_round_trip_every_scalar_kind() -> zvec::Result<()> {
    let mut doc = Doc::id("rt");
    doc.set_bool("b", true)?;
    doc.set_int32("i32", -7)?;
    doc.set_int64("i64", 1_000_000_000_000)?;
    doc.set_float("f", 1.5f32.to_bits())?;
    doc.set_double("d", 2.5f64.to_bits())?;
    doc.set_string("s", "hello")?;
    doc.set_vector("v", &[1, -2, 3])?;

    assert_eq!(doc.get_bool("b"), Some(true));
    assert_eq!(doc.get_int32("i32"), Some(-7));
    assert_eq!(doc.get_int64("i64"), Some(1_000_000_000_000));
    assert_eq!(doc.get_float("f"), Some(1.5f32.to_bits()));
    assert_eq!(doc.get_string("s"), Some("hello"));
    assert_eq!(doc.get_vector("v"), Some(vec![1, -2, 3]));
    // A getter of the wrong kind yields nothing, never an error.
    assert_eq!(doc.get_int64("s"), None);
    assert_eq!(doc.get_string("i64"), None);
    Ok(())
}

#[test]
fn test_field_schema_constructors() {
    let fs = FieldSchema::bool_("bool_field");
    assert_eq!(fs.name(), "bool_field");
    assert_eq!(fs.data_type(), DataType::Bool);

    let fs = FieldSchema::int32("int32_field");
    assert_eq!(fs.data_type(), DataType::Int32);

    let fs = FieldSchema::int64("int64_field");
    assert_eq!(fs.data_type(), DataType::Int64);

    let fs = FieldSchema::float("float_field");
    assert_eq!(fs.data_type(), DataType::Float);

    let fs = FieldSchema::double("double_field");
    assert_eq!(fs.data_type(), DataType::Double);

    let fs = FieldSchema::string("string_field");
    assert_eq!(fs.data_type(), DataType::String);

    let fs = FieldSchema::new("custom_field", DataType::UInt32);
    assert_eq!(fs.data_type(), DataType::UInt32);

    let fs = FieldSchema::new_vector("vec_field", DataType::VectorFp32, 128);
    assert_eq!(fs.data_type(), DataType::VectorFp32);
    assert_eq!(fs.dimension(), 128);
}

#[test]
fn test_field_schema_nullable() {
    let mut fs = FieldSchema::string("test");
    assert!(!fs.nullable());
    fs.set_nullable(true);
    assert!(fs.nullable());
}

#[test]
fn test_field_schema_dimension() {
    let fs = FieldSchema::new_vector("vec", DataType::VectorFp32, 64);
    assert_eq!(fs.dimension(), 64);
}

#[test]
fn test_vector_schema_constructors() {
    let vs = VectorSchema::fp32("fp32_vec", 128);
    assert_eq!(vs.into_field_schema().data_type(), DataType::VectorFp32);

    let vs = VectorSchema::fp16("fp16_vec", 64);
    assert_eq!(vs.into_field_schema().data_type(), DataType::VectorFp16);

    let vs = VectorSchema::sparse_fp32("sparse_fp32");
    assert_eq!(vs.into_field_schema().data_type(), DataType::SparseVectorFp32);

    let vs = VectorSchema::sparse_fp16("sparse_fp16");
    assert_eq!(vs.into_field_schema().data_type(), DataType::SparseVectorFp16);

    let vs = VectorSchema::sparse_fp32_with_dim("sparse_fp32_dim", 1000);
    assert_eq!(vs.into_field_schema().dimension(), 1000);

    let vs = VectorSchema::sparse_fp16_with_dim("sparse_fp16_dim", 500);
    assert_eq!(vs.into_field_schema().dimension(), 500);
}

#[test]
fn test_collection_schema_name() {
    let schema = CollectionSchema::new("my_collection");
    let _ = schema.name();
}

#[test]
fn test_collection_schema_duplicate_field() -> zvec::Result<()> {
    let mut schema = CollectionSchema::new("test");
    schema.add_field(FieldSchema::int64("count"))?;
    let result = schema.add_field(FieldSchema::string("count"));
    assert!(matches!(result, Err(zvec::Error::AlreadyExists(_))));
    Ok(())
}

#[test]
fn test_index_params_types() {
    let params = IndexParams::hnsw(16, 200, MetricType::L2, QuantizeType::Undefined);
    assert_eq!(params.index_type(), IndexType::Hnsw);

    let params = IndexParams::ivf(100, 10, true, MetricType::Cosine, QuantizeType::Fp16);
    assert_eq!(params.index_type(), IndexType::Ivf);

    let params = IndexParams::flat(MetricType::Ip, QuantizeType::Int8);
    assert_eq!(params.index_type(), IndexType::Flat);

    let params = IndexParams::invert(true);
    assert_eq!(params.index_type(), IndexType::Invert);
}

#[test]
fn test_query_builder_all_options() -> zvec::Result<()> {
    let query = VectorQuery::new("embedding")
        .topk(100)
        .filter("count > 10")
        .include_vector(true)
        .include_doc_id(true)
        .output_fields(&["name", "count"])
        .vector(&[10, 0, 0, 0])?;

    drop(query);
    Ok(())
}

#[test]
fn test_query_sparse_vector() -> zvec::Result<()> {
    let query = VectorQuery::new("sparse_embedding")
        .topk(10)
        .sparse_vector(&[1, 5, 10], &[5, 3, 2])?;

    drop(query);
    Ok(())
}

#[test]
fn test_group_by_query_builder() -> zvec::Result<()> {
    let query = GroupByVectorQuery::new("embedding")
        .group_by("category")
        .group_count(5)
        .group_topk(10)
        .vector(&[10, 0, 0, 0])?;

    drop(query);
    Ok(())
}

#[test]
fn test_error_display() {
    let err = zvec::Error::NotFound("test not found".to_string());
    let msg = err.describe();
    assert!(msg.contains("test not found"));

    let err = zvec::Error::InvalidArgument("bad arg".to_string());
    let msg = err.describe();
    assert!(msg.contains("bad arg"));

    let err = zvec::Error::AlreadyExists("already here".to_string());
    let msg = err.describe();
    assert!(msg.contains("already here"));

    let err = zvec::Error::InternalError("internal".to_string());
    let msg = err.describe();
    assert!(msg.contains("internal"));

    let err = zvec::Error::NullPointer;
    let msg = err.describe();
    assert!(msg.contains("Null pointer"));

    let err = zvec::Error::DimensionMismatch { expected: 128, actual: 64 };
    let msg = err.describe();
    assert!(msg.contains("128"));
    assert!(msg.contains("64"));
}

#[test]
fn test_error_types() {
    let err = zvec::Error::NotFound("test".to_string());
    assert!(err.describe().contains("test"));

    let err = zvec::Error::AlreadyExists("test".to_string());
    assert!(err.describe().contains("test"));

    let err = zvec::Error::NotSupported("test".to_string());
    assert!(err.describe().contains("test"));

    let err = zvec::Error::PermissionDenied("test".to_string());
    assert!(err.describe().contains("test"));

    let err = zvec::Error::FailedPrecondition("test".to_string());
    assert!(err.describe().contains("test"));

    let err = zvec::Error::Unknown("test".to_string());
    assert!(err.describe().contains("test"));

    let err = zvec::Error::CollectionNotFound("test".to_string());
    assert!(err.describe().contains("test"));

    let err = zvec::Error::IndexNotFound("test".to_string());
    assert!(err.describe().contains("test"));

    let err = zvec::Error::FieldNotFound("test".to_string());
    assert!(err.describe().contains("test"));
}

#[test]
fn test_error_from_code_total() {
    assert!(matches!(zvec::Error::from_code(1, "m".to_string()), zvec::Error::NotFound(_)));
    assert!(matches!(zvec::Error::from_code(2, "m".to_string()), zvec::Error::AlreadyExists(_)));
    assert!(matches!(zvec::Error::from_code(3, "m".to_string()), zvec::Error::InvalidArgument(_)));
    assert!(matches!(zvec::Error::from_code(4, "m".to_string()), zvec::Error::NotSupported(_)));
    assert!(matches!(zvec::Error::from_code(5, "m".to_string()), zvec::Error::InternalError(_)));
    assert!(matches!(zvec::Error::from_code(6, "m".to_string()), zvec::Error::PermissionDenied(_)));
    assert!(matches!(
        zvec::Error::from_code(7, "m".to_string()),
        zvec::Error::FailedPrecondition(_)
    ));
    // Unrecognized codes map to Unknown, with the message kept verbatim.
    match zvec::Error::from_code(999, "kept".to_string()) {
        zvec::Error::Unknown(m) => assert_eq!(m, "kept"),
        _ => panic!("code 999 must map to Unknown"),
    }
}

#[test]
fn test_error_describe_exact() {
    let err = zvec::Error::NotFound("thing".to_string());
    assert_eq!(err.describe(), "Not found: thing");
    let err = zvec::Error::DimensionMismatch { expected: 128, actual: 64 };
    assert_eq!(err.describe(), "Vector dimension mismatch: expected 128, got 64");
}

#[test]
fn test_decimal_rendering_exact() {
    assert_eq!(zvec::text::u64_to_string(0), "0");
    assert_eq!(zvec::text::u64_to_string(90210), "90210");
    assert_eq!(zvec::text::i64_to_string(-42), "-42");
    assert_eq!(zvec::text::i64_to_string(i64::MIN), "-9223372036854775808");
}

#[test]
fn test_doc_null_field_predicates() -> zvec::Result<()> {
    let mut doc = Doc::id("test");
    doc.set_value("maybe", zvec::doc::FieldValue::Null)?;
    assert!(doc.has("maybe"));
    assert!(!doc.has_value("maybe"));
    assert!(doc.is_null("maybe"));
    // A null is overwritten freely by any kind.
    doc.set_value("maybe", zvec::doc::FieldValue::Int64(9))?;
    assert!(doc.has_value("maybe"));
    assert_eq!(doc.get_int64("maybe"), Some(9));
    Ok(())
}
