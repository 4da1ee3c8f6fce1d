use datalints::document::{
    BatchError, ColumnValues, DataType, Document, Field, NormalizedRecordBatch, QueryType, Queryable,
};

fn field(name: &str, data_type: DataType) -> Field {
    Field { name: name.to_string(), data_type }
}

fn strings(values: &[Option<&str>]) -> ColumnValues {
    ColumnValues::Strings(values.iter().map(|v| v.map(|s| s.to_string())).collect())
}

fn setup_normalized_record_batch() -> NormalizedRecordBatch {
    NormalizedRecordBatch::try_new(
        vec![field("a", DataType::Utf8), field("b", DataType::Utf8)],
        vec![
            strings(&[Some("alpha"), Some("beta"), Some("gamma")]),
            strings(&[Some("alpha"), None, Some("gamma")]),
        ],
    )
    .unwrap()
}

#[test]
fn test_document_from_record_batch() {
    let record_batch = setup_normalized_record_batch();
    let _doc: Document = Document::from(record_batch);
}

#[test]
fn test_queryable_for_document() {
    let doc = Document::from(setup_normalized_record_batch());
    let arrays = doc.query(QueryType::StringArray);
    assert_eq!(arrays.len(), 2);
    for (_, arr) in arrays.into_iter() {
        let is_string_type = matches!(arr, ColumnValues::Strings(_));
        assert_eq!(is_string_type, true)
    }
}

#[test]
fn queries_split_string_and_float_columns() {
    let batch = NormalizedRecordBatch::try_new(
        vec![
            field("s", DataType::LargeUtf8),
            field("f", DataType::Float64),
            field("d", DataType::Decimal128(38, 10)),
            field("v", DataType::Utf8View),
        ],
        vec![
            strings(&[Some("x")]),
            ColumnValues::Floats(vec![Some(1.5f64.to_bits())]),
            ColumnValues::Floats(vec![None]),
            strings(&[None]),
        ],
    )
    .unwrap();
    let doc = Document::from(batch);
    let s: Vec<usize> = doc.query(QueryType::StringArray).iter().map(|(i, _)| *i).collect();
    let f: Vec<usize> = doc.query(QueryType::FloatArray).iter().map(|(i, _)| *i).collect();
    assert_eq!(s, vec![0, 3]);
    assert_eq!(f, vec![1, 2]);
    assert_eq!(doc.field_name_by_idx(2), "d");
    assert_eq!(doc.normalized_schema().len(), 4);
}

#[test]
fn batch_refuses_parts_that_do_not_fit() {
    let r = NormalizedRecordBatch::try_new(vec![field("a", DataType::Utf8)], vec![]);
    assert_eq!(r.err(), Some(BatchError::ColumnCountMismatch));
    let r = NormalizedRecordBatch::try_new(
        vec![field("a", DataType::Float32)],
        vec![strings(&[Some("1")])],
    );
    assert_eq!(r.err(), Some(BatchError::TypeMismatch(0)));
    let r = NormalizedRecordBatch::try_new(
        vec![field("a", DataType::Utf8), field("b", DataType::Utf8)],
        vec![strings(&[Some("1")]), strings(&[Some("1"), Some("2")])],
    );
    assert_eq!(r.err(), Some(BatchError::LengthMismatch(1)));
    let r = NormalizedRecordBatch::try_new(
        vec![field("a", DataType::Unsupported)],
        vec![ColumnValues::Other(4)],
    )
    .unwrap();
    assert_eq!(r.num_rows(), 4);
    let empty = NormalizedRecordBatch::try_new(vec![], vec![]).unwrap();
    assert_eq!(empty.num_rows(), 0);
    assert_eq!(empty.schema().len(), 0);
}
