use mini_query_engine::batch::RecordBatch;
use mini_query_engine::column::ColumnData;
use mini_query_engine::types::{DataType, Field, Schema};

fn create_test_schema() -> Schema {
    Schema::new(vec![
        Field::new("id", DataType::Int32, false),
        Field::new("name", DataType::Utf8, false),
        Field::new("active", DataType::Boolean, false),
    ])
}

fn strings(v: &[&str]) -> Vec<Option<String>> {
    v.iter().map(|s| Some(s.to_string())).collect()
}

fn create_test_batch() -> RecordBatch {
    let columns = vec![
        ColumnData::Int32(vec![Some(1), Some(2), Some(3)]),
        ColumnData::Utf8(strings(&["Alice", "Bob", "Charlie"])),
        ColumnData::Boolean(vec![Some(true), Some(false), Some(true)]),
    ];
    RecordBatch::try_new(create_test_schema(), columns).unwrap()
}

#[test]
fn test_create_batch() {
    let batch = create_test_batch();
    assert_eq!(batch.num_rows(), 3);
    assert_eq!(batch.num_columns(), 3);
}

#[test]
fn test_column_access() {
    let batch = create_test_batch();

    let col = batch.column(0).unwrap();
    assert_eq!(col.len(), 3);

    let col = batch.column_by_name("id").unwrap();
    assert_eq!(col.len(), 3);

    assert!(batch.column(10).is_err());

    assert!(batch.column_by_name("nonexistent").is_none());
}

#[test]
fn test_select_columns() {
    let batch = create_test_batch();

    let selected = batch.select_columns(&[0, 2]).unwrap();
    assert_eq!(selected.num_columns(), 2);
    assert_eq!(selected.num_rows(), 3);

    let selected = batch.select_columns_by_name(&["id", "name"]).unwrap();
    assert_eq!(selected.num_columns(), 2);
}

#[test]
fn test_slice() {
    let batch = create_test_batch();

    let sliced = batch.slice(1, 2).unwrap();
    assert_eq!(sliced.num_rows(), 2);
    assert_eq!(sliced.num_columns(), 3);
}

#[test]
fn test_concat() {
    let batch1 = create_test_batch();
    let batch2 = create_test_batch();

    let concatenated = RecordBatch::concat(&[batch1, batch2]).unwrap();
    assert_eq!(concatenated.num_rows(), 6);
    assert_eq!(concatenated.num_columns(), 3);
}

#[test]
fn test_empty_batch() {
    let schema = create_test_schema();
    let empty_columns = vec![
        ColumnData::Int32(Vec::new()),
        ColumnData::Utf8(Vec::new()),
        ColumnData::Boolean(Vec::new()),
    ];

    let batch = RecordBatch::try_new(schema, empty_columns).unwrap();
    assert!(batch.is_empty());
    assert_eq!(batch.num_rows(), 0);
}

#[test]
fn test_invalid_batch() {
    let schema = create_test_schema();

    let columns = vec![ColumnData::Int32(vec![Some(1), Some(2), Some(3)])];
    assert!(RecordBatch::try_new(schema.clone(), columns).is_err());

    let columns = vec![
        ColumnData::Int32(vec![Some(1), Some(2), Some(3)]),
        ColumnData::Utf8(strings(&["Alice", "Bob"])),
        ColumnData::Boolean(vec![Some(true), Some(false), Some(true)]),
    ];
    assert!(RecordBatch::try_new(schema, columns).is_err());
}
