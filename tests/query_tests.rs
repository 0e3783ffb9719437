use mini_query_engine::operator::Operator;
use mini_query_engine::aggregate::Number;
use mini_query_engine::batch::RecordBatch;
use mini_query_engine::column::ColumnData;
use mini_query_engine::dataframe::{asc, avg, col, count, count_column, desc, lit_bool, lit_int32, lit_int64, lit_string, max, min, sum, DataFrame, ExprBuilder};
use mini_query_engine::error::EngineError;
use mini_query_engine::executor::{Executor, ScanOutput};
use mini_query_engine::filter::apply_filter;
use mini_query_engine::join::HashJoinOperator;
use mini_query_engine::logical_plan::{AggregateFunction, JoinType, LogicalPlan};
use mini_query_engine::project::ProjectOperator;
use mini_query_engine::scan::{ParquetReaderConfig, ScanOperator};
use mini_query_engine::sort::{sort_batch, SortOperator};
use mini_query_engine::aggregate::AggregateOperator;
use mini_query_engine::types::{DataType, Field, Schema};

fn as_f64(n: &Number) -> f64 {
    match n {
        Number::Int32(x) => *x as f64,
        Number::Int64(x) => *x as f64,
        Number::Float64(b) => f64::from_bits(*b),
    }
}

fn finish(function: AggregateFunction, values: Vec<Number>) -> Option<u64> {
    let xs: Vec<f64> = values.iter().map(as_f64).collect();
    match function {
        AggregateFunction::Count => Some((xs.len() as f64).to_bits()),
        AggregateFunction::Sum => Some(xs.iter().fold(0.0, |s, v| s + v).to_bits()),
        AggregateFunction::Avg => {
            if xs.is_empty() {
                None
            } else {
                Some((xs.iter().fold(0.0, |s, v| s + v) / xs.len() as f64).to_bits())
            }
        }
        AggregateFunction::Min => {
            let m = xs.iter().fold(f64::INFINITY, |m, v| if m > *v { *v } else { m });
            if m.is_finite() { Some(m.to_bits()) } else { None }
        }
        AggregateFunction::Max => {
            let m = xs.iter().fold(f64::NEG_INFINITY, |m, v| if m < *v { *v } else { m });
            if m.is_finite() { Some(m.to_bits()) } else { None }
        }
    }
}

fn strs(v: &[&str]) -> Vec<Option<String>> {
    v.iter().map(|s| Some(s.to_string())).collect()
}

fn floats(v: &[f64]) -> Vec<Option<u64>> {
    v.iter().map(|x| Some(x.to_bits())).collect()
}

fn people_schema() -> Schema {
    Schema::new(vec![
        Field::new("id", DataType::Int32, false),
        Field::new("name", DataType::Utf8, false),
        Field::new("age", DataType::Int32, false),
        Field::new("dept", DataType::Utf8, false),
        Field::new("salary", DataType::Float64, false),
    ])
}

fn people() -> RecordBatch {
    RecordBatch::try_new(
        people_schema(),
        vec![
            ColumnData::Int32(vec![Some(1), Some(2), Some(3), Some(4), Some(5)]),
            ColumnData::Utf8(strs(&["Alice", "Bob", "Carol", "Dave", "Eve"])),
            ColumnData::Int32(vec![Some(30), Some(25), Some(40), Some(28), Some(35)]),
            ColumnData::Utf8(strs(&["Eng", "Eng", "Sales", "Sales", "Eng"])),
            ColumnData::Float64(floats(&[100.0, 80.0, 120.0, 90.0, 110.0])),
        ],
    )
    .unwrap()
}

fn people_scan() -> ScanOutput {
    ScanOutput { schema: people_schema(), batches: vec![people()] }
}

fn depts(rows: &[(&str, &str)]) -> ScanOutput {
    let schema = Schema::new(vec![
        Field::new("dept", DataType::Utf8, false),
        Field::new("building", DataType::Utf8, true),
    ]);
    let b = RecordBatch::try_new(
        schema.clone(),
        vec![
            ColumnData::Utf8(rows.iter().map(|r| Some(r.0.to_string())).collect()),
            ColumnData::Utf8(rows.iter().map(|r| Some(r.1.to_string())).collect()),
        ],
    )
    .unwrap();
    ScanOutput { schema, batches: vec![b] }
}

fn names(v: &[&str]) -> Vec<String> {
    v.iter().map(|s| s.to_string()).collect()
}

fn int32s(c: &ColumnData) -> Vec<Option<i32>> {
    match c {
        ColumnData::Int32(v) => v.clone(),
        _ => panic!("not an Int32 column"),
    }
}

fn int64s(c: &ColumnData) -> Vec<Option<i64>> {
    match c {
        ColumnData::Int64(v) => v.clone(),
        _ => panic!("not an Int64 column"),
    }
}

fn f64s(c: &ColumnData) -> Vec<Option<f64>> {
    match c {
        ColumnData::Float64(v) => v.iter().map(|b| b.map(f64::from_bits)).collect(),
        _ => panic!("not a Float64 column"),
    }
}

fn utf8s(c: &ColumnData) -> Vec<Option<String>> {
    match c {
        ColumnData::Utf8(v) => v.clone(),
        _ => panic!("not a Utf8 column"),
    }
}

fn run(df: &DataFrame, scans: Vec<ScanOutput>) -> Result<Vec<RecordBatch>, EngineError> {
    df.collect_from(&scans, &finish)
}

#[test]
fn scenario_select_name_age() {
    let df = DataFrame::from_parquet("people.parquet").unwrap().select(names(&["name", "age"]));
    let out = run(&df, vec![people_scan()]).unwrap();
    assert_eq!(out.len(), 1);
    assert_eq!(out[0].num_rows(), 5);
    let fields: Vec<(String, DataType)> = out[0].schema().fields.iter().map(|f| (f.name.clone(), f.data_type)).collect();
    assert_eq!(fields, vec![("name".to_string(), DataType::Utf8), ("age".to_string(), DataType::Int32)]);
}

#[test]
fn scenario_filter_age_over_28() {
    let df = DataFrame::from_parquet("people.parquet").unwrap().filter(col("age").gt(lit_int32(28)));
    let out = run(&df, vec![people_scan()]).unwrap();
    assert_eq!(out.len(), 1);
    assert_eq!(out[0].num_rows(), 3);
    assert_eq!(int32s(out[0].column_by_name("id").unwrap()), vec![Some(1), Some(3), Some(5)]);
}

#[test]
fn scenario_group_by_dept() {
    let df = DataFrame::from_parquet("people.parquet")
        .unwrap()
        .group_by(names(&["dept"]))
        .agg(vec![count("n"), avg("salary", "mean"), max("age", "oldest")]);
    let out = run(&df, vec![people_scan()]).unwrap();
    assert_eq!(out.len(), 1);
    let b = &out[0];
    assert_eq!(b.num_rows(), 2);
    let fields: Vec<(String, DataType)> = b.schema().fields.iter().map(|f| (f.name.clone(), f.data_type)).collect();
    assert_eq!(
        fields,
        vec![
            ("dept".to_string(), DataType::Utf8),
            ("n".to_string(), DataType::Int64),
            ("mean".to_string(), DataType::Float64),
            ("oldest".to_string(), DataType::Float64),
        ]
    );
    let depts = utf8s(&b.columns()[0]);
    let n = int64s(&b.columns()[1]);
    let mean = f64s(&b.columns()[2]);
    let oldest = f64s(&b.columns()[3]);
    for i in 0..2 {
        match depts[i].as_deref() {
            Some("Eng") => {
                assert_eq!(n[i], Some(3));
                assert!((mean[i].unwrap() - 96.666_666_666_666_67).abs() < 1e-9);
                assert_eq!(oldest[i], Some(35.0));
            }
            Some("Sales") => {
                assert_eq!(n[i], Some(2));
                assert_eq!(mean[i], Some(105.0));
                assert_eq!(oldest[i], Some(40.0));
            }
            other => panic!("unexpected group {:?}", other),
        }
    }
}

#[test]
fn scenario_order_by_salary_desc() {
    let df = DataFrame::from_parquet("people.parquet").unwrap().order_by(vec![desc("salary")]);
    let out = run(&df, vec![people_scan()]).unwrap();
    assert_eq!(out.len(), 1);
    assert_eq!(out[0].num_rows(), 5);
    assert_eq!(
        f64s(out[0].column_by_name("salary").unwrap()),
        vec![Some(120.0), Some(110.0), Some(100.0), Some(90.0), Some(80.0)]
    );
}

#[test]
fn scenario_inner_join_on_dept() {
    let left = DataFrame::from_parquet("people.parquet").unwrap();
    let right = DataFrame::from_parquet("depts.parquet").unwrap();
    let df = left.join(right, JoinType::Inner, "dept", "dept");
    let out = run(&df, vec![people_scan(), depts(&[("Eng", "A"), ("Sales", "B")])]).unwrap();
    assert_eq!(out.len(), 1);
    assert_eq!(out[0].num_rows(), 5);
    assert_eq!(out[0].num_columns(), 7);
    assert_eq!(
        utf8s(&out[0].columns()[6]),
        strs(&["A", "A", "B", "B", "A"])
    );
}

#[test]
fn scenario_left_join_without_match() {
    let left = DataFrame::from_parquet("people.parquet").unwrap();
    let right = DataFrame::from_parquet("depts.parquet").unwrap();
    let df = left.join(right, JoinType::Left, "dept", "dept");
    let out = run(&df, vec![people_scan(), depts(&[("HR", "C")])]).unwrap();
    assert_eq!(out.len(), 1);
    assert_eq!(out[0].num_rows(), 5);
    assert_eq!(utf8s(&out[0].columns()[6]), vec![None, None, None, None, None]);
    assert_eq!(int32s(&out[0].columns()[0]), vec![Some(1), Some(2), Some(3), Some(4), Some(5)]);
}

#[test]
fn left_join_with_empty_right_side_uses_right_schema() {
    let left = DataFrame::from_parquet("people.parquet").unwrap();
    let right = DataFrame::from_parquet("depts.parquet").unwrap();
    let df = left.join(right, JoinType::Left, "dept", "dept");
    let mut empty_right = depts(&[]);
    empty_right.batches.clear();
    let out = run(&df, vec![people_scan(), empty_right]).unwrap();
    assert_eq!(out.len(), 1);
    assert_eq!(out[0].num_columns(), 7);
    assert_eq!(out[0].schema().fields[6].name, "building");
    assert_eq!(utf8s(&out[0].columns()[6]), vec![None, None, None, None, None]);

    let left = DataFrame::from_parquet("people.parquet").unwrap();
    let right = DataFrame::from_parquet("depts.parquet").unwrap();
    let df = left.join(right, JoinType::Inner, "dept", "dept");
    let mut empty_right = depts(&[]);
    empty_right.batches.clear();
    assert_eq!(run(&df, vec![people_scan(), empty_right]).unwrap().len(), 0);
}

#[test]
fn join_null_keys_never_match_and_matches_keep_right_order() {
    let schema_l = Schema::new(vec![Field::new("k", DataType::Int64, true)]);
    let l = RecordBatch::try_new(schema_l.clone(), vec![ColumnData::Int64(vec![Some(1), None, Some(2)])]).unwrap();
    let schema_r = Schema::new(vec![Field::new("k2", DataType::Int64, true), Field::new("v", DataType::Int32, true)]);
    let r = RecordBatch::try_new(
        schema_r.clone(),
        vec![ColumnData::Int64(vec![None, Some(1), Some(1)]), ColumnData::Int32(vec![Some(10), Some(20), Some(30)])],
    )
    .unwrap();
    let op = HashJoinOperator::new("k".to_string(), "k2".to_string(), JoinType::Left, schema_l.clone(), schema_r.clone()).unwrap();
    let out = op.execute_join(&[l.clone()], &[r.clone()]).unwrap();
    assert_eq!(out.len(), 1);
    assert_eq!(int64s(&out[0].columns()[0]), vec![Some(1), Some(1), None, Some(2)]);
    assert_eq!(int32s(&out[0].columns()[2]), vec![Some(20), Some(30), None, None]);

    let op = HashJoinOperator::new("k".to_string(), "k2".to_string(), JoinType::Inner, schema_l, schema_r).unwrap();
    let out = op.execute_join(&[l.clone()], &[r.clone()]).unwrap();
    assert_eq!(out[0].num_rows(), 2);

    let op = HashJoinOperator::new("missing".to_string(), "k2".to_string(), JoinType::Inner, l.schema.clone(), r.schema.clone()).unwrap();
    assert!(matches!(op.execute_join(&[l], &[r]), Err(EngineError::UnknownColumn(_))));
}

#[test]
fn filter_errors_by_kind() {
    let b = people();
    assert!(matches!(apply_filter(&b, &col("nope").gt(lit_int32(1))), Err(EngineError::UnknownColumn(_))));
    assert!(matches!(apply_filter(&b, &col("age").gt(lit_int64(1))), Err(EngineError::TypeMismatch)));
    assert!(matches!(apply_filter(&b, &col("age")), Err(EngineError::NonBooleanPredicate)));
    assert!(matches!(apply_filter(&b, &lit_int32(1)), Err(EngineError::NonBooleanPredicate)));
    assert!(matches!(apply_filter(&b, &col("age").and(lit_bool(true))), Err(EngineError::TypeMismatch)));
}

#[test]
fn filter_and_or_strings_and_literals() {
    let b = people();
    let p = col("dept").eq(lit_string("Eng")).and(col("age").lt(lit_int32(35)));
    let out = apply_filter(&b, &p).unwrap();
    assert_eq!(int32s(&out.columns()[0]), vec![Some(1), Some(2)]);
    let p = col("name").ge(lit_string("Carol")).or(col("id").eq(lit_int32(1)));
    let out = apply_filter(&b, &p).unwrap();
    assert_eq!(int32s(&out.columns()[0]), vec![Some(1), Some(3), Some(4), Some(5)]);
    assert_eq!(apply_filter(&b, &lit_bool(false)).unwrap().num_rows(), 0);
    assert_eq!(apply_filter(&b, &lit_bool(true)).unwrap().num_rows(), 5);
}

#[test]
fn filter_nulls_and_float_order() {
    let schema = Schema::new(vec![Field::new("x", DataType::Float64, true)]);
    let b = RecordBatch::try_new(
        schema,
        vec![ColumnData::Float64(vec![Some((-0.0f64).to_bits()), None, Some(0.0f64.to_bits()), Some(2.5f64.to_bits())])],
    )
    .unwrap();
    let zero = mini_query_engine::dataframe::lit_float64(0.0f64.to_bits());
    let out = apply_filter(&b, &col("x").lt(zero.clone())).unwrap();
    assert_eq!(f64s(&out.columns()[0]).len(), 1);
    assert!(f64s(&out.columns()[0])[0].unwrap().is_sign_negative());
    let out = apply_filter(&b, &col("x").ge(zero)).unwrap();
    assert_eq!(f64s(&out.columns()[0]), vec![Some(0.0), Some(2.5)]);
}

#[test]
fn filter_drops_empty_batches_in_plans() {
    let df = DataFrame::from_parquet("p").unwrap().filter(col("age").gt(lit_int32(100)));
    let scan = ScanOutput { schema: people_schema(), batches: vec![people(), people()] };
    assert_eq!(run(&df, vec![scan]).unwrap().len(), 0);
}

#[test]
fn filter_then_select_equals_select_then_filter() {
    let p = col("age").gt(lit_int32(28));
    let a = DataFrame::from_parquet("p").unwrap().select(names(&["age", "name"])).filter(p.clone());
    let b = DataFrame::from_parquet("p").unwrap().filter(p).select(names(&["age", "name"]));
    let ra = run(&a, vec![people_scan()]).unwrap();
    let rb = run(&b, vec![people_scan()]).unwrap();
    assert_eq!(ra.len(), rb.len());
    assert_eq!(int32s(&ra[0].columns()[0]), int32s(&rb[0].columns()[0]));
    assert_eq!(utf8s(&ra[0].columns()[1]), utf8s(&rb[0].columns()[1]));
}

#[test]
fn select_of_select_equals_select() {
    let b = people();
    let once = b.select_columns_by_name(&["salary", "id"]).unwrap();
    let twice = b.select_columns_by_name(&["id", "name", "salary"]).unwrap().select_columns_by_name(&["salary", "id"]).unwrap();
    assert_eq!(once.num_columns(), twice.num_columns());
    assert_eq!(f64s(&once.columns()[0]), f64s(&twice.columns()[0]));
    assert_eq!(int32s(&once.columns()[1]), int32s(&twice.columns()[1]));
    assert_eq!(once.schema().fields[0].name, "salary");
}

#[test]
fn select_errors() {
    let b = people();
    assert!(matches!(b.select_columns(&[0, 9]), Err(EngineError::OutOfRange)));
    assert!(matches!(b.select_columns_by_name(&["id", "zip"]), Err(EngineError::UnknownColumn(_))));
    assert_eq!(b.select_columns(&[]).unwrap().num_rows(), 0);
    assert!(matches!(b.slice(4, 2), Err(EngineError::OutOfRange)));
    assert_eq!(int32s(&b.slice(3, 2).unwrap().columns()[0]), vec![Some(4), Some(5)]);
}

#[test]
fn concat_laws_on_values() {
    let b = people();
    let one = RecordBatch::concat(&[b.clone()]).unwrap();
    assert_eq!(one.num_rows(), b.num_rows());
    assert_eq!(int32s(&one.columns()[2]), int32s(&b.columns()[2]));
    assert!(matches!(RecordBatch::concat(&[]), Err(EngineError::EmptyInput)));
    let two = RecordBatch::concat(&[b.clone(), b.slice(0, 2).unwrap()]).unwrap();
    assert_eq!(two.num_rows(), 7);
    let other = b.select_columns(&[0]).unwrap();
    assert!(matches!(RecordBatch::concat(&[b, other]), Err(EngineError::SchemaMismatch)));
}

#[test]
fn sort_multi_key_with_nulls_first() {
    let schema = Schema::new(vec![Field::new("g", DataType::Utf8, true), Field::new("v", DataType::Int32, true)]);
    let b = RecordBatch::try_new(
        schema,
        vec![
            ColumnData::Utf8(vec![Some("b".to_string()), Some("a".to_string()), None, Some("b".to_string()), Some("a".to_string())]),
            ColumnData::Int32(vec![Some(1), Some(5), Some(7), Some(3), None]),
        ],
    )
    .unwrap();
    let out = sort_batch(&b, &vec![asc("g"), desc("v")]).unwrap();
    assert_eq!(utf8s(&out.columns()[0]), vec![None, Some("a".to_string()), Some("a".to_string()), Some("b".to_string()), Some("b".to_string())]);
    assert_eq!(int32s(&out.columns()[1]), vec![Some(7), None, Some(5), Some(3), Some(1)]);
    assert!(matches!(sort_batch(&b, &vec![asc("zz")]), Err(EngineError::UnknownColumn(_))));
    assert!(SortOperator::new(vec![asc("zz")], b.schema.clone()).is_err());
}

#[test]
fn sort_twice_gives_the_same_order() {
    let b = people();
    let once = sort_batch(&b, &vec![asc("age")]).unwrap();
    let twice = sort_batch(&once, &vec![asc("age")]).unwrap();
    assert_eq!(int32s(&once.columns()[2]), vec![Some(25), Some(28), Some(30), Some(35), Some(40)]);
    assert_eq!(int32s(&once.columns()[0]), int32s(&twice.columns()[0]));
}

#[test]
fn sort_many_concatenates_inputs() {
    let b = people();
    let op = SortOperator::new(vec![desc("id")], people_schema()).unwrap();
    let out = op.execute_many(&[b.slice(0, 2).unwrap(), b.slice(2, 3).unwrap()]).unwrap();
    assert_eq!(out.len(), 1);
    assert_eq!(int32s(&out[0].columns()[0]), vec![Some(5), Some(4), Some(3), Some(2), Some(1)]);
    assert_eq!(op.execute_many(&[]).unwrap().len(), 0);
}

#[test]
fn count_star_sums_to_row_count() {
    let b = people();
    let op = AggregateOperator::new(names(&["dept"]), vec![count("n")], people_schema()).unwrap();
    let out = op.execute_many(&[b.clone(), b], &finish).unwrap();
    let total: i64 = int64s(&out[0].columns()[1]).iter().map(|c| c.unwrap()).sum();
    assert_eq!(total, 10);
}

#[test]
fn avg_is_sum_over_count() {
    let op = AggregateOperator::new(
        names(&["dept"]),
        vec![sum("salary", "s"), count_column("salary", "c"), avg("salary", "a")],
        people_schema(),
    )
    .unwrap();
    let out = op.hash_aggregate(&people(), &finish).unwrap();
    let s = f64s(&out.columns()[1]);
    let c = int64s(&out.columns()[2]);
    let a = f64s(&out.columns()[3]);
    for i in 0..out.num_rows() {
        assert_eq!(a[i].unwrap(), s[i].unwrap() / c[i].unwrap() as f64);
    }
}

#[test]
fn aggregate_nulls_and_empty_input() {
    let schema = Schema::new(vec![Field::new("g", DataType::Int32, true), Field::new("x", DataType::Int64, true), Field::new("t", DataType::Utf8, true)]);
    let b = RecordBatch::try_new(
        schema.clone(),
        vec![
            ColumnData::Int32(vec![None, Some(1), None, Some(1)]),
            ColumnData::Int64(vec![Some(4), None, Some(6), None]),
            ColumnData::Utf8(strs(&["a", "b", "c", "d"])),
        ],
    )
    .unwrap();
    let op = AggregateOperator::new(
        names(&["g"]),
        vec![count("n"), count_column("x", "nx"), min("x", "lo"), sum("t", "st")],
        schema.clone(),
    )
    .unwrap();
    let out = op.hash_aggregate(&b, &finish).unwrap();
    assert_eq!(int32s(&out.columns()[0]), vec![None, Some(1)]);
    assert_eq!(int64s(&out.columns()[1]), vec![Some(2), Some(2)]);
    assert_eq!(int64s(&out.columns()[2]), vec![Some(2), Some(0)]);
    assert_eq!(f64s(&out.columns()[3]), vec![Some(4.0), None]);
    assert_eq!(f64s(&out.columns()[4]), vec![Some(0.0), Some(0.0)]);

    let empty = op.execute_many(&[], &finish).unwrap();
    assert_eq!(empty.len(), 1);
    assert_eq!(empty[0].num_rows(), 0);
    assert_eq!(empty[0].num_columns(), 5);

    assert!(matches!(AggregateOperator::new(names(&["zz"]), vec![], schema.clone()), Err(EngineError::UnknownColumn(_))));
    assert!(matches!(AggregateOperator::new(names(&[]), vec![sum("zz", "s")], schema), Err(EngineError::UnknownColumn(_))));
}

#[test]
fn project_operator_and_plan_schema() {
    let op = ProjectOperator::new(names(&["dept", "id"]), people_schema()).unwrap();
    assert_eq!(op.column_indices, vec![3, 0]);
    let out = op.execute(&people()).unwrap();
    assert_eq!(out.schema().fields[0].name, "dept");
    assert!(matches!(ProjectOperator::new(names(&["zip"]), people_schema()), Err(EngineError::UnknownColumn(_))));

    let df = DataFrame::from_parquet("p").unwrap().select(names(&["age"]));
    assert!(matches!(df.plan.schema(), Err(EngineError::SchemaUnavailable)));
    let ex = Executor::new();
    let s = ex.get_schema(&df.plan, &vec![people_scan()], 0).unwrap();
    assert_eq!(s.fields.len(), 1);
    assert_eq!(s.fields[0].data_type, DataType::Int32);
    let df = DataFrame::from_parquet("p").unwrap().select(names(&["zip"]));
    assert!(ex.get_schema(&df.plan, &vec![people_scan()], 0).is_err());
}

#[test]
fn scan_projection_and_requests() {
    let op = ScanOperator::new("f.parquet", Some(names(&["salary", "id"])), people_schema()).unwrap();
    assert_eq!(op.config.column_indices, Some(vec![4, 0]));
    assert_eq!(op.schema.fields[0].name, "salary");
    assert!(ScanOperator::new("f.parquet", Some(names(&["zip"])), people_schema()).is_err());
    let config = ParquetReaderConfig::default();
    assert!(config.parallel && config.batch_size == 8192);
    assert!(config.reads_in_parallel(2) && !config.reads_in_parallel(1));

    let df = DataFrame::from_parquet("a").unwrap().join(DataFrame::from_parquet("b").unwrap(), JoinType::Inner, "x", "y");
    let reqs = df.scan_requests();
    assert_eq!(reqs.iter().map(|r| r.path.as_str()).collect::<Vec<_>>(), vec!["a", "b"]);
    match df.plan {
        LogicalPlan::Join { .. } => {}
        _ => panic!("expected a join"),
    }
}

#[test]
fn missing_scan_output_is_an_error() {
    let df = DataFrame::from_parquet("p").unwrap();
    assert!(run(&df, vec![]).is_err());
    let bad = RecordBatch { schema: people_schema(), columns: vec![], num_rows: 3 };
    assert!(run(&df, vec![ScanOutput { schema: people_schema(), batches: vec![bad] }]).is_err());
}

#[test]
fn aggregate_over_no_batches_is_typed_by_the_input_schema() {
    let df = DataFrame::from_parquet("p").unwrap().aggregate(names(&["age"]), vec![count("n"), sum("salary", "s")]);
    let out = run(&df, vec![ScanOutput { schema: people_schema(), batches: vec![] }]).unwrap();
    assert_eq!(out.len(), 1);
    assert_eq!(out[0].num_rows(), 0);
    let types: Vec<DataType> = out[0].schema().fields.iter().map(|f| f.data_type).collect();
    assert_eq!(types, vec![DataType::Int32, DataType::Int64, DataType::Float64]);
}

#[test]
fn re_running_a_plan_gives_the_same_batches() {
    let df = DataFrame::from_parquet("p")
        .unwrap()
        .filter(col("salary").gt(mini_query_engine::dataframe::lit_float64(85.0f64.to_bits())))
        .aggregate(names(&["dept"]), vec![count("n"), avg("age", "a")])
        .order_by(vec![asc("dept")]);
    let a = run(&df, vec![people_scan()]).unwrap();
    let b = run(&df, vec![people_scan()]).unwrap();
    assert_eq!(a.len(), 1);
    assert_eq!(utf8s(&a[0].columns()[0]), utf8s(&b[0].columns()[0]));
    assert_eq!(int64s(&a[0].columns()[1]), int64s(&b[0].columns()[1]));
    assert_eq!(f64s(&a[0].columns()[2]), f64s(&b[0].columns()[2]));
    assert_eq!(utf8s(&a[0].columns()[0]), strs(&["Eng", "Sales"]));
    assert_eq!(int64s(&a[0].columns()[1]), vec![Some(2), Some(2)]);
}

#[test]
fn boolean_connectives_propagate_nulls() {
    let schema = Schema::new(vec![Field::new("b", DataType::Boolean, true), Field::new("i", DataType::Int32, true)]);
    let b = RecordBatch::try_new(
        schema,
        vec![
            ColumnData::Boolean(vec![Some(true), None, Some(false), Some(true)]),
            ColumnData::Int32(vec![Some(1), Some(2), None, Some(4)]),
        ],
    )
    .unwrap();
    let out = apply_filter(&b, &col("b").eq(lit_bool(true)).and(lit_bool(true))).unwrap();
    assert_eq!(int32s(&out.columns()[1]), vec![Some(1), Some(4)]);
    let out = apply_filter(&b, &col("b").eq(lit_bool(false)).or(lit_bool(true))).unwrap();
    assert_eq!(int32s(&out.columns()[1]), vec![Some(1), None, Some(4)]);
    let out = apply_filter(&b, &col("i").neq(lit_int32(4))).unwrap();
    assert_eq!(int32s(&out.columns()[1]), vec![Some(1), Some(2)]);
    let out = apply_filter(&b, &col("i").le(lit_int32(2))).unwrap();
    assert_eq!(int32s(&out.columns()[1]), vec![Some(1), Some(2)]);
}

#[test]
fn left_join_without_left_rows_gives_no_batches() {
    let op = HashJoinOperator::new("dept".to_string(), "dept".to_string(), JoinType::Left, people_schema(), depts(&[]).schema).unwrap();
    let empty_left = people().slice(0, 0).unwrap();
    assert_eq!(op.execute_join(&[empty_left], &[]).unwrap().len(), 0);
    assert_eq!(op.execute_join(&[], &[]).unwrap().len(), 0);
}

#[test]
fn join_output_has_the_operator_schema() {
    let d = depts(&[("Eng", "A")]);
    let op = HashJoinOperator::new("dept".to_string(), "dept".to_string(), JoinType::Inner, people_schema(), d.schema.clone()).unwrap();
    let out = op.execute_join(&[people()], &d.batches).unwrap();
    let names_out: Vec<String> = out[0].schema().fields.iter().map(|f| f.name.clone()).collect();
    let names_op: Vec<String> = op.schema.fields.iter().map(|f| f.name.clone()).collect();
    assert_eq!(names_out, names_op);
    assert_eq!(out[0].num_rows(), 3);

    let narrow = people().select_columns_by_name(&["dept", "id"]).unwrap();
    assert!(matches!(op.execute_join(&[narrow], &d.batches), Err(EngineError::SchemaMismatch)));
}

#[test]
fn aggregate_over_no_batches_with_unknown_column_fails() {
    let df = DataFrame::from_parquet("p").unwrap().aggregate(names(&["age"]), vec![sum("zip", "s")]);
    let out = run(&df, vec![ScanOutput { schema: people_schema(), batches: vec![] }]);
    assert!(matches!(out, Err(EngineError::UnknownColumn(_))));
}

#[test]
fn scan_batches_must_have_the_scan_schema() {
    let df = DataFrame::from_parquet("p").unwrap();
    let narrow = people().select_columns(&[0, 1]).unwrap();
    let out = run(&df, vec![ScanOutput { schema: people_schema(), batches: vec![narrow] }]);
    assert!(matches!(out, Err(EngineError::SchemaMismatch)));
}

#[test]
fn scan_requests_carry_projections() {
    let plan = LogicalPlan::Scan { path: "f".to_string(), projection: Some(names(&["a", "b"])), filters: vec![] };
    let df = DataFrame { plan };
    let reqs = df.scan_requests();
    assert_eq!(reqs.len(), 1);
    assert_eq!(reqs[0].projection, Some(names(&["a", "b"])));
}

#[test]
fn operators_share_one_interface() {
    let ops: Vec<Box<dyn Operator>> = vec![
        Box::new(ProjectOperator::new(names(&["id"]), people_schema()).unwrap()),
        Box::new(SortOperator::new(vec![desc("id")], people_schema()).unwrap()),
    ];
    let out = ops[1].execute(&people()).unwrap();
    assert_eq!(int32s(&out.columns()[0]), vec![Some(5), Some(4), Some(3), Some(2), Some(1)]);
    assert_eq!(ops[0].schema().fields.len(), 1);
}
