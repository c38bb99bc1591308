use std::sync::Arc;

use arrow::array::{ArrayRef, BooleanArray, Float64Array, Int64Array};
use arrow::datatypes::{DataType, Field, Schema};
use expman::codec::{batch_to_table, decode_table, encode_table, new_table, table_to_batch};
use expman::error::ExpmanError;
use expman::models::{MetricRow, MetricValue};
use expman::storage::{append_metrics, plan_append, read_latest_scalar_metrics, read_metrics, read_metrics_since};
use expman::ingest::rows_to_table;
use expman::reading::{record_field, FieldValue};
use expman::table::{Cell, Column, ColumnKind, Table};

fn float(x: f64) -> MetricValue {
    MetricValue::Float(x.to_bits())
}

fn row(step: Option<u64>, values: Vec<(&str, MetricValue)>) -> MetricRow {
    MetricRow::at(
        1_700_000_000_000_000,
        values.into_iter().map(|(k, v)| (k.to_string(), v)).collect(),
        step,
    )
}

fn numbers(cells: &[Cell]) -> Vec<Option<f64>> {
    cells
        .iter()
        .map(|c| match c {
            Cell::Float(b) => Some(f64::from_bits(*b)),
            _ => None,
        })
        .collect()
}

#[test]
fn appending_nothing_writes_nothing() {
    assert!(matches!(append_metrics(None, &[]), Ok(None)));
    // Not even a file that cannot be read is looked at.
    assert!(matches!(append_metrics(Some(b"garbage"), &[]), Ok(None)));
    assert!(matches!(plan_append(None, &[]), Ok(None)));
}

#[test]
fn a_missing_file_reads_as_empty() {
    assert!(read_metrics(None).unwrap().is_empty());
    assert!(read_metrics_since(None, Some(3)).unwrap().is_empty());
    assert!(read_latest_scalar_metrics(None).unwrap().is_empty());
}

#[test]
fn bytes_that_are_no_parquet_file_fail() {
    match read_metrics(Some(b"this is not a parquet file")) {
        Err(ExpmanError::Parquet(message)) => assert!(!message.is_empty()),
        other => panic!("expected a Parquet error, got {:?}", other.map(|r| r.len())),
    }
    assert!(matches!(read_metrics(Some(b"")), Err(ExpmanError::Parquet(_))));
    assert!(matches!(read_metrics_since(Some(b"PAR1"), None), Err(ExpmanError::Parquet(_))));
    assert!(matches!(read_latest_scalar_metrics(Some(b"x")), Err(ExpmanError::Parquet(_))));
    assert!(matches!(append_metrics(Some(b"x"), &[row(None, vec![])]), Err(ExpmanError::Parquet(_))));
    assert!(matches!(decode_table(b"PAR1PAR1"), Err(ExpmanError::Parquet(_))));
}

#[test]
fn every_appended_row_is_read_back() {
    let mut file: Option<Vec<u8>> = None;
    let mut logged = 0u64;
    for batch in [3usize, 1, 5, 2] {
        let rows: Vec<MetricRow> = (0..batch)
            .map(|k| {
                let step = logged + k as u64;
                row(Some(step), vec![("loss", float(step as f64 / 8.0))])
            })
            .collect();
        logged += batch as u64;
        file = append_metrics(file.as_deref(), &rows).unwrap();
        assert!(file.is_some());
        let back = read_metrics(file.as_deref()).unwrap();
        assert_eq!(back.len() as u64, logged);
    }
    let back = read_metrics(file.as_deref()).unwrap();
    for (i, record) in back.iter().enumerate() {
        assert!(matches!(record_field(record, "step"), Some(FieldValue::Int(s)) if *s == i as i64));
        assert!(matches!(record_field(record, "loss"), Some(FieldValue::Float(b)) if f64::from_bits(*b) == i as f64 / 8.0));
        assert!(matches!(record_field(record, "timestamp"), Some(FieldValue::Text(t)) if t == "2023-11-14T22:13:20+00:00"));
    }
}

#[test]
fn the_first_type_of_a_name_decides_for_the_whole_file() {
    // A column of text takes later numbers as their texts.
    let text_first = append_metrics(None, &[row(Some(0), vec![("k", MetricValue::Text("start".to_string()))])])
        .unwrap()
        .unwrap();
    let later = vec![
        row(Some(1), vec![("k", float(1.5))]),
        row(Some(2), vec![("k", MetricValue::Int(3))]),
        row(Some(3), vec![("k", MetricValue::Bool(true))]),
        row(Some(4), vec![]),
    ];
    let file = append_metrics(Some(&text_first), &later).unwrap().unwrap();
    let back = read_metrics(Some(&file)).unwrap();
    assert_eq!(back.len(), 5);
    let texts: Vec<Option<String>> = back
        .iter()
        .map(|r| match record_field(r, "k") {
            Some(FieldValue::Text(t)) => Some(t.clone()),
            _ => None,
        })
        .collect();
    let s = |x: &str| Some(x.to_string());
    assert_eq!(texts, vec![s("start"), s("1.5"), s("3"), s("true"), None]);
    assert_eq!(decode_table(&file).unwrap().columns[2].kind, ColumnKind::Text);

    // A column of numbers takes later integers widened, and has a missing
    // cell for what is no number.
    let number_first = append_metrics(None, &[row(Some(0), vec![("m", float(1.0))])]).unwrap().unwrap();
    let later = vec![
        row(Some(1), vec![("m", MetricValue::Text("x".to_string()))]),
        row(Some(2), vec![("m", MetricValue::Int(2))]),
        row(Some(3), vec![("m", MetricValue::Bool(false))]),
    ];
    let file = append_metrics(Some(&number_first), &later).unwrap().unwrap();
    let back = read_metrics(Some(&file)).unwrap();
    assert_eq!(back.len(), 4);
    assert!(matches!(record_field(&back[0], "m"), Some(FieldValue::Float(b)) if f64::from_bits(*b) == 1.0));
    assert!(matches!(record_field(&back[1], "m"), Some(FieldValue::Null)));
    assert!(matches!(record_field(&back[2], "m"), Some(FieldValue::Float(b)) if f64::from_bits(*b) == 2.0));
    assert!(matches!(record_field(&back[3], "m"), Some(FieldValue::Null)));
    assert_eq!(decode_table(&file).unwrap().columns[2].kind, ColumnKind::Float);
}

#[test]
fn a_name_that_the_file_has_in_another_kind_is_refused() {
    // The file of another writer has `count` as integers; a metric of that name
    // is neither numbers nor text there.
    let file = file_of_another_writer();
    let table = decode_table(&file).unwrap();
    let rows = [row(Some(3), vec![("count", float(1.0))])];
    assert!(matches!(plan_append(Some(&table), &rows), Err(ExpmanError::Arrow(_))));
}

#[test]
fn read_since_on_a_file() {
    let rows = vec![
        row(Some(4), vec![("v", float(4.0))]),
        row(Some(5), vec![("v", float(5.0))]),
        row(None, vec![("v", float(-1.0))]),
        row(Some(6), vec![("v", float(6.0))]),
    ];
    let file = append_metrics(None, &rows).unwrap().unwrap();
    let newer = read_metrics_since(Some(&file), Some(5)).unwrap();
    let values: Vec<f64> = newer
        .iter()
        .map(|r| match record_field(r, "v") {
            Some(FieldValue::Float(b)) => f64::from_bits(*b),
            _ => f64::NAN,
        })
        .collect();
    assert_eq!(values, vec![-1.0, 6.0]);
    assert_eq!(read_metrics_since(Some(&file), None).unwrap().len(), 4);
    assert_eq!(read_metrics_since(Some(&file), Some(6)).unwrap().len(), 1);
}

#[test]
fn latest_scalars_of_a_file() {
    let rows = vec![
        row(Some(1), vec![("loss", float(0.5)), ("who", MetricValue::Text("a".to_string()))]),
        row(Some(2), vec![("loss", float(0.25)), ("who", MetricValue::Text("b".to_string()))]),
    ];
    let file = append_metrics(None, &rows).unwrap().unwrap();
    let scalars: Vec<(String, f64)> =
        read_latest_scalar_metrics(Some(&file)).unwrap().into_iter().map(|(k, b)| (k, f64::from_bits(b))).collect();
    assert_eq!(scalars, vec![("step".to_string(), 2.0), ("loss".to_string(), 0.25)]);
}

#[test]
fn a_table_survives_the_passage_through_parquet() {
    let rows = vec![
        row(Some(0), vec![("x", float(1.5)), ("s", MetricValue::Text("häh".to_string()))]),
        row(None, vec![("x", float(f64::NAN))]),
        row(Some(2), vec![("s", MetricValue::Text(String::new()))]),
    ];
    let table = rows_to_table(&rows);
    let back = decode_table(&encode_table(&table).unwrap()).unwrap();
    assert_eq!(back.height, 3);
    assert_eq!(back.columns.len(), 4);
    for (a, b) in table.columns.iter().zip(back.columns.iter()) {
        assert_eq!(a.name, b.name);
        assert_eq!(a.kind, b.kind);
        assert_eq!(a.nullable, b.nullable);
        assert_eq!(format!("{:?}", a.cells), format!("{:?}", b.cells));
    }
    assert!(matches!(back.columns[2].cells[1], Cell::Float(b) if f64::from_bits(b).is_nan()));
    assert_eq!(numbers(&back.columns[2].cells)[0], Some(1.5));
}

#[test]
fn a_table_without_rows_survives_too() {
    let table = new_table();
    let bytes = encode_table(&table).unwrap();
    let back = decode_table(&bytes).unwrap();
    assert_eq!(back.height, 0);
    let names: Vec<&str> = back.columns.iter().map(|c| c.name.as_str()).collect();
    assert_eq!(names, vec!["step", "timestamp"]);
    assert!(read_metrics(Some(&bytes)).unwrap().is_empty());
    assert!(read_latest_scalar_metrics(Some(&bytes)).unwrap().is_empty());
}

#[test]
fn many_rows_come_back_in_order_across_record_batches() {
    let rows: Vec<MetricRow> = (0..3000u64).map(|i| row(Some(i), vec![("v", float(i as f64))])).collect();
    let file = append_metrics(None, &rows).unwrap().unwrap();
    let back = read_metrics(Some(&file)).unwrap();
    assert_eq!(back.len(), 3000);
    for (i, record) in back.iter().enumerate() {
        assert!(matches!(record_field(record, "step"), Some(FieldValue::Int(s)) if *s == i as i64));
    }
}

#[test]
fn a_record_batch_holds_what_the_table_holds() {
    let rows = vec![row(Some(0), vec![("x", float(1.5))]), row(Some(1), vec![("x", MetricValue::Int(2))])];
    let table = rows_to_table(&rows);
    let batch = table_to_batch(&table).unwrap();
    let back = batch_to_table(&batch);
    assert_eq!(back.height, 2);
    assert_eq!(numbers(&back.columns[2].cells), vec![Some(1.5), Some(2.0)]);
    assert!(matches!(back.columns[0].cells[1], Cell::Int(1)));
    assert!(matches!(back.columns[1].cells[1], Cell::Timestamp(1_700_000_000_000_000)));
}

#[test]
fn what_cannot_be_written_is_refused() {
    let unsupported = Table {
        columns: vec![Column { name: "blob".to_string(), kind: ColumnKind::Unsupported, nullable: true, cells: vec![Cell::Null] }],
        height: 1,
    };
    assert!(matches!(encode_table(&unsupported), Err(ExpmanError::Arrow(_))));
    let nothing = Table { columns: vec![], height: 0 };
    match encode_table(&nothing) {
        Err(ExpmanError::Arrow(message)) => assert!(!message.is_empty()),
        other => panic!("expected an Arrow error, got {:?}", other.map(|b| b.len())),
    }
    // A missing cell in a column that is declared not nullable is refused by Arrow.
    let holes = Table {
        columns: vec![Column { name: "timestamp".to_string(), kind: ColumnKind::Timestamp, nullable: false, cells: vec![Cell::Null] }],
        height: 1,
    };
    assert!(matches!(encode_table(&holes), Err(ExpmanError::Arrow(_))));
}

#[test]
fn writing_the_same_table_twice_gives_the_same_bytes() {
    let rows: Vec<MetricRow> = (0..200u64)
        .map(|i| row(Some(i), vec![("v", float(i as f64 / 3.0)), ("who", MetricValue::Text(format!("w{}", i % 7)))]))
        .collect();
    let table = rows_to_table(&rows);
    let first = encode_table(&table).unwrap();
    let second = encode_table(&table).unwrap();
    assert_eq!(first, second);
    assert_eq!(append_metrics(None, &rows).unwrap().unwrap(), first);
}

fn file_of_another_writer() -> Vec<u8> {
    let schema = Arc::new(Schema::new(vec![
        Field::new("step", DataType::Int64, true),
        Field::new("flag", DataType::Boolean, true),
        Field::new("count", DataType::Int64, true),
        Field::new("loss", DataType::Float64, true),
    ]));
    let step: ArrayRef = Arc::new(Int64Array::from(vec![Some(1), Some(2)]));
    let flag: ArrayRef = Arc::new(BooleanArray::from(vec![Some(true), None]));
    let count: ArrayRef = Arc::new(Int64Array::from(vec![Some(10), None]));
    let loss: ArrayRef = Arc::new(Float64Array::from(vec![Some(0.5), Some(f64::INFINITY)]));
    let batch = arrow::record_batch::RecordBatch::try_new(schema.clone(), vec![step, flag, count, loss]).unwrap();
    let mut bytes: Vec<u8> = Vec::new();
    let mut writer = parquet::arrow::ArrowWriter::try_new(&mut bytes, schema, None).unwrap();
    writer.write(&batch).unwrap();
    writer.close().unwrap();
    bytes
}

#[test]
fn a_file_of_another_writer_is_read_as_far_as_it_can_be() {
    let file = file_of_another_writer();
    let table = decode_table(&file).unwrap();
    assert!(table.is_well_formed());
    let kinds: Vec<ColumnKind> = table.columns.iter().map(|c| c.kind).collect();
    assert_eq!(kinds, vec![ColumnKind::Int, ColumnKind::Unsupported, ColumnKind::Int, ColumnKind::Float]);
    let records = read_metrics(Some(&file)).unwrap();
    assert_eq!(records.len(), 2);
    assert!(matches!(record_field(&records[0], "step"), Some(FieldValue::Int(1))));
    assert!(matches!(record_field(&records[0], "flag"), Some(FieldValue::Null)));
    assert!(matches!(record_field(&records[0], "count"), Some(FieldValue::Int(10))));
    assert!(matches!(record_field(&records[0], "loss"), Some(FieldValue::Float(b)) if f64::from_bits(*b) == 0.5));
    assert!(matches!(record_field(&records[1], "count"), Some(FieldValue::Null)));
    assert!(matches!(record_field(&records[1], "loss"), Some(FieldValue::Null)));
    assert!(record_field(&records[0], "timestamp").is_none());
    assert_eq!(read_metrics_since(Some(&file), Some(1)).unwrap().len(), 1);
    let scalars: Vec<(String, f64)> =
        read_latest_scalar_metrics(Some(&file)).unwrap().into_iter().map(|(k, b)| (k, f64::from_bits(b))).collect();
    assert_eq!(scalars, vec![("step".to_string(), 2.0)]);
    // Its rows have no time, and the column of the time admits no missing cell.
    assert!(matches!(append_metrics(Some(&file), &[row(Some(3), vec![])]), Err(ExpmanError::Arrow(_))));
    // A column that cannot be read cannot be written back either.
    assert!(matches!(encode_table(&table), Err(ExpmanError::Arrow(_))));
}

#[test]
fn the_greatest_steps_are_read_back_and_compared_as_they_were_logged() {
    let rows = vec![
        row(Some(5), vec![("v", float(5.0))]),
        row(Some((1u64 << 63) - 1), vec![("v", float(1.0))]),
        row(Some(1u64 << 63), vec![("v", float(2.0))]),
        row(Some(u64::MAX), vec![("v", float(3.0))]),
        row(None, vec![("v", float(4.0))]),
    ];
    let file = append_metrics(None, &rows).unwrap().unwrap();
    let all = read_metrics(Some(&file)).unwrap();
    let steps: Vec<Option<u64>> = all.iter().map(expman::reading::step_of).collect();
    assert_eq!(steps, vec![Some(5), Some((1u64 << 63) - 1), Some(1u64 << 63), Some(u64::MAX), None]);
    let values = |since: u64| -> Vec<f64> {
        read_metrics_since(Some(&file), Some(since))
            .unwrap()
            .iter()
            .map(|r| match record_field(r, "v") {
                Some(FieldValue::Float(b)) => f64::from_bits(*b),
                _ => f64::NAN,
            })
            .collect()
    };
    assert_eq!(values(4), vec![5.0, 1.0, 2.0, 3.0, 4.0]);
    assert_eq!(values(5), vec![1.0, 2.0, 3.0, 4.0]);
    assert_eq!(values((1u64 << 63) - 1), vec![2.0, 3.0, 4.0]);
    assert_eq!(values(1u64 << 63), vec![3.0, 4.0]);
    assert_eq!(values(u64::MAX - 1), vec![3.0, 4.0]);
    assert_eq!(values(u64::MAX), vec![4.0]);
}

#[test]
fn two_appends_read_as_one_append_of_both_batches() {
    let first = vec![
        row(Some(0), vec![("loss", float(0.5)), ("tag", MetricValue::Text("a".to_string()))]),
        row(Some(1), vec![("loss", MetricValue::Int(1))]),
    ];
    let second = vec![
        row(Some(2), vec![("tag", float(2.5)), ("loss", MetricValue::Text("bad".to_string())), ("acc", MetricValue::Int(7))]),
        row(None, vec![("acc", MetricValue::Text("late".to_string())), ("note", MetricValue::Bool(true))]),
        row(Some(4), vec![("note", float(1.0))]),
    ];
    let both: Vec<MetricRow> = first.iter().cloned().chain(second.iter().cloned()).collect();
    let shown = |file: &[u8]| -> Vec<Vec<(String, String)>> {
        read_metrics(Some(file))
            .unwrap()
            .into_iter()
            .map(|r| {
                let mut fields: Vec<(String, String)> = r.into_iter().map(|(k, v)| (k, format!("{:?}", v))).collect();
                fields.sort();
                fields
            })
            .collect()
    };
    // On a file that was there before.
    let old = append_metrics(None, &[row(Some(9), vec![("loss", float(9.0)), ("old", MetricValue::Text("o".to_string()))])])
        .unwrap()
        .unwrap();
    let midway = append_metrics(Some(&old), &first).unwrap().unwrap();
    let twice = append_metrics(Some(&midway), &second).unwrap().unwrap();
    let once = append_metrics(Some(&old), &both).unwrap().unwrap();
    assert_eq!(shown(&twice), shown(&once));
    assert_eq!(shown(&once).len(), 6);
    assert_eq!(twice, once);
    // On a new file.
    let midway = append_metrics(None, &first).unwrap().unwrap();
    let twice = append_metrics(Some(&midway), &second).unwrap().unwrap();
    let once = append_metrics(None, &both).unwrap().unwrap();
    assert_eq!(shown(&twice), shown(&once));
    assert_eq!(twice, once);
}
