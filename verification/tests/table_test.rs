use expman::error::ExpmanError;
use expman::models::{MetricRow, MetricValue};
use expman::append::{append_tables, find_column, stack_tables};
use expman::ingest::{collect_keys, is_numeric_column, is_numeric_under, lookup_value, rows_to_table, rows_to_table_under};
use expman::reading::{
    advance_cursor, latest_scalars, record_field, rows_since, step_of, table_to_rows, FieldValue, Record,
};
use expman::table::{Cell, Column, ColumnKind, Table};

fn float(x: f64) -> MetricValue {
    MetricValue::Float(x.to_bits())
}

fn text(s: &str) -> MetricValue {
    MetricValue::Text(s.to_string())
}

fn row(step: Option<u64>, time: i64, values: Vec<(&str, MetricValue)>) -> MetricRow {
    MetricRow::at(time, values.into_iter().map(|(k, v)| (k.to_string(), v)).collect(), step)
}

fn names(table: &Table) -> Vec<String> {
    table.columns.iter().map(|c| c.name.clone()).collect()
}

fn number(cell: &Cell) -> Option<f64> {
    match cell {
        Cell::Float(bits) => Some(f64::from_bits(*bits)),
        _ => None,
    }
}

fn string(cell: &Cell) -> Option<&str> {
    match cell {
        Cell::Text(s) => Some(s.as_str()),
        _ => None,
    }
}

#[test]
fn empty_batch_has_the_two_fixed_columns() {
    let table = rows_to_table(&[]);
    assert_eq!(table.height, 0);
    assert_eq!(names(&table), vec!["step", "timestamp"]);
    assert_eq!(table.columns[0].kind, ColumnKind::Int);
    assert!(table.columns[0].nullable);
    assert_eq!(table.columns[1].kind, ColumnKind::Timestamp);
    assert!(!table.columns[1].nullable);
    assert!(table_to_rows(&table).is_empty());
}

#[test]
fn keys_come_in_order_of_first_appearance() {
    let rows = vec![
        row(Some(0), 10, vec![("b", float(1.0)), ("a", float(2.0))]),
        row(Some(1), 11, vec![("c", float(3.0)), ("a", float(4.0)), ("b", float(5.0))]),
    ];
    assert_eq!(collect_keys(&rows), vec!["b", "a", "c"]);
    assert_eq!(names(&rows_to_table(&rows)), vec!["step", "timestamp", "b", "a", "c"]);
}

#[test]
fn a_later_entry_under_the_same_name_counts() {
    let values = vec![("x".to_string(), float(1.0)), ("x".to_string(), float(2.0))];
    assert!(matches!(lookup_value(&values, "x"), Some(MetricValue::Float(b)) if f64::from_bits(*b) == 2.0));
    assert!(lookup_value(&values, "y").is_none());
    let table = rows_to_table(&[MetricRow::at(0, values, None)]);
    assert_eq!(names(&table), vec!["step", "timestamp", "x"]);
    assert_eq!(number(&table.columns[2].cells[0]), Some(2.0));
}

#[test]
fn step_and_timestamp_cells() {
    let rows = vec![
        row(Some(7), 1_000_000, vec![]),
        row(None, 2_000_000, vec![]),
        row(Some(u64::MAX), -5, vec![]),
        row(Some(1u64 << 63), 0, vec![]),
    ];
    let table = rows_to_table(&rows);
    assert_eq!(table.height, 4);
    assert!(matches!(table.columns[0].cells[0], Cell::Int(7)));
    assert!(matches!(table.columns[0].cells[1], Cell::Null));
    assert!(matches!(table.columns[0].cells[2], Cell::Int(-1)));
    assert!(matches!(table.columns[0].cells[3], Cell::Int(i64::MIN)));
    assert!(matches!(table.columns[1].cells[0], Cell::Timestamp(1_000_000)));
    assert!(matches!(table.columns[1].cells[2], Cell::Timestamp(-5)));
}

#[test]
fn first_number_makes_a_numeric_column() {
    let rows = vec![
        row(Some(0), 0, vec![("other", float(0.0))]),
        row(Some(1), 0, vec![("m", MetricValue::Int(3))]),
        row(Some(2), 0, vec![("m", float(0.25))]),
        row(Some(3), 0, vec![("m", text("oops"))]),
        row(Some(4), 0, vec![("m", MetricValue::Bool(true))]),
        row(Some(5), 0, vec![("m", MetricValue::Int(i64::MAX))]),
    ];
    assert!(is_numeric_column(&rows, "m"));
    assert!(!is_numeric_column(&rows, "absent"));
    let table = rows_to_table(&rows);
    let m = &table.columns[3];
    assert_eq!(m.name, "m");
    assert_eq!(m.kind, ColumnKind::Float);
    assert!(m.nullable);
    assert!(matches!(m.cells[0], Cell::Null));
    assert_eq!(number(&m.cells[1]), Some(3.0));
    assert_eq!(number(&m.cells[2]), Some(0.25));
    assert!(matches!(m.cells[3], Cell::Null));
    assert!(matches!(m.cells[4], Cell::Null));
    assert_eq!(number(&m.cells[5]), Some(9223372036854775807i64 as f64));
}

#[test]
fn first_text_makes_a_text_column_and_the_rest_is_written_out() {
    let rows = vec![
        row(Some(0), 0, vec![("m", text("start"))]),
        row(Some(1), 0, vec![("m", float(0.5))]),
        row(Some(2), 0, vec![("m", MetricValue::Int(-42))]),
        row(Some(3), 0, vec![("m", MetricValue::Bool(false))]),
        row(Some(4), 0, vec![]),
        row(Some(5), 0, vec![("m", float(1.0))]),
        row(Some(6), 0, vec![("m", float(f64::NAN))]),
        row(Some(7), 0, vec![("m", MetricValue::Int(i64::MIN))]),
        row(Some(8), 0, vec![("m", MetricValue::Int(0))]),
        row(Some(9), 0, vec![("m", MetricValue::Bool(true))]),
    ];
    assert!(!is_numeric_column(&rows, "m"));
    let table = rows_to_table(&rows);
    let m = &table.columns[2];
    assert_eq!(m.kind, ColumnKind::Text);
    assert_eq!(string(&m.cells[0]), Some("start"));
    assert_eq!(string(&m.cells[1]), Some("0.5"));
    assert_eq!(string(&m.cells[2]), Some("-42"));
    assert_eq!(string(&m.cells[3]), Some("false"));
    assert!(matches!(m.cells[4], Cell::Null));
    assert_eq!(string(&m.cells[5]), Some("1"));
    assert_eq!(string(&m.cells[6]), Some("NaN"));
    assert_eq!(string(&m.cells[7]), Some("-9223372036854775808"));
    assert_eq!(string(&m.cells[8]), Some("0"));
    assert_eq!(string(&m.cells[9]), Some("true"));
}

#[test]
fn a_bool_first_makes_a_text_column() {
    let rows = vec![row(None, 0, vec![("flag", MetricValue::Bool(true))]), row(None, 0, vec![("flag", float(2.5))])];
    let table = rows_to_table(&rows);
    assert_eq!(table.columns[2].kind, ColumnKind::Text);
    assert_eq!(string(&table.columns[2].cells[0]), Some("true"));
    assert_eq!(string(&table.columns[2].cells[1]), Some("2.5"));
}

#[test]
fn reading_maps_cells_to_values() {
    let rows = vec![
        row(Some(3), 1_700_000_000_123_456, vec![("x", float(1.5)), ("s", text("a"))]),
        row(None, 0, vec![("x", float(f64::NAN))]),
        row(Some(5), i64::MAX, vec![("x", float(f64::INFINITY))]),
        row(Some(6), 1, vec![("x", float(f64::NEG_INFINITY))]),
        row(Some(7), 1, vec![("x", float(-0.0))]),
    ];
    let records = table_to_rows(&rows_to_table(&rows));
    assert_eq!(records.len(), 5);
    let keys: Vec<&str> = records[0].iter().map(|(k, _)| k.as_str()).collect();
    assert_eq!(keys, vec!["step", "timestamp", "x", "s"]);
    assert!(matches!(record_field(&records[0], "step"), Some(FieldValue::Int(3))));
    assert!(matches!(record_field(&records[0], "timestamp"), Some(FieldValue::Text(t)) if t == "2023-11-14T22:13:20.123456+00:00"));
    assert!(matches!(record_field(&records[0], "x"), Some(FieldValue::Float(b)) if f64::from_bits(*b) == 1.5));
    assert!(matches!(record_field(&records[0], "s"), Some(FieldValue::Text(t)) if t == "a"));
    assert!(record_field(&records[0], "missing").is_none());
    assert!(matches!(record_field(&records[1], "step"), Some(FieldValue::Null)));
    assert!(matches!(record_field(&records[1], "timestamp"), Some(FieldValue::Text(t)) if t == "1970-01-01T00:00:00+00:00"));
    assert!(matches!(record_field(&records[1], "x"), Some(FieldValue::Null)));
    assert!(matches!(record_field(&records[1], "s"), Some(FieldValue::Null)));
    // An instant beyond the calendar reads as the epoch.
    assert!(matches!(record_field(&records[2], "timestamp"), Some(FieldValue::Text(t)) if t == "1970-01-01T00:00:00+00:00"));
    assert!(matches!(record_field(&records[2], "x"), Some(FieldValue::Null)));
    assert!(matches!(record_field(&records[3], "x"), Some(FieldValue::Null)));
    assert!(matches!(record_field(&records[4], "x"), Some(FieldValue::Float(b)) if *b == (-0.0f64).to_bits()));
}

#[test]
fn a_metric_called_step_hides_the_step_from_a_reader() {
    let rows = vec![row(Some(9), 0, vec![("step", float(0.5))])];
    let table = rows_to_table(&rows);
    assert_eq!(names(&table), vec!["step", "timestamp", "step"]);
    assert_eq!(find_column(&table.columns, "step"), Some(0));
    let records = table_to_rows(&table);
    assert!(matches!(record_field(&records[0], "step"), Some(FieldValue::Float(_))));
    assert_eq!(step_of(&records[0]), None);
    // The second write fails: the field `step` of the file is an integer column,
    // and the name finds that column for the metric too.
    assert!(matches!(append_tables(&table, &table), Err(ExpmanError::Arrow(_))));
}

#[test]
fn append_takes_the_union_of_the_schemas() {
    let a = rows_to_table(&[row(Some(0), 1, vec![("loss", float(0.5))]), row(Some(1), 2, vec![("loss", float(0.4))])]);
    let b = rows_to_table(&[row(Some(2), 3, vec![("acc", float(0.8)), ("loss", float(0.3))])]);
    let t = append_tables(&a, &b).unwrap();
    assert_eq!(t.height, 3);
    assert_eq!(names(&t), vec!["step", "timestamp", "loss", "acc"]);
    let loss: Vec<Option<f64>> = t.columns[2].cells.iter().map(number).collect();
    assert_eq!(loss, vec![Some(0.5), Some(0.4), Some(0.3)]);
    let acc: Vec<Option<f64>> = t.columns[3].cells.iter().map(number).collect();
    assert_eq!(acc, vec![None, None, Some(0.8)]);
    assert!(matches!(t.columns[0].cells[2], Cell::Int(2)));
    assert!(matches!(t.columns[1].cells[0], Cell::Timestamp(1)));

    // A column that the new rows lack is missing in each of them.
    let c = rows_to_table(&[row(Some(3), 4, vec![])]);
    let u = append_tables(&t, &c).unwrap();
    assert_eq!(u.height, 4);
    assert_eq!(names(&u), vec!["step", "timestamp", "loss", "acc"]);
    assert!(matches!(u.columns[2].cells[3], Cell::Null));
    assert!(matches!(u.columns[3].cells[3], Cell::Null));
}

#[test]
fn append_refuses_a_column_of_another_kind() {
    let a = rows_to_table(&[row(Some(0), 1, vec![("m", float(0.5))])]);
    let b = rows_to_table(&[row(Some(1), 2, vec![("m", text("late"))])]);
    match append_tables(&a, &b) {
        Err(ExpmanError::Arrow(message)) => assert!(!message.is_empty()),
        other => panic!("expected an Arrow error, got {:?}", other.map(|t| t.height)),
    }
    // The other way round the file's text column cannot take the numbers.
    assert!(matches!(append_tables(&b, &a), Err(ExpmanError::Arrow(_))));
}

#[test]
fn append_refuses_a_missing_cell_in_a_column_that_is_not_nullable() {
    let full = rows_to_table(&[row(Some(0), 1, vec![])]);
    let without_time = Table {
        columns: vec![Column { name: "step".to_string(), kind: ColumnKind::Int, nullable: true, cells: vec![Cell::Int(1)] }],
        height: 1,
    };
    assert!(matches!(append_tables(&full, &without_time), Err(ExpmanError::Arrow(_))));
    // Without rows there is no cell to miss.
    let empty = Table {
        columns: vec![Column { name: "step".to_string(), kind: ColumnKind::Int, nullable: true, cells: vec![] }],
        height: 0,
    };
    let t = append_tables(&full, &empty).unwrap();
    assert_eq!(t.height, 1);
}

#[test]
fn stacking_is_by_position() {
    let a = rows_to_table(&[row(Some(0), 1, vec![("m", float(0.5))])]);
    let b = rows_to_table(&[row(Some(1), 2, vec![("m", float(0.25))]), row(None, 3, vec![("m", float(0.125))])]);
    let t = stack_tables(&a, &b).unwrap();
    assert_eq!(t.height, 3);
    assert_eq!(names(&t), vec!["step", "timestamp", "m"]);
    assert_eq!(number(&t.columns[2].cells[2]), Some(0.125));
    let narrow = rows_to_table(&[row(Some(1), 2, vec![])]);
    assert!(matches!(stack_tables(&a, &narrow), Err(ExpmanError::Arrow(_))));
    let other = rows_to_table(&[row(Some(1), 2, vec![("m", text("t"))])]);
    assert!(matches!(stack_tables(&a, &other), Err(ExpmanError::Arrow(_))));
}

fn record(step: FieldValue, tag: &str) -> Record {
    vec![("step".to_string(), step), ("tag".to_string(), FieldValue::Text(tag.to_string()))]
}

fn tags(records: &[Record]) -> Vec<String> {
    records
        .iter()
        .map(|r| match record_field(r, "tag") {
            Some(FieldValue::Text(t)) => t.clone(),
            _ => String::new(),
        })
        .collect()
}

#[test]
fn read_since_keeps_later_steps_and_rows_without_step() {
    let all = || {
        vec![
            record(FieldValue::Int(4), "four"),
            record(FieldValue::Int(5), "five"),
            record(FieldValue::Null, "none"),
            record(FieldValue::Int(6), "six"),
            record(FieldValue::Int(-3), "negative"),
            record(FieldValue::Float(1.0f64.to_bits()), "float"),
            record(FieldValue::Text("9".to_string()), "text"),
            vec![("tag".to_string(), FieldValue::Text("bare".to_string()))],
            record(FieldValue::Int(0), "zero"),
        ]
    };
    assert_eq!(tags(&rows_since(all(), Some(5))), vec!["none", "six", "negative", "float", "text", "bare"]);
    assert_eq!(rows_since(all(), None).len(), 9);
    assert_eq!(tags(&rows_since(all(), Some(0))), vec!["four", "five", "none", "six", "negative", "float", "text", "bare"]);
    // An integer below zero stands for a step of 2^63 or more: it is above
    // every smaller cursor and at or below the greatest.
    assert_eq!(tags(&rows_since(all(), Some(u64::MAX))), vec!["none", "float", "text", "bare"]);
    assert_eq!(tags(&rows_since(all(), Some(u64::MAX - 3))), vec!["none", "negative", "float", "text", "bare"]);
    assert_eq!(tags(&rows_since(all(), Some(u64::MAX - 2))), vec!["none", "float", "text", "bare"]);
    assert!(rows_since(vec![record(FieldValue::Int(-1), "last")], Some(u64::MAX)).is_empty());
    assert_eq!(rows_since(vec![record(FieldValue::Int(-1), "last")], Some(u64::MAX - 1)).len(), 1);
    assert!(rows_since(Vec::new(), Some(5)).is_empty());
    assert_eq!(step_of(&record(FieldValue::Int(5), "five")), Some(5));
    assert_eq!(step_of(&record(FieldValue::Int(-1), "x")), Some(u64::MAX));
    assert_eq!(step_of(&record(FieldValue::Int(i64::MIN), "x")), Some(1u64 << 63));
    assert_eq!(step_of(&record(FieldValue::Int(i64::MAX), "x")), Some((1u64 << 63) - 1));
    assert_eq!(step_of(&record(FieldValue::Null, "x")), None);
    assert_eq!(step_of(&record(FieldValue::Text("5".to_string()), "x")), None);
}

#[test]
fn latest_scalars_are_the_numbers_of_the_last_row() {
    let rows = vec![
        row(Some(1), 5, vec![("loss", float(0.5)), ("note", text("a")), ("bad", float(1.0))]),
        row(Some(2), 6, vec![("loss", float(0.25)), ("note", text("b")), ("bad", float(f64::NAN))]),
    ];
    let scalars = latest_scalars(&rows_to_table(&rows));
    let shown: Vec<(String, f64)> = scalars.into_iter().map(|(k, b)| (k, f64::from_bits(b))).collect();
    assert_eq!(shown, vec![("step".to_string(), 2.0), ("loss".to_string(), 0.25)]);
    assert!(latest_scalars(&rows_to_table(&[])).is_empty());
}

#[test]
fn well_formed_tables() {
    let good = rows_to_table(&[row(Some(0), 1, vec![("m", float(0.5))])]);
    assert!(good.is_well_formed());
    let mut short = good.clone();
    short.columns[2].cells.clear();
    assert!(!short.is_well_formed());
    let mut mixed = good.clone();
    mixed.columns[2].cells[0] = Cell::Text("x".to_string());
    assert!(!mixed.is_well_formed());
    let mut tall = good.clone();
    tall.height = 2;
    assert!(!tall.is_well_formed());
    assert!(Table { columns: vec![], height: 7 }.is_well_formed());
}

#[test]
fn the_cursor_of_a_stream_moves_past_what_was_handed_out() {
    let all = || {
        vec![
            record(FieldValue::Int(4), "four"),
            record(FieldValue::Null, "none"),
            record(FieldValue::Int(9), "nine"),
            record(FieldValue::Int(6), "six"),
            record(FieldValue::Float(1.0f64.to_bits()), "float"),
        ]
    };
    assert_eq!(advance_cursor(None, &Vec::new()), None);
    assert_eq!(advance_cursor(Some(3), &Vec::new()), Some(3));
    assert_eq!(advance_cursor(None, &all()), Some(9));
    assert_eq!(advance_cursor(Some(5), &all()), Some(9));
    assert_eq!(advance_cursor(Some(12), &all()), Some(12));
    assert_eq!(advance_cursor(None, &vec![record(FieldValue::Null, "none")]), None);
    // A second read with the moved cursor hands out only the rows without step.
    let first = rows_since(all(), None);
    let cursor = advance_cursor(None, &first);
    assert_eq!(tags(&rows_since(all(), cursor)), vec!["none", "float"]);
    assert_eq!(advance_cursor(Some(7), &vec![record(FieldValue::Int(-1), "last")]), Some(u64::MAX));
}

#[test]
fn rows_take_the_kinds_that_the_file_has() {
    let file = rows_to_table(&[row(Some(0), 1, vec![("t", text("a")), ("n", float(1.0))])]);
    let rows = vec![
        row(Some(1), 2, vec![("t", float(1.5)), ("n", text("x")), ("new", float(2.0))]),
        row(Some(2), 3, vec![("t", MetricValue::Int(3)), ("n", MetricValue::Int(4)), ("new", text("late"))]),
    ];
    assert!(!is_numeric_under(&file.columns, &rows, "t"));
    assert!(is_numeric_under(&file.columns, &rows, "n"));
    assert!(is_numeric_under(&file.columns, &rows, "new"));
    assert!(is_numeric_column(&rows, "t"));
    let fresh = rows_to_table_under(&file.columns, &rows);
    assert_eq!(names(&fresh), vec!["step", "timestamp", "t", "n", "new"]);
    assert_eq!(fresh.columns[2].kind, ColumnKind::Text);
    assert_eq!(string(&fresh.columns[2].cells[0]), Some("1.5"));
    assert_eq!(string(&fresh.columns[2].cells[1]), Some("3"));
    assert_eq!(fresh.columns[3].kind, ColumnKind::Float);
    assert!(matches!(fresh.columns[3].cells[0], Cell::Null));
    assert_eq!(number(&fresh.columns[3].cells[1]), Some(4.0));
    assert_eq!(fresh.columns[4].kind, ColumnKind::Float);
    assert_eq!(number(&fresh.columns[4].cells[0]), Some(2.0));
    assert!(matches!(fresh.columns[4].cells[1], Cell::Null));
    let all = append_tables(&file, &fresh).unwrap();
    assert_eq!(all.height, 3);
    assert_eq!(names(&all), vec!["step", "timestamp", "t", "n", "new"]);
    assert!(matches!(all.columns[4].cells[0], Cell::Null));
    // Typed by themselves, the same rows would clash with the file.
    assert!(matches!(append_tables(&file, &rows_to_table(&rows)), Err(ExpmanError::Arrow(_))));
    // With no columns to go by, the rows are typed by themselves.
    let alone = rows_to_table_under(&Vec::new(), &rows);
    assert_eq!(alone.columns[2].kind, ColumnKind::Float);
    assert_eq!(alone.columns[3].kind, ColumnKind::Text);
}
