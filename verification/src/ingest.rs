//! From logged rows to a table: which columns there are, of which kind, and
//! what each cell holds. The first appearance of a metric name decides the
//! kind of its column for the whole file: in a new file the first value of the
//! rows, in a file that has the name the kind it has there.

use vstd::prelude::*;
use crate::append::{find_column, index_of};
use crate::models::{MetricRow, MetricRowView, MetricValue, MetricValueView, rows_view, values_view};
use crate::numbers::{
    float_text, float_to_text, int_text, int_to_float_bits, int_to_text, spec_step_to_i64,
    step_to_i64, widened_bits,
};
use crate::table::{
    Cell, CellView, Column, ColumnKind, ColumnView, Table, TableView, column_wf, columns_view,
    strings_view,
};
use crate::text::str_eq;

verus! {

/// The value that a list of named values gives a name: that of the last entry
/// under the name.
pub open spec fn lookup(values: Seq<(Seq<char>, MetricValueView)>, key: Seq<char>) -> Option<
    MetricValueView,
>
    decreases values.len(),
{
    if values.len() == 0 {
        None
    } else if values.last().0 == key {
        Some(values.last().1)
    } else {
        lookup(values.drop_last(), key)
    }
}

/// `keys`, with `key` added at the end unless it is there already.
pub open spec fn with_key(keys: Seq<Seq<char>>, key: Seq<char>) -> Seq<Seq<char>> {
    if keys.contains(key) {
        keys
    } else {
        keys.push(key)
    }
}

/// `keys`, extended by the names of `values` that it lacks, in their order.
pub open spec fn keys_with_values(keys: Seq<Seq<char>>, values: Seq<(Seq<char>, MetricValueView)>) -> Seq<
    Seq<char>,
>
    decreases values.len(),
{
    if values.len() == 0 {
        keys
    } else {
        with_key(keys_with_values(keys, values.drop_last()), values.last().0)
    }
}

/// The metric names that occur in the rows, each once, in the order of their
/// first appearance.
pub open spec fn metric_keys(rows: Seq<MetricRowView>) -> Seq<Seq<char>>
    decreases rows.len(),
{
    if rows.len() == 0 {
        Seq::empty()
    } else {
        keys_with_values(metric_keys(rows.drop_last()), rows.last().values)
    }
}

/// The value under `key` in the first row that has one.
pub open spec fn first_value(rows: Seq<MetricRowView>, key: Seq<char>) -> Option<MetricValueView>
    decreases rows.len(),
{
    if rows.len() == 0 {
        None
    } else {
        match first_value(rows.drop_last(), key) {
            Some(v) => Some(v),
            None => lookup(rows.last().values, key),
        }
    }
}

/// Whether a value is a number, integer or not.
pub open spec fn is_numeric(value: MetricValueView) -> bool {
    value is Float || value is Int
}

/// Whether the column of `key` is numeric: the first value logged under the name
/// is a number.
pub open spec fn numeric_column(rows: Seq<MetricRowView>, key: Seq<char>) -> bool {
    match first_value(rows, key) {
        Some(v) => is_numeric(v),
        None => false,
    }
}

/// The cell that a numeric column holds for a value: numbers are kept, integers
/// widened, anything else is missing.
pub open spec fn numeric_cell(value: Option<MetricValueView>) -> CellView {
    match value {
        Some(MetricValueView::Float(bits)) => CellView::Float(bits),
        Some(MetricValueView::Int(i)) => CellView::Float(widened_bits(i)),
        _ => CellView::Null,
    }
}

/// The text of a truth value.
pub open spec fn bool_text(b: bool) -> Seq<char> {
    if b {
        "true"@
    } else {
        "false"@
    }
}

/// The cell that a text column holds for a value: text is kept, anything else
/// is written out as text.
pub open spec fn text_cell(value: Option<MetricValueView>) -> CellView {
    match value {
        Some(MetricValueView::Text(s)) => CellView::Text(s),
        Some(MetricValueView::Bool(b)) => CellView::Text(bool_text(b)),
        Some(MetricValueView::Float(bits)) => CellView::Text(float_text(bits)),
        Some(MetricValueView::Int(i)) => CellView::Text(int_text(i as int)),
        None => CellView::Null,
    }
}

/// The cell of the step column for a row's step.
pub open spec fn step_cell(step: Option<u64>) -> CellView {
    match step {
        Some(s) => CellView::Int(spec_step_to_i64(s)),
        None => CellView::Null,
    }
}

/// The column `step` of the rows.
pub open spec fn step_column_of(rows: Seq<MetricRowView>) -> ColumnView {
    ColumnView {
        name: "step"@,
        kind: ColumnKind::Int,
        nullable: true,
        cells: Seq::new(rows.len(), |i: int| step_cell(rows[i].step)),
    }
}

/// The column `timestamp` of the rows.
pub open spec fn timestamp_column_of(rows: Seq<MetricRowView>) -> ColumnView {
    ColumnView {
        name: "timestamp"@,
        kind: ColumnKind::Timestamp,
        nullable: false,
        cells: Seq::new(rows.len(), |i: int| CellView::Timestamp(rows[i].timestamp)),
    }
}

/// The column of the metric `key` of rows that go to a new file: numeric if
/// the first value logged under the name is a number, text otherwise; one cell
/// for each row.
pub open spec fn metric_column_of(rows: Seq<MetricRowView>, key: Seq<char>) -> ColumnView {
    metric_column_as(rows, key, numeric_column(rows, key))
}

/// The table of a batch of rows: `step`, `timestamp`, then one column for each
/// metric name in the order of first appearance.
pub open spec fn table_of_rows(rows: Seq<MetricRowView>) -> TableView {
    let keys = metric_keys(rows);
    TableView {
        columns: seq![step_column_of(rows), timestamp_column_of(rows)] + Seq::new(
            keys.len(),
            |k: int| metric_column_of(rows, keys[k]),
        ),
        height: rows.len(),
    }
}

/// The kind that a file fixes for a metric name: that of its column of the
/// name, where that is a column of numbers or of text.
pub open spec fn fixed_kind(schema: Seq<ColumnView>, key: Seq<char>) -> Option<ColumnKind> {
    let i = index_of(schema, key, 0);
    if i < schema.len() && (schema[i].kind == ColumnKind::Float || schema[i].kind == ColumnKind::Text) {
        Some(schema[i].kind)
    } else {
        None
    }
}

/// Whether the column of `key` is numeric when the rows go to a file with the
/// given columns: the first appearance of a name decides for the whole file,
/// so the file's kind stands where it has the name, and the first value in
/// the rows decides where it has not.
pub open spec fn numeric_under(schema: Seq<ColumnView>, rows: Seq<MetricRowView>, key: Seq<char>) -> bool {
    match fixed_kind(schema, key) {
        Some(kind) => kind == ColumnKind::Float,
        None => numeric_column(rows, key),
    }
}

/// The column of the metric `key` with its kind given: in a numeric column
/// numbers are kept, integers widened and anything else is missing; in a text
/// column everything is written out as text.
pub open spec fn metric_column_as(rows: Seq<MetricRowView>, key: Seq<char>, numeric: bool) -> ColumnView {
    if numeric {
        ColumnView {
            name: key,
            kind: ColumnKind::Float,
            nullable: true,
            cells: Seq::new(rows.len(), |i: int| numeric_cell(lookup(rows[i].values, key))),
        }
    } else {
        ColumnView {
            name: key,
            kind: ColumnKind::Text,
            nullable: true,
            cells: Seq::new(rows.len(), |i: int| text_cell(lookup(rows[i].values, key))),
        }
    }
}

/// The table of a batch of rows that go to a file with the given columns:
/// `step`, `timestamp`, then one column for each metric name in the order of
/// first appearance, each of the kind that the file has for the name.
pub open spec fn table_under(schema: Seq<ColumnView>, rows: Seq<MetricRowView>) -> TableView {
    let keys = metric_keys(rows);
    TableView {
        columns: seq![step_column_of(rows), timestamp_column_of(rows)] + Seq::new(
            keys.len(),
            |k: int| metric_column_as(rows, keys[k], numeric_under(schema, rows, keys[k])),
        ),
        height: rows.len(),
    }
}

/// The value of the last entry under `key`, if there is one.
pub fn lookup_value<'a>(values: &'a Vec<(String, MetricValue)>, key: &str) -> (r: Option<
    &'a MetricValue,
>)
    ensures
        match r {
            Some(v) => lookup(values_view(values@), key@) == Some(v@),
            None => lookup(values_view(values@), key@) is None,
        },
{
    let ghost all = values_view(values@);
    let mut i: usize = values.len();
    assert(all.take(i as int) =~= all);
    while i > 0
        invariant
            i <= values.len(),
            all == values_view(values@),
            lookup(all, key@) == lookup(all.take(i as int), key@),
        decreases i,
    {
        i -= 1;
        assert(all.take(i + 1).drop_last() =~= all.take(i as int));
        assert(all.take(i + 1).last() == all[i as int]);
        if str_eq(values[i].0.as_str(), key) {
            return Some(&values[i].1);
        }
    }
    None
}

/// Whether `key` is among `keys`.
fn has_key(keys: &Vec<String>, key: &str) -> (r: bool)
    ensures
        r == strings_view(keys@).contains(key@),
{
    let mut i: usize = 0;
    while i < keys.len()
        invariant
            i <= keys.len(),
            forall|k: int| 0 <= k < i ==> strings_view(keys@)[k] != key@,
        decreases keys.len() - i,
    {
        if str_eq(keys[i].as_str(), key) {
            assert(strings_view(keys@)[i as int] == key@);
            return true;
        }
        i += 1;
    }
    false
}

/// The metric names of the rows, each once, in the order of first appearance.
pub fn collect_keys(rows: &[MetricRow]) -> (keys: Vec<String>)
    ensures
        strings_view(keys@) == metric_keys(rows_view(rows@)),
{
    let ghost all = rows_view(rows@);
    let mut keys: Vec<String> = Vec::new();
    let mut i: usize = 0;
    assert(strings_view(keys@) =~= metric_keys(all.take(0)));
    while i < rows.len()
        invariant
            i <= rows.len(),
            all == rows_view(rows@),
            strings_view(keys@) == metric_keys(all.take(i as int)),
        decreases rows.len() - i,
    {
        let values = &rows[i].values;
        let ghost row = values_view(values@);
        let ghost before = metric_keys(all.take(i as int));
        let mut j: usize = 0;
        assert(row.take(0) =~= Seq::empty());
        while j < values.len()
            invariant
                j <= values.len(),
                row == values_view(values@),
                strings_view(keys@) == keys_with_values(before, row.take(j as int)),
            decreases values.len() - j,
        {
            let ghost prior = strings_view(keys@);
            assert(row.take(j + 1).drop_last() =~= row.take(j as int));
            assert(row.take(j + 1).last() == row[j as int]);
            if !has_key(&keys, values[j].0.as_str()) {
                keys.push(values[j].0.clone());
                assert(strings_view(keys@) =~= prior.push(row[j as int].0));
            }
            j += 1;
        }
        assert(row.take(j as int) =~= row);
        assert(all.take(i + 1).drop_last() =~= all.take(i as int));
        assert(all.take(i + 1).last() == all[i as int]);
        i += 1;
    }
    assert(all.take(i as int) =~= all);
    keys
}

/// Once a row has a value under `key`, later rows do not change which value is
/// the first.
pub proof fn lemma_first_value_stable(rows: Seq<MetricRowView>, key: Seq<char>, i: int)
    requires
        0 <= i <= rows.len(),
        first_value(rows.take(i), key) is Some,
    ensures
        first_value(rows, key) == first_value(rows.take(i), key),
    decreases rows.len() - i,
{
    if i < rows.len() {
        assert(rows.take(i + 1).drop_last() =~= rows.take(i));
        lemma_first_value_stable(rows, key, i + 1);
    } else {
        assert(rows.take(i) =~= rows);
    }
}

/// Whether the first value logged under `key` is a number.
pub fn is_numeric_column(rows: &[MetricRow], key: &str) -> (r: bool)
    ensures
        r == numeric_column(rows_view(rows@), key@),
{
    let ghost all = rows_view(rows@);
    let mut i: usize = 0;
    while i < rows.len()
        invariant
            i <= rows.len(),
            all == rows_view(rows@),
            first_value(all.take(i as int), key@) is None,
        decreases rows.len() - i,
    {
        assert(all.take(i + 1).drop_last() =~= all.take(i as int));
        assert(all.take(i + 1).last() == all[i as int]);
        match lookup_value(&rows[i].values, key) {
            Some(v) => {
                proof {
                    lemma_first_value_stable(all, key@, i + 1);
                }
                return match v {
                    MetricValue::Float(_) => true,
                    MetricValue::Int(_) => true,
                    _ => false,
                };
            },
            None => {},
        }
        i += 1;
    }
    assert(all.take(i as int) =~= all);
    false
}

/// The column `step` of the rows.
pub fn step_column(rows: &[MetricRow]) -> (c: Column)
    ensures
        c@ == step_column_of(rows_view(rows@)),
{
    let ghost all = rows_view(rows@);
    let mut cells: Vec<Cell> = Vec::new();
    let mut i: usize = 0;
    while i < rows.len()
        invariant
            i <= rows.len(),
            all == rows_view(rows@),
            cells@.len() == i,
            forall|k: int| 0 <= k < i ==> (#[trigger] cells@[k])@ == step_cell(all[k].step),
        decreases rows.len() - i,
    {
        let cell = match rows[i].step {
            Some(s) => Cell::Int(step_to_i64(s)),
            None => Cell::Null,
        };
        cells.push(cell);
        i += 1;
    }
    let c = Column { name: "step".to_owned(), kind: ColumnKind::Int, nullable: true, cells };
    assert(c@.cells =~= step_column_of(all).cells);
    c
}

/// The column `timestamp` of the rows.
pub fn timestamp_column(rows: &[MetricRow]) -> (c: Column)
    ensures
        c@ == timestamp_column_of(rows_view(rows@)),
{
    let ghost all = rows_view(rows@);
    let mut cells: Vec<Cell> = Vec::new();
    let mut i: usize = 0;
    while i < rows.len()
        invariant
            i <= rows.len(),
            all == rows_view(rows@),
            cells@.len() == i,
            forall|k: int| 0 <= k < i ==> (#[trigger] cells@[k])@ == CellView::Timestamp(all[k].timestamp),
        decreases rows.len() - i,
    {
        cells.push(Cell::Timestamp(rows[i].timestamp));
        i += 1;
    }
    let c = Column {
        name: "timestamp".to_owned(),
        kind: ColumnKind::Timestamp,
        nullable: false,
        cells,
    };
    assert(c@.cells =~= timestamp_column_of(all).cells);
    c
}

/// The cell of a numeric column for a row's value under the column's name.
pub fn to_numeric_cell(value: Option<&MetricValue>) -> (c: Cell)
    ensures
        c@ == numeric_cell(
            match value {
                Some(v) => Some(v@),
                None => None,
            },
        ),
{
    match value {
        Some(MetricValue::Float(bits)) => Cell::Float(*bits),
        Some(MetricValue::Int(i)) => Cell::Float(int_to_float_bits(*i)),
        _ => Cell::Null,
    }
}

/// The cell of a text column for a row's value under the column's name.
pub fn to_text_cell(value: Option<&MetricValue>) -> (c: Cell)
    ensures
        c@ == text_cell(
            match value {
                Some(v) => Some(v@),
                None => None,
            },
        ),
{
    match value {
        Some(MetricValue::Text(s)) => Cell::Text(s.clone()),
        Some(MetricValue::Bool(b)) => Cell::Text(
            if *b {
                "true".to_owned()
            } else {
                "false".to_owned()
            },
        ),
        Some(MetricValue::Float(bits)) => Cell::Text(float_to_text(*bits)),
        Some(MetricValue::Int(i)) => Cell::Text(int_to_text(*i)),
        None => Cell::Null,
    }
}

/// The column of the metric `key`, numeric or text as asked.
pub fn metric_column_with(rows: &[MetricRow], key: &str, numeric: bool) -> (c: Column)
    ensures
        c@ == metric_column_as(rows_view(rows@), key@, numeric),
{
    let ghost all = rows_view(rows@);
    let mut cells: Vec<Cell> = Vec::new();
    let mut i: usize = 0;
    while i < rows.len()
        invariant
            i <= rows.len(),
            all == rows_view(rows@),
            cells@.len() == i,
            forall|k: int|
                0 <= k < i ==> (#[trigger] cells@[k])@ == if numeric {
                    numeric_cell(lookup(all[k].values, key@))
                } else {
                    text_cell(lookup(all[k].values, key@))
                },
        decreases rows.len() - i,
    {
        let value = lookup_value(&rows[i].values, key);
        let cell = if numeric {
            to_numeric_cell(value)
        } else {
            to_text_cell(value)
        };
        cells.push(cell);
        i += 1;
    }
    let kind = if numeric {
        ColumnKind::Float
    } else {
        ColumnKind::Text
    };
    let c = Column { name: key.to_owned(), kind, nullable: true, cells };
    assert(c@.cells =~= metric_column_as(all, key@, numeric).cells);
    c
}

/// The column of the metric `key` of rows that go to a new file.
pub fn metric_column(rows: &[MetricRow], key: &str) -> (c: Column)
    ensures
        c@ == metric_column_of(rows_view(rows@), key@),
{
    let numeric = is_numeric_column(rows, key);
    metric_column_with(rows, key, numeric)
}

/// Whether the column of `key` is numeric when the rows go to a file with the
/// given columns.
pub fn is_numeric_under(schema: &Vec<Column>, rows: &[MetricRow], key: &str) -> (r: bool)
    ensures
        r == numeric_under(columns_view(schema@), rows_view(rows@), key@),
{
    match find_column(schema, key) {
        Some(i) => {
            assert(columns_view(schema@)[i as int] == schema@[i as int]@);
            match schema[i].kind {
                ColumnKind::Float => true,
                ColumnKind::Text => false,
                _ => is_numeric_column(rows, key),
            }
        },
        None => is_numeric_column(rows, key),
    }
}

/// Every cell of a column that comes from logged rows is of the column's kind.
pub proof fn lemma_table_of_rows_wf(rows: Seq<MetricRowView>)
    ensures
        table_of_rows(rows).wf(),
{
    let t = table_of_rows(rows);
    let keys = metric_keys(rows);
    assert forall|c: int| 0 <= c < t.columns.len() implies column_wf(#[trigger] t.columns[c], t.height) by {
        if c >= 2 {
            assert(t.columns[c] == metric_column_of(rows, keys[c - 2]));
        }
    }
}

/// Builds the table of a batch of logged rows.
pub fn rows_to_table(rows: &[MetricRow]) -> (t: Table)
    ensures
        t@ == table_of_rows(rows_view(rows@)),
        t@.wf(),
{
    let ghost all = rows_view(rows@);
    let keys = collect_keys(rows);
    let mut columns: Vec<Column> = Vec::new();
    columns.push(step_column(rows));
    columns.push(timestamp_column(rows));
    let mut k: usize = 0;
    while k < keys.len()
        invariant
            k <= keys.len(),
            all == rows_view(rows@),
            strings_view(keys@) == metric_keys(all),
            columns@.len() == k + 2,
            columns@[0]@ == step_column_of(all),
            columns@[1]@ == timestamp_column_of(all),
            forall|c: int|
                0 <= c < k ==> (#[trigger] columns@[c + 2])@ == metric_column_of(
                    all,
                    metric_keys(all)[c],
                ),
        decreases keys.len() - k,
    {
        assert(strings_view(keys@)[k as int] == keys@[k as int]@);
        columns.push(metric_column(rows, keys[k].as_str()));
        k += 1;
    }
    let t = Table { columns, height: rows.len() };
    proof {
        let want = table_of_rows(all);
        assert(t@.columns.len() == want.columns.len());
        assert forall|c: int| 0 <= c < t@.columns.len() implies t@.columns[c] == want.columns[c] by {
            if c >= 2 {
                assert(columns@[(c - 2) + 2]@ == metric_column_of(all, metric_keys(all)[c - 2]));
            }
        }
        assert(t@.columns =~= want.columns);
        lemma_table_of_rows_wf(all);
    }
    t
}

/// Every cell of a column that comes from logged rows is of the column's
/// kind, whatever the file they go to.
pub proof fn lemma_table_under_wf(schema: Seq<ColumnView>, rows: Seq<MetricRowView>)
    ensures
        table_under(schema, rows).wf(),
{
    let t = table_under(schema, rows);
    let keys = metric_keys(rows);
    assert forall|c: int| 0 <= c < t.columns.len() implies column_wf(#[trigger] t.columns[c], t.height) by {
        if c >= 2 {
            assert(t.columns[c] == metric_column_as(rows, keys[c - 2], numeric_under(schema, rows, keys[c - 2])));
        }
    }
}

/// Builds the table of a batch of logged rows that go to a file with the given
/// columns: a metric that the file has as numbers or as text keeps that kind.
pub fn rows_to_table_under(schema: &Vec<Column>, rows: &[MetricRow]) -> (t: Table)
    ensures
        t@ == table_under(columns_view(schema@), rows_view(rows@)),
        t@.wf(),
{
    let ghost all = rows_view(rows@);
    let ghost fixed = columns_view(schema@);
    let keys = collect_keys(rows);
    let mut columns: Vec<Column> = Vec::new();
    columns.push(step_column(rows));
    columns.push(timestamp_column(rows));
    let mut k: usize = 0;
    while k < keys.len()
        invariant
            k <= keys.len(),
            all == rows_view(rows@),
            fixed == columns_view(schema@),
            strings_view(keys@) == metric_keys(all),
            columns@.len() == k + 2,
            columns@[0]@ == step_column_of(all),
            columns@[1]@ == timestamp_column_of(all),
            forall|c: int|
                0 <= c < k ==> (#[trigger] columns@[c + 2])@ == metric_column_as(
                    all,
                    metric_keys(all)[c],
                    numeric_under(fixed, all, metric_keys(all)[c]),
                ),
        decreases keys.len() - k,
    {
        assert(strings_view(keys@)[k as int] == keys@[k as int]@);
        let numeric = is_numeric_under(schema, rows, keys[k].as_str());
        columns.push(metric_column_with(rows, keys[k].as_str(), numeric));
        k += 1;
    }
    let t = Table { columns, height: rows.len() };
    proof {
        let want = table_under(fixed, all);
        assert(t@.columns.len() == want.columns.len());
        assert forall|c: int| 0 <= c < t@.columns.len() implies t@.columns[c] == want.columns[c] by {
            if c >= 2 {
                assert(columns@[(c - 2) + 2]@ == metric_column_as(
                    all,
                    metric_keys(all)[c - 2],
                    numeric_under(fixed, all, metric_keys(all)[c - 2]),
                ));
            }
        }
        assert(t@.columns =~= want.columns);
        lemma_table_under_wf(fixed, all);
    }
    t
}

} // verus!
