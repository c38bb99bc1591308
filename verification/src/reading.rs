//! From a table to rows of named values, as a reader gets them: all of them,
//! those after a cursor, or the numbers of the last.

use vstd::prelude::*;
use crate::clock::{timestamp_text, timestamp_to_text};
use crate::numbers::{
    float_is_finite, i64_to_step, int_to_float_bits, is_finite_bits, spec_i64_to_step, widened_bits,
};
use crate::order::reversed;
use crate::table::{Cell, CellView, Table, TableView, column_wf};
use crate::text::str_eq;

verus! {

/// A value read from the store, as the contracts see it.
pub enum FieldValueView {
    Null,
    Float(u64),
    Int(i64),
    Text(Seq<char>),
}

/// A value read from the store. `Null` marks a missing value; a number is held
/// by its IEEE-754 bit pattern and is always finite.
#[derive(Debug, Clone)]
pub enum FieldValue {
    Null,
    Float(u64),
    Int(i64),
    Text(String),
}

impl View for FieldValue {
    type V = FieldValueView;

    open spec fn view(&self) -> FieldValueView {
        match self {
            FieldValue::Null => FieldValueView::Null,
            FieldValue::Float(bits) => FieldValueView::Float(*bits),
            FieldValue::Int(i) => FieldValueView::Int(*i),
            FieldValue::Text(s) => FieldValueView::Text(s@),
        }
    }
}

/// A row read from the store, as the contracts see it: names with values, in the
/// order of the columns.
pub type RecordView = Seq<(Seq<char>, FieldValueView)>;

/// A row read from the store. Where a name occurs twice, the later entry counts.
pub type Record = Vec<(String, FieldValue)>;

/// The contract-level content of a row.
pub open spec fn record_view(record: Seq<(String, FieldValue)>) -> RecordView {
    Seq::new(record.len(), |i: int| (record[i].0@, record[i].1@))
}

/// The contract-level content of a list of rows.
pub open spec fn records_view(records: Seq<Record>) -> Seq<RecordView> {
    Seq::new(records.len(), |i: int| record_view(records[i]@))
}

/// The time of a row as a reader gets it: the RFC 3339 text of the instant,
/// and that of the epoch for an instant out of the calendar's range.
pub open spec fn shown_time(micros: i64) -> Seq<char> {
    match timestamp_text(micros) {
        Some(text) => text,
        None => "1970-01-01T00:00:00+00:00"@,
    }
}

/// What a reader gets for a cell: a number that is not finite reads as missing,
/// a timestamp as its RFC 3339 text.
pub open spec fn read_cell(cell: CellView) -> FieldValueView {
    match cell {
        CellView::Null => FieldValueView::Null,
        CellView::Float(bits) => if is_finite_bits(bits) {
            FieldValueView::Float(bits)
        } else {
            FieldValueView::Null
        },
        CellView::Int(i) => FieldValueView::Int(i),
        CellView::Timestamp(t) => FieldValueView::Text(shown_time(t)),
        CellView::Text(s) => FieldValueView::Text(s),
    }
}

/// Row `r` of a table.
pub open spec fn record_of(table: TableView, r: int) -> RecordView {
    Seq::new(
        table.columns.len(),
        |c: int| (table.columns[c].name, read_cell(table.columns[c].cells[r])),
    )
}

/// The rows of a table, in order.
pub open spec fn records_of(table: TableView) -> Seq<RecordView> {
    Seq::new(table.height, |r: int| record_of(table, r))
}

/// Reads one cell.
pub fn read_value(cell: &Cell) -> (v: FieldValue)
    ensures
        v@ == read_cell(cell@),
{
    match cell {
        Cell::Null => FieldValue::Null,
        Cell::Float(bits) => if float_is_finite(*bits) {
            FieldValue::Float(*bits)
        } else {
            FieldValue::Null
        },
        Cell::Int(i) => FieldValue::Int(*i),
        Cell::Timestamp(t) => FieldValue::Text(
            match timestamp_to_text(*t) {
                Some(text) => text,
                None => "1970-01-01T00:00:00+00:00".to_owned(),
            },
        ),
        Cell::Text(s) => FieldValue::Text(s.clone()),
    }
}

/// Reads row `r` of a table.
pub fn table_record(table: &Table, r: usize) -> (record: Record)
    requires
        table@.wf(),
        r < table.height,
    ensures
        record_view(record@) == record_of(table@, r as int),
{
    let mut record: Record = Vec::new();
    let mut c: usize = 0;
    while c < table.columns.len()
        invariant
            c <= table.columns.len(),
            table@.wf(),
            r < table.height,
            record@.len() == c,
            forall|k: int|
                0 <= k < c ==> (#[trigger] record@[k]).0@ == table@.columns[k].name && record@[k].1@
                    == read_cell(table@.columns[k].cells[r as int]),
        decreases table.columns.len() - c,
    {
        let column = &table.columns[c];
        assert(column_wf(table@.columns[c as int], table@.height));
        assert(table@.columns[c as int].cells[r as int] == column.cells@[r as int]@);
        record.push((column.name.clone(), read_value(&column.cells[r])));
        c += 1;
    }
    assert(record_view(record@) =~= record_of(table@, r as int));
    record
}

/// Reads every row of a table, in order.
pub fn table_to_rows(table: &Table) -> (records: Vec<Record>)
    requires
        table@.wf(),
    ensures
        records_view(records@) == records_of(table@),
{
    let mut records: Vec<Record> = Vec::new();
    let mut r: usize = 0;
    while r < table.height
        invariant
            r <= table.height,
            table@.wf(),
            records@.len() == r,
            forall|k: int| 0 <= k < r ==> record_view((#[trigger] records@[k])@) == record_of(table@, k),
        decreases table.height - r,
    {
        records.push(table_record(table, r));
        r += 1;
    }
    assert(records_view(records@) =~= records_of(table@));
    records
}

/// The value that a row gives a name: that of the last entry under the name.
pub open spec fn field_lookup(record: RecordView, name: Seq<char>) -> Option<FieldValueView>
    decreases record.len(),
{
    if record.len() == 0 {
        None
    } else if record.last().0 == name {
        Some(record.last().1)
    } else {
        field_lookup(record.drop_last(), name)
    }
}

/// The value of the last entry of a row under `name`, if there is one.
pub fn record_field<'a>(record: &'a Record, name: &str) -> (r: Option<&'a FieldValue>)
    ensures
        match r {
            Some(v) => field_lookup(record_view(record@), name@) == Some(v@),
            None => field_lookup(record_view(record@), name@) is None,
        },
{
    let ghost all = record_view(record@);
    let mut i: usize = record.len();
    assert(all.take(i as int) =~= all);
    while i > 0
        invariant
            i <= record.len(),
            all == record_view(record@),
            field_lookup(all, name@) == field_lookup(all.take(i as int), name@),
        decreases i,
    {
        i -= 1;
        assert(all.take(i + 1).drop_last() =~= all.take(i as int));
        assert(all.take(i + 1).last() == all[i as int]);
        if str_eq(record[i].0.as_str(), name) {
            return Some(&record[i].1);
        }
    }
    None
}

/// The step of a row: the integer under `step`, read as the unsigned number
/// that it was stored for, so that every step that was logged reads back as
/// itself. A row has no step where the value under `step` is missing, absent
/// or no integer.
pub open spec fn record_step(record: RecordView) -> Option<u64> {
    match field_lookup(record, "step"@) {
        Some(FieldValueView::Int(stored)) => Some(spec_i64_to_step(stored)),
        _ => None,
    }
}

/// Whether a row counts as newer than the cursor `since`: its step is greater,
/// or it has no step.
pub open spec fn is_newer(record: RecordView, since: u64) -> bool {
    match record_step(record) {
        Some(step) => step > since,
        None => true,
    }
}

/// The rows that are newer than `since`, in their order.
pub open spec fn newer_records(records: Seq<RecordView>, since: u64) -> Seq<RecordView>
    decreases records.len(),
{
    if records.len() == 0 {
        Seq::empty()
    } else {
        let rest = newer_records(records.drop_last(), since);
        if is_newer(records.last(), since) {
            rest.push(records.last())
        } else {
            rest
        }
    }
}

/// The rows to hand out for a cursor: all of them where there is none.
pub open spec fn records_since(records: Seq<RecordView>, since: Option<u64>) -> Seq<RecordView> {
    match since {
        Some(s) => newer_records(records, s),
        None => records,
    }
}

/// The step of a row, if it has one.
pub fn step_of(record: &Record) -> (r: Option<u64>)
    ensures
        r == record_step(record_view(record@)),
{
    match record_field(record, "step") {
        Some(FieldValue::Int(stored)) => Some(i64_to_step(*stored)),
        _ => None,
    }
}

/// Keeps the rows that are newer than the cursor; all of them where there is none.
pub fn rows_since(records: Vec<Record>, since: Option<u64>) -> (kept: Vec<Record>)
    ensures
        records_view(kept@) == records_since(records_view(records@), since),
{
    let cursor = match since {
        Some(s) => s,
        None => {
            return records;
        },
    };
    let ghost all = records_view(records@);
    let mut kept: Vec<Record> = Vec::new();
    // Rows are moved, not copied: taken off the end of the reversed list, they
    // come in their order.
    let mut stack = reversed(records);
    assert(records_view(stack@) =~= all.reverse());
    assert(all.reverse().reverse() =~= all);
    assert(all.skip(0) =~= all);
    let ghost n = all.len() as int;
    assert(all.take(0) =~= Seq::empty());
    while stack.len() > 0
        invariant
            n == all.len(),
            stack@.len() <= n,
            records_view(stack@).reverse() == all.skip(n - stack@.len()),
            records_view(kept@) == newer_records(all.take(n - stack@.len()), cursor),
        decreases stack.len(),
    {
        let ghost before_stack = records_view(stack@);
        let ghost before_kept = records_view(kept@);
        let ghost at = n - stack@.len();
        let record = stack.pop().unwrap();
        assert(records_view(stack@) =~= before_stack.drop_last());
        assert(before_stack.reverse()[0] == before_stack.last());
        assert(record_view(record@) == all[at]);
        assert(records_view(stack@).reverse() =~= before_stack.reverse().skip(1));
        assert(all.skip(at).skip(1) =~= all.skip(at + 1));
        assert(all.take(at + 1).drop_last() =~= all.take(at));
        assert(all.take(at + 1).last() == all[at]);
        let newer = match step_of(&record) {
            Some(step) => step > cursor,
            None => true,
        };
        if newer {
            kept.push(record);
            assert(records_view(kept@) =~= before_kept.push(all[at]));
        }
    }
    assert(all.take(n) =~= all);
    kept
}

/// The greater of a cursor and a step; the step where there is no cursor.
pub open spec fn raised(cursor: Option<u64>, step: u64) -> Option<u64> {
    match cursor {
        Some(c) => if step > c {
            Some(step)
        } else {
            Some(c)
        },
        None => Some(step),
    }
}

/// The cursor of a stream after rows were handed out: the greatest step among
/// them and the cursor that was.
pub open spec fn cursor_after(cursor: Option<u64>, records: Seq<RecordView>) -> Option<u64>
    decreases records.len(),
{
    if records.len() == 0 {
        cursor
    } else {
        let before = cursor_after(cursor, records.drop_last());
        match record_step(records.last()) {
            Some(step) => raised(before, step),
            None => before,
        }
    }
}

/// Moves the cursor of a stream past the rows that were handed out.
pub fn advance_cursor(cursor: Option<u64>, records: &Vec<Record>) -> (r: Option<u64>)
    ensures
        r == cursor_after(cursor, records_view(records@)),
{
    let ghost all = records_view(records@);
    let mut current = cursor;
    let mut i: usize = 0;
    assert(all.take(0) =~= Seq::empty());
    while i < records.len()
        invariant
            i <= records.len(),
            all == records_view(records@),
            current == cursor_after(cursor, all.take(i as int)),
        decreases records.len() - i,
    {
        assert(all.take(i + 1).drop_last() =~= all.take(i as int));
        assert(all.take(i + 1).last() == record_view(records@[i as int]@));
        match step_of(&records[i]) {
            Some(step) => {
                current = match current {
                    Some(c) => if step > c {
                        Some(step)
                    } else {
                        Some(c)
                    },
                    None => Some(step),
                };
            },
            None => {},
        }
        i += 1;
    }
    assert(all.take(i as int) =~= all);
    current
}

/// What a dashboard summary shows for a value: a number as it is, an integer
/// widened, nothing for text or a missing value.
pub open spec fn scalar_of(value: FieldValueView) -> Option<u64> {
    match value {
        FieldValueView::Float(bits) => Some(bits),
        FieldValueView::Int(i) => Some(widened_bits(i)),
        _ => None,
    }
}

/// The numeric fields of a row, each with its number's bits, in order.
pub open spec fn scalars_of(record: RecordView) -> Seq<(Seq<char>, u64)>
    decreases record.len(),
{
    if record.len() == 0 {
        Seq::empty()
    } else {
        let rest = scalars_of(record.drop_last());
        match scalar_of(record.last().1) {
            Some(bits) => rest.push((record.last().0, bits)),
            None => rest,
        }
    }
}

/// The numeric fields of the last row; none where there is no row.
pub open spec fn latest_scalars_of(records: Seq<RecordView>) -> Seq<(Seq<char>, u64)> {
    if records.len() == 0 {
        Seq::empty()
    } else {
        scalars_of(records.last())
    }
}

/// The contract-level content of a list of named numbers.
pub open spec fn scalars_view(scalars: Seq<(String, u64)>) -> Seq<(Seq<char>, u64)> {
    Seq::new(scalars.len(), |i: int| (scalars[i].0@, scalars[i].1))
}

/// The numeric fields of a row.
pub fn record_scalars(record: &Record) -> (scalars: Vec<(String, u64)>)
    ensures
        scalars_view(scalars@) == scalars_of(record_view(record@)),
{
    let ghost all = record_view(record@);
    let mut scalars: Vec<(String, u64)> = Vec::new();
    let mut i: usize = 0;
    assert(all.take(0) =~= Seq::empty());
    while i < record.len()
        invariant
            i <= record.len(),
            all == record_view(record@),
            scalars_view(scalars@) == scalars_of(all.take(i as int)),
        decreases record.len() - i,
    {
        let ghost before = scalars_view(scalars@);
        assert(all.take(i + 1).drop_last() =~= all.take(i as int));
        assert(all.take(i + 1).last() == all[i as int]);
        match &record[i].1 {
            FieldValue::Float(bits) => {
                scalars.push((record[i].0.clone(), *bits));
                assert(scalars_view(scalars@) =~= before.push((all[i as int].0, *bits)));
            },
            FieldValue::Int(v) => {
                let bits = int_to_float_bits(*v);
                scalars.push((record[i].0.clone(), bits));
                assert(scalars_view(scalars@) =~= before.push((all[i as int].0, bits)));
            },
            _ => {},
        }
        i += 1;
    }
    assert(all.take(i as int) =~= all);
    scalars
}

/// The numeric fields of the last row of a table; none where it has no row.
pub fn latest_scalars(table: &Table) -> (scalars: Vec<(String, u64)>)
    requires
        table@.wf(),
    ensures
        scalars_view(scalars@) == latest_scalars_of(records_of(table@)),
{
    if table.height == 0 {
        return Vec::new();
    }
    let record = table_record(table, table.height - 1);
    record_scalars(&record)
}

} // verus!
