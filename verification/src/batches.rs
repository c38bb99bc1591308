//! Why it does not matter how logged rows are cut into batches: two appends
//! give a reader the same rows as one append of both batches.

use vstd::prelude::*;
use crate::append::{
    added_columns, aligned_cells, appended, appended_column, has_column, index_of, lemma_index_of,
    merged_fields, nulls,
};
use crate::ingest::{
    first_value, fixed_kind, keys_with_values, lookup, metric_column_as, metric_keys, numeric_cell,
    numeric_column, numeric_under, step_cell, step_column_of, table_under, text_cell,
    timestamp_column_of, with_key,
};
use crate::ingest::table_of_rows;
use crate::laws::{
    law_append_is_diagonal, law_append_unites_names, lemma_has_column, lemma_lookup_by_name,
    lemma_metric_keys,
};
use crate::reading::{field_lookup, record_of, records_of, RecordView};
use crate::models::{MetricRowView, MetricValueView};
use crate::shape::{
    lemma_added_members, lemma_append_possible, lemma_fresh_shaped,
    lemma_index_of_own, lemma_new_file, metric_shaped, plain_rows, reserved, store_shaped,
};
use crate::table::{CellView, ColumnKind, ColumnView, TableView};

verus! {

/// Whether some row has a value under `key`.
pub open spec fn logged(rows: Seq<MetricRowView>, key: Seq<char>) -> bool {
    exists|i: int| 0 <= i < rows.len() && lookup((#[trigger] rows[i]).values, key) is Some
}

/// A name that is among the keys after values were taken in was among them
/// before or has a value.
proof fn lemma_key_origin(keys: Seq<Seq<char>>, values: Seq<(Seq<char>, MetricValueView)>, key: Seq<char>)
    requires
        keys_with_values(keys, values).contains(key),
    ensures
        keys.contains(key) || lookup(values, key) is Some,
    decreases values.len(),
{
    if values.len() > 0 {
        let before = keys_with_values(keys, values.drop_last());
        let after = with_key(before, values.last().0);
        if before.contains(key) {
            lemma_key_origin(keys, values.drop_last(), key);
        } else {
            let w = choose|w: int| 0 <= w < after.len() && after[w] == key;
            if w < before.len() {
                assert(before[w] == key);
            }
            assert(values.last().0 == key);
        }
    }
}

/// A metric name is among the keys of rows exactly where some row has a value
/// under it.
pub proof fn lemma_key_iff_logged(rows: Seq<MetricRowView>, key: Seq<char>)
    ensures
        metric_keys(rows).contains(key) <==> logged(rows, key),
    decreases rows.len(),
{
    if logged(rows, key) {
        let i = choose|i: int| 0 <= i < rows.len() && lookup((#[trigger] rows[i]).values, key) is Some;
        lemma_metric_keys(rows, i, key);
    }
    if rows.len() > 0 && metric_keys(rows).contains(key) {
        let front = rows.drop_last();
        lemma_key_iff_logged(front, key);
        lemma_key_origin(metric_keys(front), rows.last().values, key);
        if metric_keys(front).contains(key) {
            let i = choose|i: int| 0 <= i < front.len() && lookup((#[trigger] front[i]).values, key) is Some;
            assert(rows[i] == front[i]);
        } else {
            assert(lookup(rows[rows.len() - 1].values, key) is Some);
        }
    }
}

/// The first value under a name is there exactly where some row has a value
/// under it.
pub proof fn lemma_first_value_iff_logged(rows: Seq<MetricRowView>, key: Seq<char>)
    ensures
        first_value(rows, key) is Some <==> logged(rows, key),
    decreases rows.len(),
{
    if rows.len() > 0 {
        let front = rows.drop_last();
        lemma_first_value_iff_logged(front, key);
        if logged(rows, key) {
            let i = choose|i: int| 0 <= i < rows.len() && lookup((#[trigger] rows[i]).values, key) is Some;
            if i < front.len() {
                assert(front[i] == rows[i]);
            }
        }
        if first_value(rows, key) is Some {
            if first_value(front, key) is Some {
                let i = choose|i: int| 0 <= i < front.len() && lookup((#[trigger] front[i]).values, key) is Some;
                assert(rows[i] == front[i]);
            } else {
                assert(lookup(rows[rows.len() - 1].values, key) is Some);
            }
        }
    }
}

/// The first value of two batches in a row is the first value of the first,
/// or of the second where the first has none.
pub proof fn lemma_first_value_concat(first: Seq<MetricRowView>, second: Seq<MetricRowView>, key: Seq<char>)
    ensures
        first_value(first + second, key) == match first_value(first, key) {
            Some(v) => Some(v),
            None => first_value(second, key),
        },
    decreases second.len(),
{
    if second.len() == 0 {
        assert(first + second =~= first);
    } else {
        assert((first + second).drop_last() =~= first + second.drop_last());
        assert((first + second).last() == second.last());
        lemma_first_value_concat(first, second.drop_last(), key);
    }
}

/// Some row of two batches in a row has a value under a name exactly where
/// some row of one of them has.
pub proof fn lemma_logged_concat(first: Seq<MetricRowView>, second: Seq<MetricRowView>, key: Seq<char>)
    ensures
        logged(first + second, key) <==> logged(first, key) || logged(second, key),
{
    let both = first + second;
    if logged(both, key) {
        let i = choose|i: int| 0 <= i < both.len() && lookup((#[trigger] both[i]).values, key) is Some;
        if i < first.len() {
            assert(first[i] == both[i]);
        } else {
            assert(second[i - first.len()] == both[i]);
        }
    }
    if logged(first, key) {
        let i = choose|i: int| 0 <= i < first.len() && lookup((#[trigger] first[i]).values, key) is Some;
        assert(both[i] == first[i]);
    }
    if logged(second, key) {
        let i = choose|i: int| 0 <= i < second.len() && lookup((#[trigger] second[i]).values, key) is Some;
        assert(both[first.len() + i] == second[i]);
    }
}

/// Two batches in a row have plain names exactly where each of them has.
pub proof fn lemma_plain_concat(first: Seq<MetricRowView>, second: Seq<MetricRowView>)
    ensures
        plain_rows(first + second) <==> plain_rows(first) && plain_rows(second),
{
    let both = first + second;
    assert forall|key: Seq<char>| #![auto] metric_keys(both).contains(key) <==> metric_keys(first).contains(key)
        || metric_keys(second).contains(key) by {
        lemma_key_iff_logged(both, key);
        lemma_key_iff_logged(first, key);
        lemma_key_iff_logged(second, key);
        lemma_logged_concat(first, second, key);
    }
    if plain_rows(both) {
        assert forall|k: int| 0 <= k < metric_keys(first).len() implies !reserved(#[trigger] metric_keys(first)[k]) by {
            let key = metric_keys(first)[k];
            assert(metric_keys(both).contains(key));
            let w = choose|w: int| 0 <= w < metric_keys(both).len() && metric_keys(both)[w] == key;
            assert(!reserved(metric_keys(both)[w]));
        }
        assert forall|k: int| 0 <= k < metric_keys(second).len() implies !reserved(#[trigger] metric_keys(second)[k]) by {
            let key = metric_keys(second)[k];
            assert(metric_keys(both).contains(key));
            let w = choose|w: int| 0 <= w < metric_keys(both).len() && metric_keys(both)[w] == key;
            assert(!reserved(metric_keys(both)[w]));
        }
    }
    if plain_rows(first) && plain_rows(second) {
        assert forall|k: int| 0 <= k < metric_keys(both).len() implies !reserved(#[trigger] metric_keys(both)[k]) by {
            let key = metric_keys(both)[k];
            assert(metric_keys(both).contains(key));
            if metric_keys(first).contains(key) {
                let w = choose|w: int| 0 <= w < metric_keys(first).len() && metric_keys(first)[w] == key;
                assert(!reserved(metric_keys(first)[w]));
            } else {
                let w = choose|w: int| 0 <= w < metric_keys(second).len() && metric_keys(second)[w] == key;
                assert(!reserved(metric_keys(second)[w]));
            }
        }
    }
}

/// The cells that a batch of rows gives a name: the steps under `step`, the
/// times under `timestamp`, and under any other name the values of the rows,
/// coerced to numbers or to text.
pub open spec fn flush_cells(rows: Seq<MetricRowView>, name: Seq<char>, numeric: bool) -> Seq<CellView> {
    if name == "step"@ {
        Seq::new(rows.len(), |i: int| step_cell(rows[i].step))
    } else if name == "timestamp"@ {
        Seq::new(rows.len(), |i: int| CellView::Timestamp(rows[i].timestamp))
    } else if numeric {
        Seq::new(rows.len(), |i: int| numeric_cell(lookup(rows[i].values, name)))
    } else {
        Seq::new(rows.len(), |i: int| text_cell(lookup(rows[i].values, name)))
    }
}

/// Under a name that no row has a value for, a batch gives missing cells,
/// whatever the kind.
proof fn lemma_flush_cells_absent(rows: Seq<MetricRowView>, name: Seq<char>, numeric: bool)
    requires
        !reserved(name),
        !logged(rows, name),
    ensures
        flush_cells(rows, name, numeric) == nulls(rows.len()),
{
    assert forall|i: int| 0 <= i < rows.len() implies lookup(rows[i].values, name) is None by {
        assert(!(lookup(rows[i].values, name) is Some));
    }
    assert(flush_cells(rows, name, numeric) =~= nulls(rows.len()));
}

/// The cells that two batches in a row give a name are those of the first,
/// then those of the second.
proof fn lemma_flush_cells_concat(first: Seq<MetricRowView>, second: Seq<MetricRowView>, name: Seq<char>, numeric: bool)
    ensures
        flush_cells(first + second, name, numeric) == flush_cells(first, name, numeric) + flush_cells(
            second,
            name,
            numeric,
        ),
{
    let both = first + second;
    assert forall|i: int| 0 <= i < both.len() implies both[i] == if i < first.len() {
        first[i]
    } else {
        second[i - first.len()]
    } by {}
    assert(flush_cells(both, name, numeric) =~= flush_cells(first, name, numeric) + flush_cells(
        second,
        name,
        numeric,
    ));
}

/// What the table of a flush holds under a name: the cells of the flush, of
/// the kind that the file or the flush itself fixes for the name; and it has a
/// column of the name exactly where the name is reserved or a row has a value
/// under it.
pub proof fn lemma_fresh_by_name(schema: Seq<ColumnView>, rows: Seq<MetricRowView>, name: Seq<char>)
    requires
        plain_rows(rows),
    ensures
        aligned_cells(table_under(schema, rows), name) == flush_cells(rows, name, numeric_under(schema, rows, name)),
        has_column(table_under(schema, rows).columns, name) <==> reserved(name) || logged(rows, name),
        has_column(table_under(schema, rows).columns, name) && !reserved(name) ==> table_under(
            schema,
            rows,
        ).columns[index_of(table_under(schema, rows).columns, name, 0)].kind == if numeric_under(schema, rows, name) {
            ColumnKind::Float
        } else {
            ColumnKind::Text
        },
{
    let t = table_under(schema, rows);
    let keys = metric_keys(rows);
    lemma_fresh_shaped(schema, rows);
    lemma_key_iff_logged(rows, name);
    lemma_has_column(t.columns, name);
    lemma_index_of(t.columns, name, 0);
    assert(t.columns[0] == step_column_of(rows));
    assert(t.columns[1] == timestamp_column_of(rows));
    if name == "step"@ {
        lemma_index_of_own(t.columns, 0);
    } else if name == "timestamp"@ {
        lemma_index_of_own(t.columns, 1);
    } else if keys.contains(name) {
        let at = choose|at: int| 0 <= at < keys.len() && keys[at] == name;
        assert(t.columns[at + 2] == metric_column_as(rows, keys[at], numeric_under(schema, rows, keys[at])));
        lemma_index_of_own(t.columns, at + 2);
    } else {
        if has_column(t.columns, name) {
            let c = choose|c: int| 0 <= c < t.columns.len() && (#[trigger] t.columns[c]).name == name;
            assert(c >= 2);
            assert(t.columns[c] == metric_column_as(rows, keys[c - 2], numeric_under(schema, rows, keys[c - 2])));
            assert(keys[c - 2] == name);
        }
        lemma_flush_cells_absent(rows, name, numeric_under(schema, rows, name));
    }
}

/// The kind of numbers or of text, as a column has it.
pub open spec fn kind_of(numeric: bool) -> ColumnKind {
    if numeric {
        ColumnKind::Float
    } else {
        ColumnKind::Text
    }
}

/// The kind that a file fixes for a metric name after a flush: the kind it
/// fixed before, else the kind that the flush gave the name, if a row of the
/// flush had a value under it.
pub open spec fn kind_after(schema: Seq<ColumnView>, rows: Seq<MetricRowView>, name: Seq<char>) -> Option<
    ColumnKind,
> {
    if fixed_kind(schema, name) is Some {
        fixed_kind(schema, name)
    } else if logged(rows, name) {
        Some(kind_of(numeric_column(rows, name)))
    } else {
        None
    }
}

/// After rows were appended to a file of the store's shape, the file fixes
/// for each metric name the kind that `kind_after` says.
proof fn lemma_kind_after_append(old: TableView, rows: Seq<MetricRowView>, name: Seq<char>)
    requires
        store_shaped(old),
        plain_rows(rows),
        !reserved(name),
    ensures
        fixed_kind(appended(old, table_under(old.columns, rows)).columns, name) == kind_after(
            old.columns,
            rows,
            name,
        ),
{
    let b = table_under(old.columns, rows);
    let t = appended(old, b);
    let fields = merged_fields(old.columns, b.columns);
    let added = added_columns(old.columns, b.columns);
    lemma_append_possible(old, rows);
    lemma_fresh_shaped(old.columns, rows);
    lemma_fresh_by_name(old.columns, rows, name);
    law_append_unites_names(old, b, name);
    lemma_index_of(old.columns, name, 0);
    lemma_index_of(t.columns, name, 0);
    lemma_index_of(b.columns, name, 0);
    let ia = index_of(old.columns, name, 0);
    if ia < old.columns.len() {
        assert(ia >= 2);
        assert(metric_shaped(old.columns[ia]));
        assert(t.columns[ia] == appended_column(old, b, fields[ia]));
        lemma_index_of_own(t.columns, ia);
    } else if logged(rows, name) {
        let f = index_of(t.columns, name, 0);
        assert(f >= old.columns.len()) by {
            if f < old.columns.len() {
                assert(t.columns[f] == appended_column(old, b, fields[f]));
                lemma_has_column(old.columns, name);
                assert(old.columns[f].name == name);
            }
        }
        assert(t.columns[f] == appended_column(old, b, fields[f]));
        assert(fields[f] == added[f - old.columns.len()]);
        lemma_added_members(old.columns, b.columns);
        assert(b.columns.contains(added[f - old.columns.len()]));
        let m = choose|m: int| 0 <= m < b.columns.len() && b.columns[m] == added[f - old.columns.len()];
        lemma_index_of_own(b.columns, m);
    }
}

/// After rows were written to a new file, the file fixes for each metric name
/// the kind that `kind_after` says.
proof fn lemma_kind_after_write(rows: Seq<MetricRowView>, name: Seq<char>)
    requires
        plain_rows(rows),
        !reserved(name),
    ensures
        fixed_kind(table_under(Seq::empty(), rows).columns, name) == kind_after(Seq::empty(), rows, name),
{
    let none = Seq::<ColumnView>::empty();
    let t = table_under(none, rows);
    lemma_fresh_shaped(none, rows);
    lemma_fresh_by_name(none, rows, name);
    lemma_index_of(t.columns, name, 0);
    assert(index_of(none, name, 0) == 0);
}

/// The kinds agree however the rows are cut: a name that the first batch has
/// a value for gets the same kind in the first batch as in both together, and
/// a name that the second batch has a value for gets in it, after the first
/// was written, the kind that it gets in both together.
proof fn lemma_kinds_agree(
    schema: Seq<ColumnView>,
    after: Seq<ColumnView>,
    first: Seq<MetricRowView>,
    second: Seq<MetricRowView>,
    name: Seq<char>,
)
    requires
        fixed_kind(after, name) == kind_after(schema, first, name),
    ensures
        logged(first, name) ==> numeric_under(schema, first, name) == numeric_under(schema, first + second, name),
        logged(second, name) ==> numeric_under(after, second, name) == numeric_under(
            schema,
            first + second,
            name,
        ),
{
    lemma_first_value_iff_logged(first, name);
    lemma_first_value_concat(first, second, name);
}

/// A row of a table has nothing under a name that no column bears.
proof fn lemma_lookup_absent(table: TableView, r: int, name: Seq<char>)
    requires
        0 <= r < table.height,
        !has_column(table.columns, name),
    ensures
        field_lookup(records_of(table)[r], name) is None,
{
    lemma_has_column(table.columns, name);
    lemma_no_field(record_of(table, r), name);
    assert forall|k: int| 0 <= k < record_of(table, r).len() implies (#[trigger] record_of(table, r)[k]).0 != name by {
        assert(table.columns[k].name != name);
    }
}

/// A row gives nothing under a name that none of its entries bears.
proof fn lemma_no_field(record: RecordView, name: Seq<char>)
    ensures
        (forall|k: int| 0 <= k < record.len() ==> (#[trigger] record[k]).0 != name) ==> field_lookup(record, name) is None,
    decreases record.len(),
{
    if record.len() > 0 {
        lemma_no_field(record.drop_last(), name);
        if forall|k: int| 0 <= k < record.len() ==> (#[trigger] record[k]).0 != name {
            assert(record[record.len() - 1].0 != name);
            assert forall|k: int| 0 <= k < record.drop_last().len() implies (#[trigger] record.drop_last()[k]).0 != name by {
                assert(record.drop_last()[k] == record[k]);
            }
        }
    }
}

/// Two tables of the store's shape and of one height that hold the same cells
/// under a name, and both have the name or both lack it, give a reader the
/// same under it in every row.
proof fn lemma_read_alike(left: TableView, right: TableView, r: int, name: Seq<char>)
    requires
        store_shaped(left),
        store_shaped(right),
        left.height == right.height,
        0 <= r < left.height,
        has_column(left.columns, name) <==> has_column(right.columns, name),
        aligned_cells(left, name) == aligned_cells(right, name),
    ensures
        field_lookup(records_of(left)[r], name) == field_lookup(records_of(right)[r], name),
{
    lemma_index_of(left.columns, name, 0);
    lemma_index_of(right.columns, name, 0);
    if has_column(left.columns, name) {
        lemma_lookup_by_name(left, r, index_of(left.columns, name, 0));
        lemma_lookup_by_name(right, r, index_of(right.columns, name, 0));
    } else {
        lemma_lookup_absent(left, r, name);
        lemma_lookup_absent(right, r, name);
    }
}

/// What the second of two batches adds under a name is what both together
/// add after what the first added.
proof fn lemma_cells_agree(
    schema: Seq<ColumnView>,
    after: Seq<ColumnView>,
    first: Seq<MetricRowView>,
    second: Seq<MetricRowView>,
    name: Seq<char>,
)
    requires
        plain_rows(first),
        plain_rows(second),
        !reserved(name) ==> fixed_kind(after, name) == kind_after(schema, first, name),
    ensures
        aligned_cells(table_under(schema, first), name) + aligned_cells(table_under(after, second), name)
            == aligned_cells(table_under(schema, first + second), name),
        has_column(table_under(schema, first + second).columns, name) <==> has_column(
            table_under(schema, first).columns,
            name,
        ) || has_column(table_under(after, second).columns, name),
{
    let both = first + second;
    lemma_plain_concat(first, second);
    lemma_fresh_by_name(schema, first, name);
    lemma_fresh_by_name(after, second, name);
    lemma_fresh_by_name(schema, both, name);
    lemma_logged_concat(first, second, name);
    let whole = numeric_under(schema, both, name);
    lemma_flush_cells_concat(first, second, name, whole);
    if !reserved(name) {
        lemma_kinds_agree(schema, after, first, second, name);
        if !logged(first, name) {
            lemma_flush_cells_absent(first, name, whole);
            lemma_flush_cells_absent(first, name, numeric_under(schema, first, name));
        }
        if !logged(second, name) {
            lemma_flush_cells_absent(second, name, whole);
            lemma_flush_cells_absent(second, name, numeric_under(after, second, name));
        }
    }
}

/// However rows are cut into two batches, a reader finds the same: after two
/// appends to a file every row holds under every name what it holds after one
/// append of both batches, and there are as many rows.
pub proof fn law_two_appends_read_as_one(
    old: TableView,
    first: Seq<MetricRowView>,
    second: Seq<MetricRowView>,
    r: int,
    name: Seq<char>,
)
    requires
        store_shaped(old),
        plain_rows(first + second),
        0 <= r < old.height + first.len() + second.len(),
    ensures
        ({
            let once = appended(old, table_under(old.columns, first + second));
            let midway = appended(old, table_under(old.columns, first));
            let twice = appended(midway, table_under(midway.columns, second));
            &&& records_of(twice).len() == records_of(once).len()
            &&& field_lookup(records_of(twice)[r], name) == field_lookup(records_of(once)[r], name)
        }),
{
    let both = first + second;
    lemma_plain_concat(first, second);
    let once = appended(old, table_under(old.columns, both));
    let midway = appended(old, table_under(old.columns, first));
    let twice = appended(midway, table_under(midway.columns, second));
    lemma_append_possible(old, both);
    lemma_append_possible(old, first);
    lemma_append_possible(midway, second);
    if !reserved(name) {
        lemma_kind_after_append(old, first, name);
    }
    lemma_cells_agree(old.columns, midway.columns, first, second, name);
    law_append_is_diagonal(old, table_under(old.columns, both), name);
    law_append_is_diagonal(old, table_under(old.columns, first), name);
    law_append_is_diagonal(midway, table_under(midway.columns, second), name);
    law_append_unites_names(old, table_under(old.columns, both), name);
    law_append_unites_names(old, table_under(old.columns, first), name);
    law_append_unites_names(midway, table_under(midway.columns, second), name);
    assert(aligned_cells(twice, name) =~= aligned_cells(once, name));
    lemma_read_alike(twice, once, r, name);
}

/// However rows are cut into two batches, a reader finds the same in a new
/// file: after a write and an append every row holds under every name what it
/// holds after one write of both batches, and there are as many rows.
pub proof fn law_write_and_append_read_as_one(
    first: Seq<MetricRowView>,
    second: Seq<MetricRowView>,
    r: int,
    name: Seq<char>,
)
    requires
        plain_rows(first + second),
        0 <= r < first.len() + second.len(),
    ensures
        ({
            let once = table_of_rows(first + second);
            let midway = table_of_rows(first);
            let twice = appended(midway, table_under(midway.columns, second));
            &&& records_of(twice).len() == records_of(once).len()
            &&& field_lookup(records_of(twice)[r], name) == field_lookup(records_of(once)[r], name)
        }),
{
    let both = first + second;
    let none = Seq::<ColumnView>::empty();
    lemma_plain_concat(first, second);
    lemma_new_file(both);
    lemma_new_file(first);
    let once = table_under(none, both);
    let midway = table_under(none, first);
    let twice = appended(midway, table_under(midway.columns, second));
    lemma_fresh_shaped(none, both);
    lemma_fresh_shaped(none, first);
    lemma_append_possible(midway, second);
    if !reserved(name) {
        lemma_kind_after_write(first, name);
    }
    lemma_cells_agree(none, midway.columns, first, second, name);
    law_append_is_diagonal(midway, table_under(midway.columns, second), name);
    law_append_unites_names(midway, table_under(midway.columns, second), name);
    lemma_read_alike(twice, once, r, name);
}

} // verus!
