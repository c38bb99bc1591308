//! The shape of the tables that the store itself writes, and why rows can
//! always be appended to them.

use vstd::prelude::*;
use crate::append::{
    added_columns, appended, appended_column, can_append, field_accepts, has_column, has_null,
    index_of, lemma_appended_wf, lemma_index_of, merged_fields,
};
use crate::ingest::{
    lemma_table_under_wf, metric_column_as, metric_column_of, metric_keys, numeric_under,
    step_column_of, table_of_rows, table_under, timestamp_column_of,
};
use crate::laws::{lemma_has_column, lemma_index_least, lemma_metric_keys_distinct};
use crate::models::MetricRowView;
use crate::table::{ColumnKind, ColumnView, TableView, column_wf};

verus! {

/// Whether a name is one of the two that every table of the store keeps for
/// the step and the time of a row.
pub open spec fn reserved(name: Seq<char>) -> bool {
    name == "step"@ || name == "timestamp"@
}

/// Whether no metric of the rows bears a reserved name.
pub open spec fn plain_rows(rows: Seq<MetricRowView>) -> bool {
    forall|k: int| 0 <= k < metric_keys(rows).len() ==> !reserved(#[trigger] metric_keys(rows)[k])
}

/// No two columns bear the same name.
pub open spec fn distinct_names(columns: Seq<ColumnView>) -> bool {
    forall|i: int, j: int| 0 <= i < j < columns.len() ==> (#[trigger] columns[i]).name != (#[trigger] columns[j]).name
}

/// What the column of a metric looks like: numbers or text, nullable, under a
/// name that is not reserved.
pub open spec fn metric_shaped(column: ColumnView) -> bool {
    &&& column.kind == ColumnKind::Float || column.kind == ColumnKind::Text
    &&& column.nullable
    &&& !reserved(column.name)
}

/// What a table looks like that the store wrote from rows with plain names:
/// the steps as nullable integers, the times without a missing cell, then the
/// metrics, each under its own name.
pub open spec fn store_shaped(table: TableView) -> bool {
    &&& table.wf()
    &&& table.columns.len() >= 2
    &&& table.columns[0].name == "step"@
    &&& table.columns[0].kind == ColumnKind::Int
    &&& table.columns[0].nullable
    &&& table.columns[1].name == "timestamp"@
    &&& table.columns[1].kind == ColumnKind::Timestamp
    &&& !table.columns[1].nullable
    &&& !has_null(table.columns[1].cells)
    &&& forall|c: int| 2 <= c < table.columns.len() ==> metric_shaped(#[trigger] table.columns[c])
    &&& distinct_names(table.columns)
}

/// Among columns of distinct names a name finds the column that bears it.
pub proof fn lemma_index_of_own(columns: Seq<ColumnView>, j: int)
    requires
        distinct_names(columns),
        0 <= j < columns.len(),
    ensures
        index_of(columns, columns[j].name, 0) == j,
{
    lemma_index_of(columns, columns[j].name, 0);
    lemma_index_least(columns, columns[j].name, 0, j);
    let i = index_of(columns, columns[j].name, 0);
    if i < j {
        assert(columns[i].name != columns[j].name);
    }
}

/// The table of rows with plain names has the shape of the store's tables,
/// whatever file the rows go to.
pub proof fn lemma_fresh_shaped(schema: Seq<ColumnView>, rows: Seq<MetricRowView>)
    requires
        plain_rows(rows),
    ensures
        store_shaped(table_under(schema, rows)),
{
    let t = table_under(schema, rows);
    let keys = metric_keys(rows);
    lemma_table_under_wf(schema, rows);
    lemma_metric_keys_distinct(rows);
    assert(t.columns[0] == step_column_of(rows));
    assert(t.columns[1] == timestamp_column_of(rows));
    assert forall|c: int| 2 <= c < t.columns.len() implies metric_shaped(#[trigger] t.columns[c]) by {
        assert(t.columns[c] == metric_column_as(rows, keys[c - 2], numeric_under(schema, rows, keys[c - 2])));
        assert(!reserved(keys[c - 2]));
    }
    assert forall|i: int, j: int| 0 <= i < j < t.columns.len() implies (#[trigger] t.columns[i]).name != (
    #[trigger] t.columns[j]).name by {
        assert(metric_shaped(t.columns[j]) || j == 1);
        if i >= 2 {
            assert(t.columns[i] == metric_column_as(rows, keys[i - 2], numeric_under(schema, rows, keys[i - 2])));
            assert(t.columns[j] == metric_column_as(rows, keys[j - 2], numeric_under(schema, rows, keys[j - 2])));
            assert(keys[i - 2] != keys[j - 2]);
        } else if j >= 2 {
            assert(metric_shaped(t.columns[j]));
        } else {
            reveal_strlit("step");
            reveal_strlit("timestamp");
            assert("step"@.len() != "timestamp"@.len());
        }
    }
}

/// Each added column is a column of the second schema whose name the first
/// lacks, and added columns of distinct names have distinct names.
pub proof fn lemma_added_members(base: Seq<ColumnView>, more: Seq<ColumnView>)
    requires
        distinct_names(more),
    ensures
        distinct_names(added_columns(base, more)),
        forall|k: int|
            0 <= k < added_columns(base, more).len() ==> {
                &&& more.contains(#[trigger] added_columns(base, more)[k])
                &&& !has_column(base, added_columns(base, more)[k].name)
            },
    decreases more.len(),
{
    let added = added_columns(base, more);
    if more.len() > 0 {
        let front = more.drop_last();
        let rest = added_columns(base, front);
        assert(distinct_names(front)) by {
            assert forall|i: int, j: int| 0 <= i < j < front.len() implies (#[trigger] front[i]).name != (
            #[trigger] front[j]).name by {
                assert(front[i] == more[i] && front[j] == more[j]);
            }
        }
        lemma_added_members(base, front);
        assert forall|k: int| 0 <= k < added.len() implies more.contains(#[trigger] added[k]) && !has_column(
            base,
            added[k].name,
        ) by {
            if k < rest.len() {
                assert(added[k] == rest[k]);
                let m = choose|m: int| 0 <= m < front.len() && front[m] == rest[k];
                assert(more[m] == added[k]);
            } else {
                assert(more[more.len() - 1] == added[k]);
            }
        }
        assert forall|i: int, j: int| 0 <= i < j < added.len() implies (#[trigger] added[i]).name != (
        #[trigger] added[j]).name by {
            if j < rest.len() {
                assert(added[i] == rest[i] && added[j] == rest[j]);
            } else {
                assert(added[i] == rest[i]);
                let m = choose|m: int| 0 <= m < front.len() && front[m] == rest[i];
                assert(more[m] == added[i]);
                assert(more[more.len() - 1] == added[j]);
            }
        }
    }
}

/// Rows with plain names can be appended to a table of the store's shape, once
/// their metrics have taken the kinds that the table has for their names; and
/// the table that comes of it has the store's shape again.
pub proof fn lemma_append_possible(old: TableView, rows: Seq<MetricRowView>)
    requires
        store_shaped(old),
        plain_rows(rows),
    ensures
        can_append(old, table_under(old.columns, rows)),
        store_shaped(appended(old, table_under(old.columns, rows))),
{
    let a = old;
    let b = table_under(old.columns, rows);
    let keys = metric_keys(rows);
    let added = added_columns(a.columns, b.columns);
    let fields = merged_fields(a.columns, b.columns);
    lemma_fresh_shaped(old.columns, rows);
    lemma_added_members(a.columns, b.columns);
    reveal_strlit("step");
    reveal_strlit("timestamp");
    assert("step"@.len() != "timestamp"@.len());
    lemma_index_of_own(a.columns, 0);
    lemma_index_of_own(a.columns, 1);
    lemma_index_of_own(b.columns, 0);
    lemma_index_of_own(b.columns, 1);
    assert forall|f: int| 0 <= f < fields.len() implies field_accepts(
        a,
        (#[trigger] fields[f]).name,
        fields[f].kind,
        fields[f].nullable,
    ) && field_accepts(b, fields[f].name, fields[f].kind, fields[f].nullable) by {
        let field = fields[f];
        lemma_index_of(a.columns, field.name, 0);
        lemma_index_of(b.columns, field.name, 0);
        let ib = index_of(b.columns, field.name, 0);
        if f < a.columns.len() {
            assert(field == a.columns[f]);
            lemma_index_of_own(a.columns, f);
            assert(column_wf(a.columns[f], a.height));
            if f >= 2 {
                assert(metric_shaped(a.columns[f]));
            }
            if ib < b.columns.len() {
                if ib >= 2 {
                    assert(b.columns[ib] == metric_column_as(
                        rows,
                        keys[ib - 2],
                        numeric_under(a.columns, rows, keys[ib - 2]),
                    ));
                    assert(metric_shaped(b.columns[ib]));
                    assert(f >= 2);
                } else if ib == 0 {
                    assert(f == 0) by {
                        if f != 0 {
                            assert(a.columns[0].name != a.columns[f].name);
                        }
                    }
                } else {
                    assert(f == 1) by {
                        if f > 1 {
                            assert(a.columns[1].name != a.columns[f].name);
                        }
                    }
                }
            }
            if f == 1 {
                assert(ib == 1);
            }
        } else {
            let k = f - a.columns.len();
            assert(field == added[k]);
            assert(b.columns.contains(added[k]));
            let m = choose|m: int| 0 <= m < b.columns.len() && b.columns[m] == added[k];
            lemma_has_column(a.columns, field.name);
            assert(m >= 2) by {
                if m == 0 {
                    assert(a.columns[0].name == field.name);
                }
                if m == 1 {
                    assert(a.columns[1].name == field.name);
                }
            }
            assert(metric_shaped(b.columns[m]));
            lemma_index_of_own(b.columns, m);
        }
    }
    lemma_appended_wf(a, b);
    let t = appended(a, b);
    assert(t.columns[0] == appended_column(a, b, fields[0]));
    assert(t.columns[1] == appended_column(a, b, fields[1]));
    assert(!has_null(t.columns[1].cells)) by {
        let cells = t.columns[1].cells;
        assert(column_wf(a.columns[1], a.height));
        assert forall|r: int| 0 <= r < cells.len() implies !(cells[r] is Null) by {
            if r < a.height {
                assert(cells[r] == a.columns[1].cells[r]);
            } else {
                assert(cells[r] == b.columns[1].cells[r - a.height]);
            }
        }
    }
    assert forall|c: int| 2 <= c < t.columns.len() implies metric_shaped(#[trigger] t.columns[c]) by {
        assert(t.columns[c] == appended_column(a, b, fields[c]));
        if c < a.columns.len() {
            assert(metric_shaped(a.columns[c]));
        } else {
            let k = c - a.columns.len();
            assert(fields[c] == added[k]);
            assert(b.columns.contains(added[k]));
            let m = choose|m: int| 0 <= m < b.columns.len() && b.columns[m] == added[k];
            lemma_has_column(a.columns, added[k].name);
            if m == 0 {
                assert(a.columns[0].name == added[k].name);
            }
            if m == 1 {
                assert(a.columns[1].name == added[k].name);
            }
            assert(metric_shaped(b.columns[m]));
        }
    }
    assert forall|i: int, j: int| 0 <= i < j < t.columns.len() implies (#[trigger] t.columns[i]).name != (
    #[trigger] t.columns[j]).name by {
        assert(t.columns[i] == appended_column(a, b, fields[i]));
        assert(t.columns[j] == appended_column(a, b, fields[j]));
        if j < a.columns.len() {
            assert(a.columns[i].name != a.columns[j].name);
        } else if i < a.columns.len() {
            let k = j - a.columns.len();
            assert(fields[j] == added[k]);
            lemma_has_column(a.columns, added[k].name);
            assert(a.columns[i].name != added[k].name);
        } else {
            assert(fields[i] == added[i - a.columns.len()]);
            assert(fields[j] == added[j - a.columns.len()]);
        }
    }
}

/// Rows that go to a new file are typed as rows that go to a file without
/// columns.
pub proof fn lemma_new_file(rows: Seq<MetricRowView>)
    ensures
        table_under(Seq::empty(), rows) == table_of_rows(rows),
{
    let keys = metric_keys(rows);
    let none = Seq::<ColumnView>::empty();
    assert forall|k: int| 0 <= k < keys.len() implies metric_column_as(
        rows,
        keys[k],
        numeric_under(none, rows, keys[k]),
    ) == metric_column_of(rows, keys[k]) by {
        assert(index_of(none, keys[k], 0) == 0);
    }
    assert(table_under(none, rows).columns =~= table_of_rows(rows).columns);
}

} // verus!
