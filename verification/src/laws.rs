//! What holds of the store, the documents and the worker as a whole.

use vstd::prelude::*;
use crate::document::{EntriesView, distinct_keys, entries_map, lemma_overlay_map, overlay};
use crate::engine::{
    ActionView, EventView, LogCommandView, WorkerView, elapsed_ms, flush_actions, flushed,
    next_actions, next_state,
};
use crate::models::{MetricRowView, MetricValueView, RunStatus};
use crate::numbers::lemma_step_round_trip;
use crate::append::{
    added_columns, aligned_cells, appended, can_append, has_column, index_of, lemma_index_of,
    merged_fields, nulls,
};
use crate::ingest::{
    keys_with_values, lookup, metric_column_as, metric_column_of, metric_keys, numeric_cell,
    numeric_column, numeric_under, step_column_of, table_of_rows, table_under, text_cell, with_key,
};
use crate::reading::{
    RecordView, cursor_after, field_lookup, is_newer, newer_records, read_cell,
    record_step, records_of,
};
use crate::shape::{
    distinct_names, lemma_append_possible, lemma_fresh_shaped, lemma_index_of_own, lemma_new_file,
    plain_rows, store_shaped,
};
use crate::table::{ColumnView, TableView, column_wf};

verus! {

// ---------------------------------------------------------------------------
// The worker
// ---------------------------------------------------------------------------

/// The state of a worker after a run of events, each with its time of arrival.
pub open spec fn run_state(state: WorkerView, events: Seq<(EventView, i64)>) -> WorkerView
    decreases events.len(),
{
    if events.len() == 0 {
        state
    } else {
        next_state(run_state(state, events.drop_last()), events.last().0, events.last().1)
    }
}

/// The actions that a worker asks for over a run of events, in their order.
pub open spec fn run_actions(state: WorkerView, events: Seq<(EventView, i64)>) -> Seq<ActionView>
    decreases events.len(),
{
    if events.len() == 0 {
        Seq::empty()
    } else {
        run_actions(state, events.drop_last()) + next_actions(
            run_state(state, events.drop_last()),
            events.last().0,
            events.last().1,
        )
    }
}

/// The rows that a list of actions hands out for writing, in their order.
pub open spec fn written_rows(actions: Seq<ActionView>) -> Seq<MetricRowView>
    decreases actions.len(),
{
    if actions.len() == 0 {
        Seq::empty()
    } else {
        written_rows(actions.drop_last()) + (match actions.last() {
            ActionView::WriteMetrics(rows) => rows,
            _ => Seq::empty(),
        })
    }
}

/// The rows that a worker takes in over a run of events: those of the metric
/// commands that reach it before it stops.
pub open spec fn accepted_rows(state: WorkerView, events: Seq<(EventView, i64)>) -> Seq<MetricRowView>
    decreases events.len(),
{
    if events.len() == 0 {
        Seq::empty()
    } else {
        let before = run_state(state, events.drop_last());
        accepted_rows(state, events.drop_last()) + (match events.last().0 {
            EventView::Command(LogCommandView::Metric(row)) => if before.stopped {
                Seq::empty()
            } else {
                seq![row]
            },
            _ => Seq::empty(),
        })
    }
}

/// A worker that has just been started.
pub open spec fn fresh(state: WorkerView) -> bool {
    state.buffer.len() == 0 && state.lines.len() == 0 && !state.stopped
}

/// The rows handed out by two lists of actions, one after the other.
proof fn lemma_written_rows_add(a: Seq<ActionView>, b: Seq<ActionView>)
    ensures
        written_rows(a + b) == written_rows(a) + written_rows(b),
    decreases b.len(),
{
    if b.len() == 0 {
        assert(a + b =~= a);
        assert(written_rows(a) + written_rows(b) =~= written_rows(a));
    } else {
        assert((a + b).drop_last() =~= a + b.drop_last());
        assert((a + b).last() == b.last());
        lemma_written_rows_add(a, b.drop_last());
        assert(written_rows(a + b) =~= written_rows(a) + written_rows(b));
    }
}

/// One event: the rows it hands out, followed by those it leaves buffered, are
/// those that were buffered, followed by the row it brought, if any.
proof fn lemma_written_rows_of_step(state: WorkerView, event: EventView, now: i64)
    ensures
        written_rows(next_actions(state, event, now)) + next_state(state, event, now).buffer == if state.stopped {
            state.buffer
        } else {
            match event {
                EventView::Command(LogCommandView::Metric(row)) => state.buffer.push(row),
                _ => state.buffer,
            }
        },
{
    reveal_with_fuel(written_rows, 5);
    let actions = next_actions(state, event, now);
    let after = next_state(state, event, now);
    let flush = flush_actions(state);
    assert(written_rows(flush) + flushed(state).buffer =~= state.buffer) by {
        if state.buffer.len() > 0 && state.lines.len() > 0 {
            assert(flush =~= seq![ActionView::WriteMetrics(state.buffer), ActionView::WriteLogLines(state.lines)]);
            assert(flush.drop_last() =~= seq![ActionView::WriteMetrics(state.buffer)]);
            assert(flush.drop_last().drop_last() =~= Seq::<ActionView>::empty());
        } else if state.buffer.len() > 0 {
            assert(flush =~= seq![ActionView::WriteMetrics(state.buffer)]);
            assert(flush.drop_last() =~= Seq::<ActionView>::empty());
        } else if state.lines.len() > 0 {
            assert(flush =~= seq![ActionView::WriteLogLines(state.lines)]);
            assert(flush.drop_last() =~= Seq::<ActionView>::empty());
        } else {
            assert(flush =~= Seq::<ActionView>::empty());
        }
    }
    if state.stopped {
        assert(written_rows(actions) + after.buffer =~= state.buffer);
    } else {
        match event {
            EventView::Command(LogCommandView::Metric(row)) => {
                let buffer = state.buffer.push(row);
                if buffer.len() >= state.flush_rows {
                    assert(actions.drop_last() =~= Seq::<ActionView>::empty());
                }
                assert(written_rows(actions) + after.buffer =~= buffer);
            },
            EventView::Command(LogCommandView::Log { level, message }) => {
                if actions.len() > 0 {
                    assert(actions.drop_last() =~= Seq::<ActionView>::empty());
                }
                assert(written_rows(actions) + after.buffer =~= state.buffer);
            },
            EventView::Command(LogCommandView::Params(params)) => {
                assert(actions.drop_last() =~= Seq::<ActionView>::empty());
                assert(written_rows(actions) + after.buffer =~= state.buffer);
            },
            EventView::Command(LogCommandView::Artifact(path)) => {
                assert(actions.drop_last() =~= Seq::<ActionView>::empty());
                assert(written_rows(actions) + after.buffer =~= state.buffer);
            },
            EventView::Command(LogCommandView::Flush) => {
                assert(actions.drop_last() =~= flush);
                assert(written_rows(actions) + after.buffer =~= state.buffer);
            },
            EventView::Command(LogCommandView::Shutdown { status }) => {
                assert(actions.drop_last().drop_last() =~= flush);
                assert(written_rows(actions) + after.buffer =~= state.buffer);
            },
            EventView::Closed => {
                assert(written_rows(actions) + after.buffer =~= state.buffer);
            },
            EventView::Tick => {
                assert(written_rows(actions) + after.buffer =~= state.buffer);
            },
        }
    }
}

/// No row is lost and none is written twice: at any point of a run, the rows
/// handed out for writing followed by those still buffered are the rows that
/// the worker held at first followed by those it took in, in the order of
/// their arrival.
pub proof fn law_rows_written_once(state: WorkerView, events: Seq<(EventView, i64)>)
    ensures
        written_rows(run_actions(state, events)) + run_state(state, events).buffer == state.buffer
            + accepted_rows(state, events),
    decreases events.len(),
{
    if events.len() == 0 {
        assert(written_rows(run_actions(state, events)) + run_state(state, events).buffer =~= state.buffer
            + accepted_rows(state, events));
    } else {
        let front = events.drop_last();
        let before = run_state(state, front);
        law_rows_written_once(state, front);
        lemma_written_rows_add(
            run_actions(state, front),
            next_actions(before, events.last().0, events.last().1),
        );
        lemma_written_rows_of_step(before, events.last().0, events.last().1);
        let step_rows = written_rows(next_actions(before, events.last().0, events.last().1));
        let after = run_state(state, events);
        let front_rows = written_rows(run_actions(state, front));
        assert(written_rows(run_actions(state, events)) == front_rows + step_rows);
        assert((front_rows + step_rows) + after.buffer =~= front_rows + (step_rows + after.buffer));
        let taken: Seq<MetricRowView> = match events.last().0 {
            EventView::Command(LogCommandView::Metric(row)) => if before.stopped {
                Seq::empty()
            } else {
                seq![row]
            },
            _ => Seq::empty(),
        };
        assert(step_rows + after.buffer =~= before.buffer + taken);
        assert(front_rows + (before.buffer + taken) =~= (front_rows + before.buffer) + taken);
        assert((state.buffer + accepted_rows(state, front)) + taken =~= state.buffer + (accepted_rows(
            state,
            front,
        ) + taken));
    }
}

/// A worker that was started fresh and has stopped holds nothing back.
pub proof fn law_stopped_worker_is_empty(state: WorkerView, events: Seq<(EventView, i64)>)
    requires
        fresh(state),
        run_state(state, events).stopped,
    ensures
        run_state(state, events).buffer.len() == 0,
        run_state(state, events).lines.len() == 0,
    decreases events.len(),
{
    if events.len() > 0 {
        let before = run_state(state, events.drop_last());
        if before.stopped {
            law_stopped_worker_is_empty(state, events.drop_last());
        }
    }
}

/// Every row logged before the close is written, once and in order: where a
/// fresh worker has stopped at the end of a run, the rows handed out for
/// writing are exactly the rows it took in.
pub proof fn law_close_writes_every_row(state: WorkerView, events: Seq<(EventView, i64)>)
    requires
        fresh(state),
        run_state(state, events).stopped,
    ensures
        written_rows(run_actions(state, events)) == accepted_rows(state, events),
{
    law_rows_written_once(state, events);
    law_stopped_worker_is_empty(state, events);
    assert(written_rows(run_actions(state, events)) =~= written_rows(run_actions(state, events)) + run_state(
        state,
        events,
    ).buffer);
    assert(state.buffer + accepted_rows(state, events) =~= accepted_rows(state, events));
}

/// A shutdown that reaches a running worker has the given status recorded,
/// with the time of its arrival as the time of finishing and, as duration, the
/// time since the worker's start to the millisecond; then it is acknowledged
/// and the worker has stopped with empty buffers.
pub proof fn law_shutdown_records_status(state: WorkerView, status: RunStatus, now: i64)
    requires
        !state.stopped,
    ensures
        ({
            let actions = next_actions(state, EventView::Command(LogCommandView::Shutdown { status }), now);
            let after = next_state(state, EventView::Command(LogCommandView::Shutdown { status }), now);
            &&& actions.len() >= 2
            &&& actions.last() == ActionView::AckShutdown
            &&& actions[actions.len() - 2] matches ActionView::Finish {
                status: recorded,
                finished_at,
                duration_ms,
            } && recorded == status && finished_at == now && duration_ms == elapsed_ms(
                state.started_at,
                now,
            )
            &&& -1000 < (now - state.started_at) - 1000 * elapsed_ms(state.started_at, now) < 1000
            &&& after.stopped
            &&& after.buffer.len() == 0
            &&& after.lines.len() == 0
        }),
{
}

// ---------------------------------------------------------------------------
// The metric store
// ---------------------------------------------------------------------------

/// A table built from rows has one row for each of them, and appending a
/// table adds its rows to those that were there.
pub proof fn law_append_counts_rows(old: TableView, rows: Seq<MetricRowView>)
    ensures
        records_of(table_of_rows(rows)).len() == rows.len(),
        records_of(appended(old, table_under(old.columns, rows))).len() == records_of(old).len() + rows.len(),
{
}

/// The batches of rows that a list of actions hands out for writing, in
/// their order.
pub open spec fn written_batches(actions: Seq<ActionView>) -> Seq<Seq<MetricRowView>>
    decreases actions.len(),
{
    if actions.len() == 0 {
        Seq::empty()
    } else {
        match actions.last() {
            ActionView::WriteMetrics(rows) => written_batches(actions.drop_last()).push(rows),
            _ => written_batches(actions.drop_last()),
        }
    }
}

/// The table of a metric file after batches of rows were appended to it one
/// after the other; `None` stands for a file that does not exist, and a batch
/// without rows leaves the file as it is.
pub open spec fn store_after(start: Option<TableView>, batches: Seq<Seq<MetricRowView>>) -> Option<TableView>
    decreases batches.len(),
{
    if batches.len() == 0 {
        start
    } else {
        let before = store_after(start, batches.drop_last());
        if batches.last().len() == 0 {
            before
        } else {
            match before {
                Some(t) => Some(appended(t, table_under(t.columns, batches.last()))),
                None => Some(table_of_rows(batches.last())),
            }
        }
    }
}

/// Whether each of the appends can be made: the rows of each batch can be put
/// under one schema with what the file holds by then.
pub open spec fn appends_possible(start: Option<TableView>, batches: Seq<Seq<MetricRowView>>) -> bool
    decreases batches.len(),
{
    if batches.len() == 0 {
        true
    } else {
        &&& appends_possible(start, batches.drop_last())
        &&& batches.last().len() > 0 ==> match store_after(start, batches.drop_last()) {
            Some(t) => can_append(t, table_under(t.columns, batches.last())),
            None => true,
        }
    }
}

/// Whether no metric of any batch bears a reserved name.
pub open spec fn plain_batches(batches: Seq<Seq<MetricRowView>>) -> bool {
    forall|k: int| 0 <= k < batches.len() ==> plain_rows(#[trigger] batches[k])
}

/// No flush clashes with the file: where the file does not exist or has the
/// store's shape and no metric bears a reserved name, each of the appends can
/// be made, whatever the kinds of the values that come later under a name; and
/// the file keeps the store's shape.
pub proof fn law_appends_succeed(start: Option<TableView>, batches: Seq<Seq<MetricRowView>>)
    requires
        start matches Some(t) ==> store_shaped(t),
        plain_batches(batches),
    ensures
        appends_possible(start, batches),
        store_after(start, batches) matches Some(t) ==> store_shaped(t),
    decreases batches.len(),
{
    if batches.len() > 0 {
        let front = batches.drop_last();
        assert(plain_batches(front)) by {
            assert forall|k: int| 0 <= k < front.len() implies plain_rows(#[trigger] front[k]) by {
                assert(front[k] == batches[k]);
            }
        }
        law_appends_succeed(start, front);
        assert(plain_rows(batches[batches.len() - 1]));
        if batches.last().len() > 0 {
            match store_after(start, front) {
                Some(t) => {
                    lemma_append_possible(t, batches.last());
                },
                None => {
                    lemma_new_file(batches.last());
                    lemma_fresh_shaped(Seq::empty(), batches.last());
                },
            }
        }
    }
}

/// The number of rows that a reader finds in a metric file.
pub open spec fn stored_count(store: Option<TableView>) -> nat {
    match store {
        Some(t) => records_of(t).len(),
        None => 0,
    }
}

/// The rows of all batches, in order.
pub open spec fn all_rows(batches: Seq<Seq<MetricRowView>>) -> Seq<MetricRowView>
    decreases batches.len(),
{
    if batches.len() == 0 {
        Seq::empty()
    } else {
        all_rows(batches.drop_last()) + batches.last()
    }
}

/// However the logged rows are cut into batches, the store holds one row for
/// each of them beside those it held before.
pub proof fn law_batches_count_rows(start: Option<TableView>, batches: Seq<Seq<MetricRowView>>)
    ensures
        stored_count(store_after(start, batches)) == stored_count(start) + all_rows(batches).len(),
    decreases batches.len(),
{
    if batches.len() > 0 {
        law_batches_count_rows(start, batches.drop_last());
    }
}

/// The rows of the batches that actions hand out are the rows that they hand
/// out.
proof fn lemma_written_batches(actions: Seq<ActionView>)
    ensures
        all_rows(written_batches(actions)) == written_rows(actions),
    decreases actions.len(),
{
    if actions.len() > 0 {
        lemma_written_batches(actions.drop_last());
        match actions.last() {
            ActionView::WriteMetrics(rows) => {
                let front = written_batches(actions.drop_last());
                assert(front.push(rows).drop_last() =~= front);
            },
            _ => {
                assert(written_rows(actions) =~= written_rows(actions.drop_last()));
            },
        }
    }
}

/// From the first row to the close: where a fresh worker has stopped at the
/// end of a run and each of the writes it asked for was carried out on a file
/// that did not exist before, a reader finds exactly as many rows as the
/// worker took in; and where no metric bears a reserved name, each of those
/// writes can be made.
pub proof fn law_run_stores_every_row(state: WorkerView, events: Seq<(EventView, i64)>)
    requires
        fresh(state),
        run_state(state, events).stopped,
    ensures
        stored_count(store_after(None, written_batches(run_actions(state, events)))) == accepted_rows(
            state,
            events,
        ).len(),
        plain_batches(written_batches(run_actions(state, events))) ==> appends_possible(
            None,
            written_batches(run_actions(state, events)),
        ),
{
    law_close_writes_every_row(state, events);
    lemma_written_batches(run_actions(state, events));
    law_batches_count_rows(None, written_batches(run_actions(state, events)));
    if plain_batches(written_batches(run_actions(state, events))) {
        law_appends_succeed(None, written_batches(run_actions(state, events)));
    }
}

/// Extending a list of distinct keys keeps them distinct, keeps each of them,
/// and adds every name that has a value.
proof fn lemma_keys_with_values_keeps(keys: Seq<Seq<char>>, values: Seq<(Seq<char>, MetricValueView)>, key: Seq<char>)
    requires
        keys.no_duplicates(),
    ensures
        keys_with_values(keys, values).no_duplicates(),
        keys.contains(key) ==> keys_with_values(keys, values).contains(key),
        lookup(values, key) is Some ==> keys_with_values(keys, values).contains(key),
    decreases values.len(),
{
    if values.len() > 0 {
        lemma_keys_with_values_keeps(keys, values.drop_last(), key);
        let before = keys_with_values(keys, values.drop_last());
        let k = values.last().0;
        let after = with_key(before, k);
        if !before.contains(k) {
            assert(after[after.len() - 1] == k);
            assert forall|i: int, j: int| 0 <= i < after.len() && 0 <= j < after.len() && i != j implies after[i]
                != after[j] by {
                if i == after.len() - 1 {
                    assert(before[j] == after[j]);
                } else if j == after.len() - 1 {
                    assert(before[i] == after[i]);
                } else {
                    assert(before[i] == after[i] && before[j] == after[j]);
                }
            }
            if before.contains(key) {
                let w = choose|w: int| 0 <= w < before.len() && before[w] == key;
                assert(after[w] == key);
            }
        }
    }
}

/// The metric names of rows are distinct, and every name under which some row
/// has a value is among them.
pub proof fn lemma_metric_keys(rows: Seq<MetricRowView>, i: int, key: Seq<char>)
    requires
        0 <= i < rows.len(),
        lookup(rows[i].values, key) is Some,
    ensures
        metric_keys(rows).no_duplicates(),
        metric_keys(rows).contains(key),
    decreases rows.len(),
{
    lemma_metric_keys_distinct(rows.drop_last());
    if i < rows.len() - 1 {
        assert(rows.drop_last()[i] == rows[i]);
        lemma_metric_keys(rows.drop_last(), i, key);
    }
    lemma_keys_with_values_keeps(metric_keys(rows.drop_last()), rows.last().values, key);
}

/// The metric names of rows are distinct.
pub proof fn lemma_metric_keys_distinct(rows: Seq<MetricRowView>)
    ensures
        metric_keys(rows).no_duplicates(),
    decreases rows.len(),
{
    if rows.len() > 0 {
        lemma_metric_keys_distinct(rows.drop_last());
        lemma_keys_with_values_keeps(metric_keys(rows.drop_last()), rows.last().values, Seq::empty());
    }
}

/// `index_of` finds no later column than any that bears the name.
pub proof fn lemma_index_least(columns: Seq<ColumnView>, name: Seq<char>, from: int, at: int)
    requires
        0 <= from <= at < columns.len(),
        columns[at].name == name,
    ensures
        index_of(columns, name, from) <= at,
    decreases columns.len() - from,
{
    if from < at && columns[from].name != name {
        lemma_index_least(columns, name, from + 1, at);
    }
}

/// A row gives a name the value of the entry under it after which no entry
/// bears the name.
pub proof fn lemma_field_lookup_last(record: RecordView, name: Seq<char>, at: int)
    requires
        0 <= at < record.len(),
        record[at].0 == name,
        forall|k: int| at < k < record.len() ==> (#[trigger] record[k]).0 != name,
    ensures
        field_lookup(record, name) == Some(record[at].1),
    decreases record.len(),
{
    if at < record.len() - 1 {
        let front = record.drop_last();
        assert(record[record.len() - 1].0 != name);
        assert(front[at] == record[at]);
        assert forall|k: int| at < k < front.len() implies (#[trigger] front[k]).0 != name by {
            assert(front[k] == record[k]);
        }
        lemma_field_lookup_last(front, name, at);
    }
}

/// A logged value is read back in its row under its name, coerced by the kind
/// of its column: from a numeric column a number as it is and an integer
/// widened, anything else missing; from a text column its text.
pub proof fn law_logged_value_is_read(rows: Seq<MetricRowView>, i: int, key: Seq<char>)
    requires
        0 <= i < rows.len(),
        lookup(rows[i].values, key) is Some,
    ensures
        field_lookup(records_of(table_of_rows(rows))[i], key) == Some(
            read_cell(
                if numeric_column(rows, key) {
                    numeric_cell(lookup(rows[i].values, key))
                } else {
                    text_cell(lookup(rows[i].values, key))
                },
            ),
        ),
{
    lemma_metric_keys(rows, i, key);
    let keys = metric_keys(rows);
    let t = table_of_rows(rows);
    let record = records_of(t)[i];
    let at = choose|at: int| 0 <= at < keys.len() && keys[at] == key;
    assert(t.columns[at + 2] == metric_column_of(rows, keys[at]));
    assert forall|k: int| at + 2 < k < record.len() implies (#[trigger] record[k]).0 != key by {
        assert(t.columns[k] == metric_column_of(rows, keys[k - 2]));
        assert(keys[k - 2] != keys[at]);
    }
    lemma_field_lookup_last(record, key, at + 2);
}

/// Some column bears the name exactly where `index_of` finds one.
pub proof fn lemma_has_column(columns: Seq<ColumnView>, name: Seq<char>)
    ensures
        has_column(columns, name) <==> exists|i: int| 0 <= i < columns.len() && (#[trigger] columns[i]).name == name,
{
    lemma_index_of(columns, name, 0);
    if exists|i: int| 0 <= i < columns.len() && (#[trigger] columns[i]).name == name {
        let i = choose|i: int| 0 <= i < columns.len() && (#[trigger] columns[i]).name == name;
        lemma_index_least(columns, name, 0, i);
    }
}

/// The added columns bear the names that the second schema has and the first
/// lacks.
pub proof fn lemma_added_names(base: Seq<ColumnView>, more: Seq<ColumnView>, name: Seq<char>)
    ensures
        has_column(added_columns(base, more), name) <==> (!has_column(base, name) && has_column(more, name)),
    decreases more.len(),
{
    let added = added_columns(base, more);
    lemma_has_column(added, name);
    lemma_has_column(more, name);
    if more.len() > 0 {
        let front = more.drop_last();
        let rest = added_columns(base, front);
        let last = more.last();
        lemma_added_names(base, front, name);
        lemma_has_column(rest, name);
        lemma_has_column(front, name);
        if has_column(added, name) {
            let i = choose|i: int| 0 <= i < added.len() && (#[trigger] added[i]).name == name;
            if i < rest.len() {
                assert(rest[i] == added[i]);
                let j = choose|j: int| 0 <= j < front.len() && (#[trigger] front[j]).name == name;
                assert(more[j] == front[j]);
            } else {
                assert(added[i] == last);
                assert(more[more.len() - 1].name == name);
            }
        }
        if !has_column(base, name) && has_column(more, name) {
            let j = choose|j: int| 0 <= j < more.len() && (#[trigger] more[j]).name == name;
            if j < front.len() {
                assert(front[j] == more[j]);
                let i = choose|i: int| 0 <= i < rest.len() && (#[trigger] rest[i]).name == name;
                assert(added[i] == rest[i]);
            } else {
                assert(added[added.len() - 1] == last);
            }
        }
    }
}

/// In a table whose columns bear distinct names, a row gives the name of a
/// column what a reader gets for the column's cell in that row.
pub proof fn lemma_lookup_by_name(table: TableView, r: int, f: int)
    requires
        distinct_names(table.columns),
        0 <= r < table.height,
        0 <= f < table.columns.len(),
    ensures
        field_lookup(records_of(table)[r], table.columns[f].name) == Some(read_cell(table.columns[f].cells[r])),
{
    let record = records_of(table)[r];
    assert forall|k: int| f < k < record.len() implies (#[trigger] record[k]).0 != table.columns[f].name by {
        assert(table.columns[f].name != table.columns[k].name);
    }
    lemma_field_lookup_last(record, table.columns[f].name, f);
}

/// An append leaves the rows that were there as they were: under each name
/// that the file had, a row reads as before.
pub proof fn law_append_keeps_old_rows(old: TableView, rows: Seq<MetricRowView>, r: int, name: Seq<char>)
    requires
        store_shaped(old),
        plain_rows(rows),
        0 <= r < old.height,
        has_column(old.columns, name),
    ensures
        field_lookup(records_of(appended(old, table_under(old.columns, rows)))[r], name) == field_lookup(
            records_of(old)[r],
            name,
        ),
{
    let b = table_under(old.columns, rows);
    let t = appended(old, b);
    lemma_append_possible(old, rows);
    law_append_is_diagonal(old, b, name);
    lemma_index_of(old.columns, name, 0);
    let ia = index_of(old.columns, name, 0);
    assert(t.columns[ia].name == merged_fields(old.columns, b.columns)[ia].name);
    lemma_has_column(t.columns, name);
    lemma_index_of(t.columns, name, 0);
    let f = index_of(t.columns, name, 0);
    assert(column_wf(old.columns[ia], old.height));
    lemma_lookup_by_name(t, r, f);
    lemma_lookup_by_name(old, r, ia);
    assert(aligned_cells(t, name)[r] == aligned_cells(old, name)[r]);
}

/// A value logged in a later flush is read back in its row under its name,
/// coerced by the kind that the file has for the name: where the file has the
/// name as text the value reads as its text, where it has it as numbers a
/// number reads as it is, an integer widened and anything else as missing;
/// where the file had no such name, the first value of the flush decides.
pub proof fn law_appended_value_is_read(old: TableView, rows: Seq<MetricRowView>, i: int, key: Seq<char>)
    requires
        store_shaped(old),
        plain_rows(rows),
        0 <= i < rows.len(),
        lookup(rows[i].values, key) is Some,
    ensures
        field_lookup(records_of(appended(old, table_under(old.columns, rows)))[old.height + i], key) == Some(
            read_cell(
                if numeric_under(old.columns, rows, key) {
                    numeric_cell(lookup(rows[i].values, key))
                } else {
                    text_cell(lookup(rows[i].values, key))
                },
            ),
        ),
{
    let b = table_under(old.columns, rows);
    let t = appended(old, b);
    let keys = metric_keys(rows);
    lemma_append_possible(old, rows);
    lemma_fresh_shaped(old.columns, rows);
    law_append_is_diagonal(old, b, key);
    lemma_metric_keys(rows, i, key);
    let at = choose|at: int| 0 <= at < keys.len() && keys[at] == key;
    assert(b.columns[at + 2] == metric_column_as(rows, keys[at], numeric_under(old.columns, rows, keys[at])));
    lemma_index_of_own(b.columns, at + 2);
    // The name is in the new table: in the old columns or among the added.
    lemma_has_column(b.columns, key);
    lemma_added_names(old.columns, b.columns, key);
    lemma_index_of(old.columns, key, 0);
    let added = added_columns(old.columns, b.columns);
    lemma_index_of(added, key, 0);
    let fields = merged_fields(old.columns, b.columns);
    if has_column(old.columns, key) {
        let ia = index_of(old.columns, key, 0);
        assert(t.columns[ia].name == fields[ia].name);
    } else {
        let ib = index_of(added, key, 0);
        assert(t.columns[old.columns.len() + ib].name == fields[old.columns.len() + ib].name);
        assert(fields[old.columns.len() + ib] == added[ib]);
    }
    lemma_has_column(t.columns, key);
    lemma_index_of(t.columns, key, 0);
    let f = index_of(t.columns, key, 0);
    lemma_lookup_by_name(t, old.height + i, f);
    let ia = index_of(old.columns, key, 0);
    if ia < old.columns.len() {
        assert(column_wf(old.columns[ia], old.height));
    }
    assert(aligned_cells(old, key).len() == old.height);
    assert(aligned_cells(t, key)[old.height + i] == aligned_cells(b, key)[i]);
}

/// After an append the table has the names of both tables and no other.
pub proof fn law_append_unites_names(a: TableView, b: TableView, name: Seq<char>)
    ensures
        has_column(appended(a, b).columns, name) <==> has_column(a.columns, name) || has_column(
            b.columns,
            name,
        ),
{
    let t = appended(a, b);
    let fields = merged_fields(a.columns, b.columns);
    let added = added_columns(a.columns, b.columns);
    lemma_has_column(t.columns, name);
    lemma_has_column(a.columns, name);
    lemma_has_column(added, name);
    lemma_added_names(a.columns, b.columns, name);
    if has_column(t.columns, name) {
        let f = choose|f: int| 0 <= f < t.columns.len() && (#[trigger] t.columns[f]).name == name;
        assert(t.columns[f].name == fields[f].name);
        if f < a.columns.len() {
            assert(a.columns[f].name == name);
        } else {
            assert(added[f - a.columns.len()].name == name);
        }
    }
    if has_column(a.columns, name) {
        let i = choose|i: int| 0 <= i < a.columns.len() && (#[trigger] a.columns[i]).name == name;
        assert(t.columns[i].name == fields[i].name);
    } else if has_column(b.columns, name) {
        let k = choose|k: int| 0 <= k < added.len() && (#[trigger] added[k]).name == name;
        assert(t.columns[a.columns.len() + k].name == fields[a.columns.len() + k].name);
        assert(fields[a.columns.len() + k] == added[k]);
    }
}

/// Diagonal concatenation: after an append, what a reader finds under any name
/// is what the first table had under it, one cell for each of its rows,
/// followed by what the second had; and a table that lacks the name has
/// missing cells there.
pub proof fn law_append_is_diagonal(a: TableView, b: TableView, name: Seq<char>)
    ensures
        aligned_cells(appended(a, b), name) == aligned_cells(a, name) + aligned_cells(b, name),
        !has_column(a.columns, name) ==> aligned_cells(a, name) == nulls(a.height),
        !has_column(b.columns, name) ==> aligned_cells(b, name) == nulls(b.height),
{
    let fields = merged_fields(a.columns, b.columns);
    let added = added_columns(a.columns, b.columns);
    let t = appended(a, b);
    lemma_index_of(t.columns, name, 0);
    lemma_index_of(a.columns, name, 0);
    lemma_index_of(added, name, 0);
    lemma_added_names(a.columns, b.columns, name);
    let ia = index_of(a.columns, name, 0);
    let ib = index_of(added, name, 0);
    let it = index_of(t.columns, name, 0);
    if ia < a.columns.len() {
        assert(t.columns[ia].name == fields[ia].name);
        lemma_index_least(t.columns, name, 0, ia);
        if it < ia {
            assert(t.columns[it].name == a.columns[it].name);
            lemma_index_least(a.columns, name, 0, it);
        }
        assert(it == ia);
    } else if ib < added.len() {
        let at = a.columns.len() + ib;
        assert(t.columns[at].name == fields[at].name);
        assert(fields[at] == added[ib]);
        lemma_index_least(t.columns, name, 0, at);
        if it < a.columns.len() {
            assert(t.columns[it].name == a.columns[it].name);
            lemma_index_least(a.columns, name, 0, it);
        } else if it < at {
            assert(t.columns[it].name == added[it - a.columns.len()].name);
            lemma_index_least(added, name, 0, it - a.columns.len());
        }
        assert(it == at);
    } else {
        if it < t.columns.len() {
            if it < a.columns.len() {
                assert(t.columns[it].name == a.columns[it].name);
                lemma_index_least(a.columns, name, 0, it);
            } else {
                assert(t.columns[it].name == added[it - a.columns.len()].name);
                lemma_index_least(added, name, 0, it - a.columns.len());
            }
        }
        assert(aligned_cells(t, name) =~= aligned_cells(a, name) + aligned_cells(b, name));
    }
}

/// The step of a row is read back as it was logged, whatever its size: from
/// the table of a flush, and from the file that the flush was appended to.
pub proof fn law_step_is_read_back(old: TableView, rows: Seq<MetricRowView>, i: int)
    requires
        store_shaped(old),
        plain_rows(rows),
        0 <= i < rows.len(),
    ensures
        record_step(records_of(table_under(old.columns, rows))[i]) == rows[i].step,
        record_step(records_of(appended(old, table_under(old.columns, rows)))[old.height + i]) == rows[i].step,
{
    let b = table_under(old.columns, rows);
    let t = appended(old, b);
    lemma_fresh_shaped(old.columns, rows);
    lemma_append_possible(old, rows);
    assert(b.columns[0] == step_column_of(rows));
    lemma_lookup_by_name(b, i, 0);
    match rows[i].step {
        Some(s) => {
            lemma_step_round_trip(s, 0);
        },
        None => {},
    }
    lemma_index_of_own(old.columns, 0);
    lemma_index_of_own(b.columns, 0);
    lemma_index_of_own(t.columns, 0);
    law_append_is_diagonal(old, b, "step"@);
    assert(column_wf(old.columns[0], old.height));
    lemma_lookup_by_name(t, old.height + i, 0);
    assert(aligned_cells(t, "step"@)[old.height + i] == aligned_cells(b, "step"@)[i]);
}

/// Whether a row has a step, and one at or below the cursor.
pub open spec fn at_or_below(record: RecordView, since: u64) -> bool {
    match record_step(record) {
        Some(step) => step <= since,
        None => false,
    }
}

/// A read with a cursor hands out exactly the rows that have no step or whose
/// step is above the cursor: none whose step is at or below the cursor,
/// whatever integer stands under `step`, every row without step, and nothing
/// that is not in the store.
pub proof fn law_read_since(records: Seq<RecordView>, since: u64)
    ensures
        forall|k: int|
            0 <= k < newer_records(records, since).len() ==> {
                &&& is_newer(#[trigger] newer_records(records, since)[k], since)
                &&& !at_or_below(newer_records(records, since)[k], since)
                &&& records.contains(newer_records(records, since)[k])
            },
        forall|i: int|
            0 <= i < records.len() && record_step(#[trigger] records[i]) is None ==> newer_records(
                records,
                since,
            ).contains(records[i]),
        forall|i: int|
            0 <= i < records.len() && is_newer(#[trigger] records[i], since) ==> newer_records(
                records,
                since,
            ).contains(records[i]),
    decreases records.len(),
{
    if records.len() > 0 {
        let front = records.drop_last();
        let rest = newer_records(front, since);
        let out = newer_records(records, since);
        law_read_since(front, since);
        assert forall|k: int| 0 <= k < out.len() implies is_newer(#[trigger] out[k], since) && records.contains(
            out[k],
        ) by {
            if k < rest.len() {
                assert(out[k] == rest[k]);
                let w = choose|w: int| 0 <= w < front.len() && front[w] == rest[k];
                assert(records[w] == out[k]);
            } else {
                assert(out[k] == records[records.len() - 1]);
            }
        }
        assert forall|i: int| 0 <= i < records.len() && is_newer(#[trigger] records[i], since) implies out.contains(
            records[i],
        ) by {
            if i < front.len() {
                assert(front[i] == records[i]);
                let w = choose|w: int| 0 <= w < rest.len() && rest[w] == front[i];
                assert(out[w] == records[i]);
            } else {
                assert(out[out.len() - 1] == records[i]);
            }
        }
    }
}

/// Whether a cursor has passed a row: there is a cursor, and the row does not
/// count as newer than it.
pub open spec fn passed(record: RecordView, cursor: Option<u64>) -> bool {
    match cursor {
        Some(c) => !is_newer(record, c),
        None => false,
    }
}

/// Whether a cursor stands at `c` or beyond.
pub open spec fn at_least(cursor: Option<u64>, c: u64) -> bool {
    match cursor {
        Some(d) => d >= c,
        None => false,
    }
}

/// A stream does not repeat itself: once the cursor was moved past rows that
/// were handed out, it has passed each of them that has a step; and the cursor
/// never moves back.
pub proof fn law_cursor_moves_past(cursor: Option<u64>, records: Seq<RecordView>)
    ensures
        forall|i: int|
            0 <= i < records.len() && record_step(#[trigger] records[i]) is Some ==> passed(
                records[i],
                cursor_after(cursor, records),
            ),
        match cursor {
            Some(c) => at_least(cursor_after(cursor, records), c),
            None => true,
        },
    decreases records.len(),
{
    if records.len() > 0 {
        let front = records.drop_last();
        law_cursor_moves_past(cursor, front);
        assert forall|i: int| 0 <= i < records.len() && record_step(#[trigger] records[i]) is Some implies passed(
            records[i],
            cursor_after(cursor, records),
        ) by {
            if i < front.len() {
                assert(front[i] == records[i]);
                assert(passed(front[i], cursor_after(cursor, front)));
            }
        }
    }
}

// ---------------------------------------------------------------------------
// Documents
// ---------------------------------------------------------------------------

/// Last writer wins, key by key: after two merges a key has the value of the
/// second update that names it, else that of the first, else the value it had
/// in the document; and the document has no other keys.
pub proof fn law_merge_last_writer_wins(entries: EntriesView, first: EntriesView, second: EntriesView, key: Seq<char>)
    requires
        distinct_keys(entries),
    ensures
        ({
            let merged = entries_map(overlay(overlay(entries, first), second));
            &&& distinct_keys(overlay(overlay(entries, first), second))
            &&& merged.dom().contains(key) <==> entries_map(entries).dom().contains(key) || entries_map(
                first,
            ).dom().contains(key) || entries_map(second).dom().contains(key)
            &&& entries_map(second).dom().contains(key) ==> merged[key] == entries_map(second)[key]
            &&& !entries_map(second).dom().contains(key) && entries_map(first).dom().contains(key)
                ==> merged[key] == entries_map(first)[key]
            &&& !entries_map(second).dom().contains(key) && !entries_map(first).dom().contains(key)
                && entries_map(entries).dom().contains(key) ==> merged[key] == entries_map(entries)[key]
        }),
{
    lemma_overlay_map(entries, first);
    lemma_overlay_map(overlay(entries, first), second);
}

} // verus!
