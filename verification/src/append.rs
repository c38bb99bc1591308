//! Putting tables together: one appended to another under the union of their
//! schemas, and tables of one schema stacked.

use vstd::prelude::*;
use crate::error::ExpmanError;
use crate::ingest::table_of_rows;
use crate::table::{
    Cell, CellView, Column, ColumnKind, ColumnView, Table, TableView, cell_fits, cells_view,
    column_wf, columns_view,
};
use crate::text::str_eq;

verus! {

/// Index of the first column from `from` on that bears `name`; the number of
/// columns where there is none.
pub open spec fn index_of(columns: Seq<ColumnView>, name: Seq<char>, from: int) -> int
    decreases columns.len() - from,
{
    if from >= columns.len() {
        columns.len() as int
    } else if columns[from].name == name {
        from
    } else {
        index_of(columns, name, from + 1)
    }
}

/// Whether some column bears `name`.
pub open spec fn has_column(columns: Seq<ColumnView>, name: Seq<char>) -> bool {
    index_of(columns, name, 0) < columns.len()
}

/// The columns of `more` whose names `base` lacks, in their order.
pub open spec fn added_columns(base: Seq<ColumnView>, more: Seq<ColumnView>) -> Seq<ColumnView>
    decreases more.len(),
{
    if more.len() == 0 {
        Seq::empty()
    } else {
        let rest = added_columns(base, more.drop_last());
        if has_column(base, more.last().name) {
            rest
        } else {
            rest.push(more.last())
        }
    }
}

/// The union of two schemas: the columns of `a`, then those of `b` whose names
/// `a` lacks. Of each column only name, kind and nullability count here.
pub open spec fn merged_fields(a: Seq<ColumnView>, b: Seq<ColumnView>) -> Seq<ColumnView> {
    a + added_columns(a, b)
}

/// `n` missing cells.
pub open spec fn nulls(n: nat) -> Seq<CellView> {
    Seq::new(n, |r: int| CellView::Null)
}

/// The cells that a table gives to the field `name`: those of its first column
/// of that name, or missing cells for each of its rows.
pub open spec fn aligned_cells(table: TableView, name: Seq<char>) -> Seq<CellView> {
    let i = index_of(table.columns, name, 0);
    if i < table.columns.len() {
        table.columns[i].cells
    } else {
        nulls(table.height)
    }
}

/// Whether some cell is missing.
pub open spec fn has_null(cells: Seq<CellView>) -> bool {
    exists|r: int| 0 <= r < cells.len() && cells[r] is Null
}

/// Whether a table can fill a field: its column of that name, if any, has the
/// field's kind, and a field that is not nullable gets no missing cell.
pub open spec fn field_accepts(table: TableView, name: Seq<char>, kind: ColumnKind, nullable: bool) -> bool {
    let i = index_of(table.columns, name, 0);
    &&& i < table.columns.len() ==> table.columns[i].kind == kind
    &&& nullable || !has_null(aligned_cells(table, name))
}

/// Whether `b` can be appended to `a`: both can fill every field of the union
/// of their schemas.
pub open spec fn can_append(a: TableView, b: TableView) -> bool {
    let fields = merged_fields(a.columns, b.columns);
    forall|f: int|
        0 <= f < fields.len() ==> {
            &&& field_accepts(a, (#[trigger] fields[f]).name, fields[f].kind, fields[f].nullable)
            &&& field_accepts(b, fields[f].name, fields[f].kind, fields[f].nullable)
        }
}

/// Column `f` of `a` with `b` appended: the field's cells from `a`, then those
/// from `b`.
pub open spec fn appended_column(a: TableView, b: TableView, field: ColumnView) -> ColumnView {
    ColumnView {
        name: field.name,
        kind: field.kind,
        nullable: field.nullable,
        cells: aligned_cells(a, field.name) + aligned_cells(b, field.name),
    }
}

/// `a` with `b` appended under the union of their schemas: every column of
/// either table is there, the rows of `a` come first, and a column that one
/// table lacks is missing in each of that table's rows.
pub open spec fn appended(a: TableView, b: TableView) -> TableView {
    let fields = merged_fields(a.columns, b.columns);
    TableView {
        columns: Seq::new(fields.len(), |f: int| appended_column(a, b, fields[f])),
        height: a.height + b.height,
    }
}

/// `index_of` stays within the columns, and what it finds bears the name.
pub proof fn lemma_index_of(columns: Seq<ColumnView>, name: Seq<char>, from: int)
    requires
        0 <= from <= columns.len(),
    ensures
        from <= index_of(columns, name, from) <= columns.len(),
        index_of(columns, name, from) < columns.len() ==> columns[index_of(columns, name, from)].name
            == name,
    decreases columns.len() - from,
{
    if from < columns.len() && columns[from].name != name {
        lemma_index_of(columns, name, from + 1);
    }
}

/// The columns added by a prefix of `more` are a prefix of those added by all
/// of it.
pub proof fn lemma_added_prefix(base: Seq<ColumnView>, more: Seq<ColumnView>, j: int)
    requires
        0 <= j <= more.len(),
    ensures
        added_columns(base, more.take(j)).len() <= added_columns(base, more).len(),
        forall|k: int|
            0 <= k < added_columns(base, more.take(j)).len() ==> added_columns(base, more)[k]
                == #[trigger] added_columns(base, more.take(j))[k],
    decreases more.len() - j,
{
    if j == more.len() {
        assert(more.take(j) =~= more);
    } else {
        assert(more.take(j + 1).drop_last() =~= more.take(j));
        lemma_added_prefix(base, more, j + 1);
        let short = added_columns(base, more.take(j));
        let long = added_columns(base, more.take(j + 1));
        assert forall|k: int| 0 <= k < short.len() implies added_columns(base, more)[k] == short[k] by {
            assert(long[k] == short[k]);
        }
    }
}

/// Index of the first column that bears `name`.
pub fn find_column(columns: &Vec<Column>, name: &str) -> (r: Option<usize>)
    ensures
        match r {
            Some(i) => i < columns@.len() && index_of(columns_view(columns@), name@, 0) == i,
            None => index_of(columns_view(columns@), name@, 0) == columns@.len(),
        },
{
    let ghost all = columns_view(columns@);
    let mut i: usize = 0;
    while i < columns.len()
        invariant
            i <= columns.len(),
            all == columns_view(columns@),
            index_of(all, name@, 0) == index_of(all, name@, i as int),
        decreases columns.len() - i,
    {
        assert(all[i as int].name == columns@[i as int].name@);
        if str_eq(columns[i].name.as_str(), name) {
            return Some(i);
        }
        i += 1;
    }
    None
}

/// A copy of a cell.
pub fn copy_cell(cell: &Cell) -> (r: Cell)
    ensures
        r@ == cell@,
{
    match cell {
        Cell::Null => Cell::Null,
        Cell::Float(bits) => Cell::Float(*bits),
        Cell::Int(i) => Cell::Int(*i),
        Cell::Timestamp(t) => Cell::Timestamp(*t),
        Cell::Text(s) => Cell::Text(s.clone()),
    }
}

/// Appends copies of `cells` to `out`.
fn extend_cells(out: &mut Vec<Cell>, cells: &Vec<Cell>)
    ensures
        cells_view(final(out)@) == cells_view(old(out)@) + cells_view(cells@),
{
    let ghost start = cells_view(out@);
    let mut i: usize = 0;
    while i < cells.len()
        invariant
            i <= cells.len(),
            cells_view(out@) == start + cells_view(cells@).take(i as int),
        decreases cells.len() - i,
    {
        let ghost before = cells_view(out@);
        out.push(copy_cell(&cells[i]));
        assert(cells_view(out@) =~= before.push(cells@[i as int]@));
        assert(cells_view(cells@).take(i + 1) =~= cells_view(cells@).take(i as int).push(
            cells@[i as int]@,
        ));
        i += 1;
    }
    assert(cells_view(cells@).take(i as int) =~= cells_view(cells@));
}

/// Appends `n` missing cells to `out`.
fn extend_nulls(out: &mut Vec<Cell>, n: usize)
    ensures
        cells_view(final(out)@) == cells_view(old(out)@) + nulls(n as nat),
{
    let ghost start = cells_view(out@);
    let mut i: usize = 0;
    while i < n
        invariant
            i <= n,
            cells_view(out@) == start + nulls(i as nat),
        decreases n - i,
    {
        let ghost before = cells_view(out@);
        out.push(Cell::Null);
        assert(cells_view(out@) =~= before.push(CellView::Null));
        assert(nulls((i + 1) as nat) =~= nulls(i as nat).push(CellView::Null));
        i += 1;
    }
}

/// Whether some cell is missing.
pub fn any_null(cells: &Vec<Cell>) -> (r: bool)
    ensures
        r == has_null(cells_view(cells@)),
{
    let mut i: usize = 0;
    while i < cells.len()
        invariant
            i <= cells.len(),
            forall|k: int| 0 <= k < i ==> !(cells_view(cells@)[k] is Null),
        decreases cells.len() - i,
    {
        match cells[i] {
            Cell::Null => {
                assert(cells_view(cells@)[i as int] is Null);
                return true;
            },
            _ => {},
        }
        i += 1;
    }
    false
}

/// Appends to `out` the cells that `table` gives to a field, if it can fill it.
fn extend_aligned(out: &mut Vec<Cell>, table: &Table, name: &str, kind: ColumnKind, nullable: bool) -> (ok:
    bool)
    requires
        table@.wf(),
    ensures
        ok == field_accepts(table@, name@, kind, nullable),
        ok ==> cells_view(final(out)@) == cells_view(old(out)@) + aligned_cells(table@, name@),
{
    match find_column(&table.columns, name) {
        Some(i) => {
            let column = &table.columns[i];
            assert(table@.columns[i as int] == column@);
            if column.kind != kind {
                return false;
            }
            if !nullable && any_null(&column.cells) {
                return false;
            }
            extend_cells(out, &column.cells);
            true
        },
        None => {
            if !nullable && table.height > 0 {
                assert(nulls(table.height as nat)[0] is Null);
                return false;
            }
            extend_nulls(out, table.height);
            true
        },
    }
}

/// The column of `a` with `b` appended for one field, if both can fill it.
fn append_field(a: &Table, b: &Table, field: &Column) -> (r: Option<Column>)
    requires
        a@.wf(),
        b@.wf(),
    ensures
        match r {
            Some(c) => {
                &&& field_accepts(a@, field@.name, field@.kind, field@.nullable)
                &&& field_accepts(b@, field@.name, field@.kind, field@.nullable)
                &&& c@ == appended_column(a@, b@, field@)
            },
            None => !(field_accepts(a@, field@.name, field@.kind, field@.nullable) && field_accepts(
                b@,
                field@.name,
                field@.kind,
                field@.nullable,
            )),
        },
{
    let mut cells: Vec<Cell> = Vec::new();
    assert(cells_view(cells@) =~= Seq::empty());
    if !extend_aligned(&mut cells, a, field.name.as_str(), field.kind, field.nullable) {
        return None;
    }
    if !extend_aligned(&mut cells, b, field.name.as_str(), field.kind, field.nullable) {
        return None;
    }
    let c = Column { name: field.name.clone(), kind: field.kind, nullable: field.nullable, cells };
    assert(c@.cells =~= appended_column(a@, b@, field@).cells);
    Some(c)
}

/// A table with another appended is well formed where both were and the
/// append is possible.
pub proof fn lemma_appended_wf(a: TableView, b: TableView)
    requires
        a.wf(),
        b.wf(),
        can_append(a, b),
    ensures
        appended(a, b).wf(),
{
    let t = appended(a, b);
    let fields = merged_fields(a.columns, b.columns);
    assert forall|c: int| 0 <= c < t.columns.len() implies column_wf(#[trigger] t.columns[c], t.height) by {
        let field = fields[c];
        assert(field_accepts(a, field.name, field.kind, field.nullable));
        assert(field_accepts(b, field.name, field.kind, field.nullable));
        lemma_index_of(a.columns, field.name, 0);
        lemma_index_of(b.columns, field.name, 0);
        let ia = index_of(a.columns, field.name, 0);
        let ib = index_of(b.columns, field.name, 0);
        if ia < a.columns.len() {
            assert(column_wf(a.columns[ia], a.height));
        }
        if ib < b.columns.len() {
            assert(column_wf(b.columns[ib], b.height));
        }
        let cells = t.columns[c].cells;
        assert(cells.len() == t.height);
        assert forall|i: int| 0 <= i < cells.len() implies cell_fits(t.columns[c].kind, #[trigger] cells[i]) by {
            if i < a.height {
                assert(cells[i] == aligned_cells(a, field.name)[i]);
            } else {
                assert(cells[i] == aligned_cells(b, field.name)[i - a.height]);
            }
        }
    }
}

/// Appends the rows of `b` to those of `a` under the union of their schemas.
/// Fails with `Arrow` where a column of one table has another kind than the
/// field of its name, or a field that is not nullable would get a missing
/// cell; with `Other` where the rows are too many to count.
pub fn append_tables(a: &Table, b: &Table) -> (r: Result<Table, ExpmanError>)
    requires
        a@.wf(),
        b@.wf(),
    ensures
        match r {
            Ok(t) => {
                &&& can_append(a@, b@)
                &&& a.height + b.height <= usize::MAX
                &&& t@ == appended(a@, b@)
                &&& t@.wf()
            },
            Err(ExpmanError::Arrow(_)) => !can_append(a@, b@),
            Err(ExpmanError::Other(_)) => can_append(a@, b@) && a.height + b.height > usize::MAX,
            Err(_) => false,
        },
{
    let ghost fields = merged_fields(a@.columns, b@.columns);
    let mut columns: Vec<Column> = Vec::new();
    let mut i: usize = 0;
    while i < a.columns.len()
        invariant
            i <= a.columns.len(),
            a@.wf(),
            b@.wf(),
            fields == merged_fields(a@.columns, b@.columns),
            columns@.len() == i,
            forall|f: int|
                0 <= f < i ==> {
                    &&& field_accepts(a@, (#[trigger] fields[f]).name, fields[f].kind, fields[f].nullable)
                    &&& field_accepts(b@, fields[f].name, fields[f].kind, fields[f].nullable)
                    &&& columns@[f]@ == appended_column(a@, b@, fields[f])
                },
        decreases a.columns.len() - i,
    {
        assert(fields[i as int] == a.columns@[i as int]@);
        match append_field(a, b, &a.columns[i]) {
            Some(c) => {
                columns.push(c);
            },
            None => {
                return Err(ExpmanError::Arrow("column types must match schema types".to_owned()));
            },
        }
        i += 1;
    }
    let ghost na = a.columns@.len() as int;
    let mut j: usize = 0;
    assert(b@.columns.take(0) =~= Seq::empty());
    while j < b.columns.len()
        invariant
            j <= b.columns.len(),
            a@.wf(),
            b@.wf(),
            na == a.columns@.len(),
            fields == merged_fields(a@.columns, b@.columns),
            columns@.len() == na + added_columns(a@.columns, b@.columns.take(j as int)).len(),
            forall|f: int|
                0 <= f < columns@.len() ==> {
                    &&& field_accepts(a@, (#[trigger] fields[f]).name, fields[f].kind, fields[f].nullable)
                    &&& field_accepts(b@, fields[f].name, fields[f].kind, fields[f].nullable)
                    &&& columns@[f]@ == appended_column(a@, b@, fields[f])
                },
        decreases b.columns.len() - j,
    {
        let field = &b.columns[j];
        proof {
            assert(b@.columns.take(j + 1).drop_last() =~= b@.columns.take(j as int));
            assert(b@.columns.take(j + 1).last() == field@);
            lemma_added_prefix(a@.columns, b@.columns, j + 1);
        }
        if find_column(&a.columns, field.name.as_str()).is_none() {
            let ghost at = columns@.len() as int;
            assert(added_columns(a@.columns, b@.columns.take(j + 1))[at - na] == field@);
            assert(fields[at] == field@);
            match append_field(a, b, field) {
                Some(c) => {
                    columns.push(c);
                },
                None => {
                    return Err(ExpmanError::Arrow("column types must match schema types".to_owned()));
                },
            }
        }
        j += 1;
    }
    proof {
        assert(b@.columns.take(j as int) =~= b@.columns);
        assert(columns@.len() == fields.len());
    }
    if b.height > usize::MAX - a.height {
        return Err(ExpmanError::Other("too many rows".to_owned()));
    }
    let t = Table { columns, height: a.height + b.height };
    proof {
        assert(t@.columns =~= appended(a@, b@).columns);
        lemma_appended_wf(a@, b@);
    }
    Ok(t)
}

/// Whether `b` can be stacked under `a`: both have as many columns, of the
/// same kinds in the same places.
pub open spec fn can_stack(a: TableView, b: TableView) -> bool {
    &&& a.columns.len() == b.columns.len()
    &&& forall|i: int| 0 <= i < a.columns.len() ==> (#[trigger] a.columns[i]).kind == b.columns[i].kind
}

/// `a` with the rows of `b` under it, column by column, under the names of `a`.
pub open spec fn stacked(a: TableView, b: TableView) -> TableView {
    TableView {
        columns: Seq::new(
            a.columns.len(),
            |i: int|
                ColumnView {
                    name: a.columns[i].name,
                    kind: a.columns[i].kind,
                    nullable: a.columns[i].nullable,
                    cells: a.columns[i].cells + b.columns[i].cells,
                },
        ),
        height: a.height + b.height,
    }
}

/// Puts the rows of `b` under those of `a`, column by column. Fails with
/// `Arrow` where the two differ in the number or the kinds of their columns,
/// with `Other` where the rows are too many to count.
pub fn stack_tables(a: &Table, b: &Table) -> (r: Result<Table, ExpmanError>)
    requires
        a@.wf(),
        b@.wf(),
    ensures
        match r {
            Ok(t) => {
                &&& can_stack(a@, b@)
                &&& a.height + b.height <= usize::MAX
                &&& t@ == stacked(a@, b@)
                &&& t@.wf()
            },
            Err(ExpmanError::Arrow(_)) => !can_stack(a@, b@),
            Err(ExpmanError::Other(_)) => can_stack(a@, b@) && a.height + b.height > usize::MAX,
            Err(_) => false,
        },
{
    if a.columns.len() != b.columns.len() {
        return Err(ExpmanError::Arrow("batches differ in their number of columns".to_owned()));
    }
    let mut columns: Vec<Column> = Vec::new();
    let mut i: usize = 0;
    while i < a.columns.len()
        invariant
            i <= a.columns.len(),
            a.columns@.len() == b.columns@.len(),
            a@.wf(),
            b@.wf(),
            columns@.len() == i,
            forall|k: int|
                0 <= k < i ==> {
                    &&& (#[trigger] a@.columns[k]).kind == b@.columns[k].kind
                    &&& columns@[k]@ == stacked(a@, b@).columns[k]
                },
        decreases a.columns.len() - i,
    {
        let left = &a.columns[i];
        let right = &b.columns[i];
        assert(a@.columns[i as int] == left@);
        assert(b@.columns[i as int] == right@);
        if left.kind != right.kind {
            return Err(ExpmanError::Arrow("batches differ in the type of a column".to_owned()));
        }
        let mut cells: Vec<Cell> = Vec::new();
        assert(cells_view(cells@) =~= Seq::empty());
        extend_cells(&mut cells, &left.cells);
        extend_cells(&mut cells, &right.cells);
        let c = Column { name: left.name.clone(), kind: left.kind, nullable: left.nullable, cells };
        assert(c@.cells =~= stacked(a@, b@).columns[i as int].cells);
        columns.push(c);
        i += 1;
    }
    if b.height > usize::MAX - a.height {
        return Err(ExpmanError::Other("too many rows".to_owned()));
    }
    let t = Table { columns, height: a.height + b.height };
    proof {
        assert(t@.columns =~= stacked(a@, b@).columns);
        assert forall|c: int| 0 <= c < t@.columns.len() implies column_wf(#[trigger] t@.columns[c], t@.height) by {
            assert(column_wf(a@.columns[c], a@.height));
            assert(column_wf(b@.columns[c], b@.height));
            let cells = t@.columns[c].cells;
            assert forall|r: int| 0 <= r < cells.len() implies cell_fits(t@.columns[c].kind, #[trigger] cells[r]) by {
                if r < a@.height {
                    assert(cells[r] == a@.columns[c].cells[r]);
                } else {
                    assert(cells[r] == b@.columns[c].cells[r - a@.height]);
                }
            }
        }
    }
    Ok(t)
}

/// The table without rows: the columns `step` and `timestamp`, both empty.
pub open spec fn empty_table() -> TableView {
    table_of_rows(Seq::empty())
}

/// What stacking tables comes to.
pub enum Stacked {
    /// The tables, stacked.
    Table(TableView),
    /// Two of them differ in the number or the kinds of their columns.
    Mismatch,
    /// Their rows are too many to count.
    TooTall,
}

/// The tables stacked in their order: the first, then each next one under what
/// came before; the table without rows where there is none. The first pair
/// that cannot be stacked, or whose rows are too many to count, decides.
pub open spec fn stack_all(tables: Seq<TableView>) -> Stacked
    decreases tables.len(),
{
    if tables.len() == 0 {
        Stacked::Table(empty_table())
    } else if tables.len() == 1 {
        Stacked::Table(tables[0])
    } else {
        match stack_all(tables.drop_last()) {
            Stacked::Table(t) => if !can_stack(t, tables.last()) {
                Stacked::Mismatch
            } else if t.height + tables.last().height > usize::MAX {
                Stacked::TooTall
            } else {
                Stacked::Table(stacked(t, tables.last()))
            },
            failed => failed,
        }
    }
}

/// Where a prefix of the tables fails to stack, the whole fails alike.
pub proof fn lemma_stack_all_fails(tables: Seq<TableView>, n: int)
    requires
        1 <= n <= tables.len(),
        !(stack_all(tables.take(n)) is Table),
    ensures
        stack_all(tables) == stack_all(tables.take(n)),
    decreases tables.len() - n,
{
    if n < tables.len() {
        assert(tables.take(n + 1).drop_last() =~= tables.take(n));
        lemma_stack_all_fails(tables, n + 1);
    } else {
        assert(tables.take(n) =~= tables);
    }
}

} // verus!
