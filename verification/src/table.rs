//! The columnar table that the metric store keeps: typed columns of nullable
//! cells, all of one height.

use vstd::prelude::*;

verus! {

/// Storage type of a column.
#[derive(Debug, Clone, Copy, PartialEq, Eq, Structural)]
pub enum ColumnKind {
    /// 64-bit IEEE-754 numbers.
    Float,
    /// Signed 64-bit integers.
    Int,
    /// Microseconds since the Unix epoch, UTC.
    Timestamp,
    /// UTF-8 text.
    Text,
    /// Any other storage type. Its cells cannot be read and count as missing.
    Unsupported,
}

/// A cell as the contracts see it.
pub enum CellView {
    Null,
    Float(u64),
    Int(i64),
    Timestamp(i64),
    Text(Seq<char>),
}

/// One cell of a column. A number is held by its IEEE-754 bit pattern.
#[derive(Debug, Clone)]
pub enum Cell {
    Null,
    Float(u64),
    Int(i64),
    Timestamp(i64),
    Text(String),
}

impl View for Cell {
    type V = CellView;

    open spec fn view(&self) -> CellView {
        match self {
            Cell::Null => CellView::Null,
            Cell::Float(bits) => CellView::Float(*bits),
            Cell::Int(i) => CellView::Int(*i),
            Cell::Timestamp(t) => CellView::Timestamp(*t),
            Cell::Text(s) => CellView::Text(s@),
        }
    }
}

/// Whether a cell may stand in a column of the given kind.
pub open spec fn cell_fits(kind: ColumnKind, cell: CellView) -> bool {
    match cell {
        CellView::Null => true,
        CellView::Float(_) => kind == ColumnKind::Float,
        CellView::Int(_) => kind == ColumnKind::Int,
        CellView::Timestamp(_) => kind == ColumnKind::Timestamp,
        CellView::Text(_) => kind == ColumnKind::Text,
    }
}

/// A column as the contracts see it.
pub struct ColumnView {
    pub name: Seq<char>,
    pub kind: ColumnKind,
    pub nullable: bool,
    pub cells: Seq<CellView>,
}

/// The contract-level content of a list of cells.
pub open spec fn cells_view(cells: Seq<Cell>) -> Seq<CellView> {
    Seq::new(cells.len(), |i: int| cells[i]@)
}

/// A typed, named column.
#[derive(Debug, Clone)]
pub struct Column {
    pub name: String,
    pub kind: ColumnKind,
    /// Whether the column is declared to admit missing cells.
    pub nullable: bool,
    pub cells: Vec<Cell>,
}

impl View for Column {
    type V = ColumnView;

    open spec fn view(&self) -> ColumnView {
        ColumnView {
            name: self.name@,
            kind: self.kind,
            nullable: self.nullable,
            cells: cells_view(self.cells@),
        }
    }
}

/// The contract-level content of a list of columns.
pub open spec fn columns_view(columns: Seq<Column>) -> Seq<ColumnView> {
    Seq::new(columns.len(), |i: int| columns[i]@)
}

/// The contract-level content of a list of texts.
pub open spec fn strings_view(texts: Seq<String>) -> Seq<Seq<char>> {
    Seq::new(texts.len(), |i: int| texts[i]@)
}

/// A column is well formed for a height when it has that many cells and each
/// cell is missing or of the column's kind.
pub open spec fn column_wf(column: ColumnView, height: nat) -> bool {
    &&& column.cells.len() == height
    &&& forall|i: int| 0 <= i < column.cells.len() ==> cell_fits(column.kind, #[trigger] column.cells[i])
}

/// A table as the contracts see it.
pub struct TableView {
    pub columns: Seq<ColumnView>,
    pub height: nat,
}

impl TableView {
    /// Every column is well formed for the table's height.
    pub open spec fn wf(self) -> bool {
        forall|c: int| 0 <= c < self.columns.len() ==> column_wf(#[trigger] self.columns[c], self.height)
    }
}

/// Columns of one height. Two columns may bear the same name; a lookup by name
/// finds the first.
#[derive(Debug, Clone)]
pub struct Table {
    pub columns: Vec<Column>,
    /// Number of rows.
    pub height: usize,
}

impl View for Table {
    type V = TableView;

    open spec fn view(&self) -> TableView {
        TableView { columns: columns_view(self.columns@), height: self.height as nat }
    }
}

/// Whether a cell may stand in a column of the given kind.
pub fn fits_kind(kind: ColumnKind, cell: &Cell) -> (r: bool)
    ensures
        r == cell_fits(kind, cell@),
{
    match cell {
        Cell::Null => true,
        Cell::Float(_) => kind == ColumnKind::Float,
        Cell::Int(_) => kind == ColumnKind::Int,
        Cell::Timestamp(_) => kind == ColumnKind::Timestamp,
        Cell::Text(_) => kind == ColumnKind::Text,
    }
}

impl Column {
    /// Whether the column is well formed for a table of the given height.
    pub fn is_well_formed(&self, height: usize) -> (r: bool)
        ensures
            r == column_wf(self@, height as nat),
    {
        if self.cells.len() != height {
            return false;
        }
        let mut i: usize = 0;
        while i < self.cells.len()
            invariant
                i <= self.cells.len(),
                forall|k: int| 0 <= k < i ==> cell_fits(self.kind, #[trigger] self@.cells[k]),
            decreases self.cells.len() - i,
        {
            assert(self@.cells[i as int] == self.cells@[i as int]@);
            if !fits_kind(self.kind, &self.cells[i]) {
                return false;
            }
            i += 1;
        }
        true
    }
}

impl Table {
    /// Whether the table is well formed: a caller that built a table by hand
    /// asks this before it hands the table to the store.
    pub fn is_well_formed(&self) -> (r: bool)
        ensures
            r == self@.wf(),
    {
        let mut c: usize = 0;
        while c < self.columns.len()
            invariant
                c <= self.columns.len(),
                forall|k: int| 0 <= k < c ==> column_wf(#[trigger] self@.columns[k], self@.height),
            decreases self.columns.len() - c,
        {
            assert(self@.columns[c as int] == self.columns@[c as int]@);
            if !self.columns[c].is_well_formed(self.height) {
                return false;
            }
            c += 1;
        }
        true
    }
}

} // verus!
