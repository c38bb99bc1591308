//! Arrow arrays, record batches and Parquet bytes, as far as the store needs
//! them, and the passage between them and the store's tables.

use vstd::prelude::*;
use crate::error::ExpmanError;
use vstd::string::StringSliceAdditionalSpecFns;
use vstd::utf8::encode_utf8;
use crate::append::{Stacked, empty_table, has_null, lemma_stack_all_fails, nulls, stack_all, stack_tables};
use crate::ingest::rows_to_table;
use crate::models::MetricRow;
use crate::table::{
    Cell, CellView, Column, ColumnKind, ColumnView, Table, TableView, cell_fits, cells_view,
    column_wf,
};

verus! {

/// Arrow's `ArrayData`: the buffers of one array. Opaque here.
#[verifier::external_type_specification]
#[verifier::external_body]
pub struct ExArrayData(arrow::array::ArrayData);

/// Arrow's error. Opaque here.
#[verifier::external_type_specification]
#[verifier::external_body]
pub struct ExArrowError(arrow::error::ArrowError);

/// Parquet's error. Opaque here.
#[verifier::external_type_specification]
#[verifier::external_body]
pub struct ExParquetError(parquet::errors::ParquetError);

/// Arrow's `RecordBatch`: named columns of one height. What it holds is known
/// only through `batch_columns` and `batch_height`.
#[verifier::external_body]
pub struct Batch {
    inner: arrow::record_batch::RecordBatch,
}

/// Storage type of an Arrow array.
pub uninterp spec fn array_kind(a: arrow::array::ArrayData) -> ColumnKind;

/// The cells that an Arrow array holds, in order.
pub uninterp spec fn array_cells(a: arrow::array::ArrayData) -> Seq<CellView>;

/// The columns of a record batch, in order: name, kind and nullability from
/// its schema, cells from its arrays.
pub uninterp spec fn batch_columns(b: Batch) -> Seq<ColumnView>;

/// The number of rows of a record batch.
pub uninterp spec fn batch_height(b: Batch) -> nat;

/// The bytes of the Parquet file that holds one record batch, compressed
/// with Snappy; `None` where the writer refuses the batch.
pub uninterp spec fn parquet_image(b: Batch) -> Option<Seq<u8>>;

/// The record batches that a Parquet file holds, in order; `None` where the
/// bytes are no such file.
pub uninterp spec fn parquet_batches(bytes: Seq<u8>) -> Option<Seq<Batch>>;

/// The cell of a number given by its bits, or of none.
pub open spec fn float_cell(v: Option<u64>) -> CellView {
    match v {
        Some(bits) => CellView::Float(bits),
        None => CellView::Null,
    }
}

/// The cell of an integer, or of none.
pub open spec fn int_cell(v: Option<i64>) -> CellView {
    match v {
        Some(i) => CellView::Int(i),
        None => CellView::Null,
    }
}

/// The cell of a timestamp, or of none.
pub open spec fn timestamp_cell(v: Option<i64>) -> CellView {
    match v {
        Some(t) => CellView::Timestamp(t),
        None => CellView::Null,
    }
}

/// The cell of a text, or of none.
pub open spec fn string_cell(v: Option<String>) -> CellView {
    match v {
        Some(s) => CellView::Text(s@),
        None => CellView::Null,
    }
}

/// The cell of a number given by its bits, where it is marked as present.
pub open spec fn masked_cell(bits: u64, present: bool) -> CellView {
    if present {
        CellView::Float(bits)
    } else {
        CellView::Null
    }
}

/// Calls `Float64Array::new` on a buffer of the given bit patterns
/// (`Buffer::from_vec`) and the given validity mask (`NullBuffer::from`), and
/// hands back the array's data: a slot whose mask bit is off is null.
#[verifier::external_body]
pub(crate) fn float_array(bits: Vec<u64>, present: Vec<bool>) -> (r: arrow::array::ArrayData)
    requires
        bits@.len() == present@.len(),
    ensures
        array_kind(r) == ColumnKind::Float,
        array_cells(r) == Seq::new(bits@.len(), |i: int| masked_cell(bits@[i], present@[i])),
{
    let values = arrow::buffer::Buffer::from_vec(bits);
    let nulls = arrow::buffer::NullBuffer::from(present);
    arrow::array::Array::into_data(arrow::array::Float64Array::new(values.into(), Some(nulls)))
}

/// Calls `Int64Array::from` on the values and hands back the array's data.
#[verifier::external_body]
pub(crate) fn int_array(values: Vec<Option<i64>>) -> (r: arrow::array::ArrayData)
    ensures
        array_kind(r) == ColumnKind::Int,
        array_cells(r) == Seq::new(values@.len(), |i: int| int_cell(values@[i])),
{
    arrow::array::Array::into_data(arrow::array::Int64Array::from(values))
}

/// Calls `TimestampMicrosecondArray::from` on the values, sets the time zone
/// `UTC` with `with_timezone`, and hands back the array's data.
#[verifier::external_body]
pub(crate) fn timestamp_array(values: Vec<Option<i64>>) -> (r: arrow::array::ArrayData)
    ensures
        array_kind(r) == ColumnKind::Timestamp,
        array_cells(r) == Seq::new(values@.len(), |i: int| timestamp_cell(values@[i])),
{
    let array = arrow::array::TimestampMicrosecondArray::from(values).with_timezone("UTC");
    arrow::array::Array::into_data(array)
}

/// The bytes that a text cell takes in UTF-8; none for any other cell.
pub open spec fn text_len(cell: CellView) -> nat {
    match cell {
        CellView::Text(s) => encode_utf8(s).len(),
        _ => 0,
    }
}

/// The bytes that the texts of a column take together.
pub open spec fn text_bytes(cells: Seq<CellView>) -> nat
    decreases cells.len(),
{
    if cells.len() == 0 {
        0
    } else {
        text_bytes(cells.drop_last()) + text_len(cells.last())
    }
}

/// The most bytes that the texts of one string array may take together: its
/// offsets are signed 32-bit numbers.
pub const MAX_TEXT_BYTES: usize = 0x7fff_ffff;

/// Calls `StringArray::from` on the values and hands back the array's data.
/// The array's builder panics once the texts take more bytes together than a
/// 32-bit offset can count; such values are left out.
#[verifier::external_body]
pub(crate) fn text_array(values: Vec<Option<String>>) -> (r: arrow::array::ArrayData)
    requires
        text_bytes(Seq::new(values@.len(), |i: int| string_cell(values@[i]))) <= MAX_TEXT_BYTES,
    ensures
        array_kind(r) == ColumnKind::Text,
        array_cells(r) == Seq::new(values@.len(), |i: int| string_cell(values@[i])),
{
    arrow::array::Array::into_data(arrow::array::StringArray::from(values))
}

/// The columns that a batch made of the given names, nullabilities and arrays
/// has.
pub open spec fn columns_of_arrays(
    names: Seq<String>,
    nullable: Seq<bool>,
    arrays: Seq<arrow::array::ArrayData>,
) -> Seq<ColumnView> {
    Seq::new(
        arrays.len(),
        |i: int|
            ColumnView {
                name: names[i]@,
                kind: array_kind(arrays[i]),
                nullable: nullable[i],
                cells: array_cells(arrays[i]),
            },
    )
}

/// Whether `RecordBatch::try_new` refuses arrays under fields that are typed
/// as the arrays: there is no array, two arrays differ in length, or a field
/// that is not nullable has a missing cell.
pub open spec fn batch_refused(nullable: Seq<bool>, arrays: Seq<arrow::array::ArrayData>) -> bool {
    ||| arrays.len() == 0
    ||| exists|i: int|
        0 <= i < arrays.len() && array_cells(#[trigger] arrays[i]).len() != array_cells(arrays[0]).len()
    ||| exists|i: int| 0 <= i < arrays.len() && !nullable[i] && has_null(array_cells(#[trigger] arrays[i]))
}

/// Calls `RecordBatch::try_new` with one field for each array, named and
/// nullable as given and typed as the array. It fails exactly where there is
/// no array, two arrays differ in length, or a field that is not nullable has
/// a missing cell; on success the batch holds these columns, and its height
/// is the length of the first.
#[verifier::external_body]
pub(crate) fn make_batch(names: &Vec<String>, nullable: &Vec<bool>, arrays: Vec<arrow::array::ArrayData>) -> (r:
    Result<Batch, arrow::error::ArrowError>)
    requires
        names@.len() == arrays@.len(),
        nullable@.len() == arrays@.len(),
    ensures
        r is Err <==> batch_refused(nullable@, arrays@),
        r matches Ok(b) ==> {
            &&& batch_columns(b) == columns_of_arrays(names@, nullable@, arrays@)
            &&& batch_height(b) == array_cells(arrays@[0]).len()
        },
{
    let fields: Vec<arrow::datatypes::Field> = names.iter().zip(nullable).zip(&arrays).map(
        |((name, null), a)| arrow::datatypes::Field::new(name, a.data_type().clone(), *null),
    ).collect();
    let columns = arrays.into_iter().map(arrow::array::make_array).collect();
    let schema = std::sync::Arc::new(arrow::datatypes::Schema::new(fields));
    Ok(Batch { inner: arrow::record_batch::RecordBatch::try_new(schema, columns)? })
}

/// Calls `RecordBatch::num_rows`.
#[verifier::external_body]
pub(crate) fn batch_rows(b: &Batch) -> (r: usize)
    ensures
        r == batch_height(*b),
{
    b.inner.num_rows()
}

/// Calls `RecordBatch::num_columns`.
#[verifier::external_body]
pub(crate) fn batch_width(b: &Batch) -> (r: usize)
    ensures
        r == batch_columns(*b).len(),
{
    b.inner.num_columns()
}

/// Calls `Field::name` on field `i` of the batch's schema.
#[verifier::external_body]
pub(crate) fn column_name(b: &Batch, i: usize) -> (r: String)
    requires
        i < batch_columns(*b).len(),
    ensures
        r@ == batch_columns(*b)[i as int].name,
{
    b.inner.schema_ref().field(i).name().clone()
}

/// Calls `Field::is_nullable` on field `i` of the batch's schema.
#[verifier::external_body]
pub(crate) fn column_nullable(b: &Batch, i: usize) -> (r: bool)
    requires
        i < batch_columns(*b).len(),
    ensures
        r == batch_columns(*b)[i as int].nullable,
{
    b.inner.schema_ref().field(i).is_nullable()
}

/// Calls `Field::data_type` on field `i` of the batch's schema and tells the
/// four storage types that the store reads from all others.
#[verifier::external_body]
pub(crate) fn column_kind(b: &Batch, i: usize) -> (r: ColumnKind)
    requires
        i < batch_columns(*b).len(),
    ensures
        r == batch_columns(*b)[i as int].kind,
{
    match b.inner.schema_ref().field(i).data_type() {
        arrow::datatypes::DataType::Float64 => ColumnKind::Float,
        arrow::datatypes::DataType::Int64 => ColumnKind::Int,
        arrow::datatypes::DataType::Timestamp(arrow::datatypes::TimeUnit::Microsecond, _) => {
            ColumnKind::Timestamp
        },
        arrow::datatypes::DataType::Utf8 => ColumnKind::Text,
        _ => ColumnKind::Unsupported,
    }
}

/// Reads column `i` with `as_primitive::<Float64Type>`: one entry for each
/// row, `None` for a null slot, else the number's bits.
#[verifier::external_body]
pub(crate) fn float_column(b: &Batch, i: usize) -> (r: Vec<Option<u64>>)
    requires
        i < batch_columns(*b).len(),
        batch_columns(*b)[i as int].kind == ColumnKind::Float,
    ensures
        r@.len() == batch_height(*b),
        batch_columns(*b)[i as int].cells == Seq::new(r@.len(), |j: int| float_cell(r@[j])),
{
    let array = arrow::array::AsArray::as_primitive::<arrow::datatypes::Float64Type>(b.inner.column(i));
    array.iter().map(|v| v.map(|x| x.to_bits())).collect()
}

/// Reads column `i` with `as_primitive::<Int64Type>`: one entry for each row,
/// `None` for a null slot.
#[verifier::external_body]
pub(crate) fn int_column(b: &Batch, i: usize) -> (r: Vec<Option<i64>>)
    requires
        i < batch_columns(*b).len(),
        batch_columns(*b)[i as int].kind == ColumnKind::Int,
    ensures
        r@.len() == batch_height(*b),
        batch_columns(*b)[i as int].cells == Seq::new(r@.len(), |j: int| int_cell(r@[j])),
{
    arrow::array::AsArray::as_primitive::<arrow::datatypes::Int64Type>(b.inner.column(i)).iter().collect()
}

/// Reads column `i` with `as_primitive::<TimestampMicrosecondType>`: one entry
/// for each row, `None` for a null slot.
#[verifier::external_body]
pub(crate) fn timestamp_column(b: &Batch, i: usize) -> (r: Vec<Option<i64>>)
    requires
        i < batch_columns(*b).len(),
        batch_columns(*b)[i as int].kind == ColumnKind::Timestamp,
    ensures
        r@.len() == batch_height(*b),
        batch_columns(*b)[i as int].cells == Seq::new(r@.len(), |j: int| timestamp_cell(r@[j])),
{
    let column = b.inner.column(i);
    arrow::array::AsArray::as_primitive::<arrow::datatypes::TimestampMicrosecondType>(column).iter().collect()
}

/// Reads column `i` with `as_string::<i32>`: one entry for each row, `None`
/// for a null slot.
#[verifier::external_body]
pub(crate) fn text_column(b: &Batch, i: usize) -> (r: Vec<Option<String>>)
    requires
        i < batch_columns(*b).len(),
        batch_columns(*b)[i as int].kind == ColumnKind::Text,
    ensures
        r@.len() == batch_height(*b),
        batch_columns(*b)[i as int].cells == Seq::new(r@.len(), |j: int| string_cell(r@[j])),
{
    let array = arrow::array::AsArray::as_string::<i32>(b.inner.column(i));
    array.iter().map(|v| v.map(|s| s.to_string())).collect()
}

/// Writes the batch with `ArrowWriter` (`try_new`, `write`, `close`) into
/// memory, under Snappy compression.
#[verifier::external_body]
pub(crate) fn write_parquet(b: &Batch) -> (r: Result<Vec<u8>, parquet::errors::ParquetError>)
    ensures
        match r {
            Ok(bytes) => parquet_image(*b) == Some(bytes@),
            Err(_) => parquet_image(*b) is None,
        },
{
    let props = parquet::file::properties::WriterProperties::builder().set_compression(
        parquet::basic::Compression::SNAPPY,
    ).build();
    let mut bytes: Vec<u8> = Vec::new();
    let mut writer = parquet::arrow::ArrowWriter::try_new(&mut bytes, b.inner.schema(), Some(props))?;
    writer.write(&b.inner)?;
    writer.close()?;
    Ok(bytes)
}

/// Reads the bytes with `ParquetRecordBatchReaderBuilder` (`try_new`, `build`)
/// and gathers the batches that the reader yields.
#[verifier::external_body]
pub(crate) fn read_parquet(bytes: &[u8]) -> (r: Result<Vec<Batch>, parquet::errors::ParquetError>)
    ensures
        match r {
            Ok(batches) => parquet_batches(bytes@) == Some(batches@),
            Err(_) => parquet_batches(bytes@) is None,
        },
{
    let data = bytes::Bytes::copy_from_slice(bytes);
    let reader = parquet::arrow::arrow_reader::ParquetRecordBatchReaderBuilder::try_new(data)?.build()?;
    let mut batches: Vec<Batch> = Vec::new();
    for batch in reader {
        batches.push(Batch { inner: batch? });
    }
    Ok(batches)
}

/// Calls `to_string` on an error of Arrow.
#[verifier::external_body]
pub(crate) fn arrow_error_text(e: &arrow::error::ArrowError) -> String {
    e.to_string()
}

/// Calls `to_string` on an error of Parquet.
#[verifier::external_body]
pub(crate) fn parquet_error_text(e: &parquet::errors::ParquetError) -> String {
    e.to_string()
}

// ---------------------------------------------------------------------------
// From a record batch to a table
// ---------------------------------------------------------------------------

/// A column as the store reads it: one of a kind that it cannot read counts as
/// missing in every row.
pub open spec fn readable_column(column: ColumnView, height: nat) -> ColumnView {
    if column.kind == ColumnKind::Unsupported {
        ColumnView { name: column.name, kind: column.kind, nullable: column.nullable, cells: nulls(height) }
    } else {
        column
    }
}

/// The table that a record batch holds.
pub open spec fn table_of_batch(b: Batch) -> TableView {
    TableView {
        columns: Seq::new(
            batch_columns(b).len(),
            |i: int| readable_column(batch_columns(b)[i], batch_height(b)),
        ),
        height: batch_height(b),
    }
}

/// Cells for numbers read from an array.
fn cells_of_floats(values: &Vec<Option<u64>>) -> (cells: Vec<Cell>)
    ensures
        cells_view(cells@) == Seq::new(values@.len(), |j: int| float_cell(values@[j])),
{
    let mut cells: Vec<Cell> = Vec::new();
    let mut j: usize = 0;
    while j < values.len()
        invariant
            j <= values.len(),
            cells@.len() == j,
            forall|k: int| 0 <= k < j ==> (#[trigger] cells@[k])@ == float_cell(values@[k]),
        decreases values.len() - j,
    {
        let cell = match values[j] {
            Some(bits) => Cell::Float(bits),
            None => Cell::Null,
        };
        cells.push(cell);
        j += 1;
    }
    assert(cells_view(cells@) =~= Seq::new(values@.len(), |j: int| float_cell(values@[j])));
    cells
}

/// Cells for integers read from an array.
fn cells_of_ints(values: &Vec<Option<i64>>) -> (cells: Vec<Cell>)
    ensures
        cells_view(cells@) == Seq::new(values@.len(), |j: int| int_cell(values@[j])),
{
    let mut cells: Vec<Cell> = Vec::new();
    let mut j: usize = 0;
    while j < values.len()
        invariant
            j <= values.len(),
            cells@.len() == j,
            forall|k: int| 0 <= k < j ==> (#[trigger] cells@[k])@ == int_cell(values@[k]),
        decreases values.len() - j,
    {
        let cell = match values[j] {
            Some(i) => Cell::Int(i),
            None => Cell::Null,
        };
        cells.push(cell);
        j += 1;
    }
    assert(cells_view(cells@) =~= Seq::new(values@.len(), |j: int| int_cell(values@[j])));
    cells
}

/// Cells for timestamps read from an array.
fn cells_of_timestamps(values: &Vec<Option<i64>>) -> (cells: Vec<Cell>)
    ensures
        cells_view(cells@) == Seq::new(values@.len(), |j: int| timestamp_cell(values@[j])),
{
    let mut cells: Vec<Cell> = Vec::new();
    let mut j: usize = 0;
    while j < values.len()
        invariant
            j <= values.len(),
            cells@.len() == j,
            forall|k: int| 0 <= k < j ==> (#[trigger] cells@[k])@ == timestamp_cell(values@[k]),
        decreases values.len() - j,
    {
        let cell = match values[j] {
            Some(t) => Cell::Timestamp(t),
            None => Cell::Null,
        };
        cells.push(cell);
        j += 1;
    }
    assert(cells_view(cells@) =~= Seq::new(values@.len(), |j: int| timestamp_cell(values@[j])));
    cells
}

/// Cells for texts read from an array.
fn cells_of_texts(values: &Vec<Option<String>>) -> (cells: Vec<Cell>)
    ensures
        cells_view(cells@) == Seq::new(values@.len(), |j: int| string_cell(values@[j])),
{
    let mut cells: Vec<Cell> = Vec::new();
    let mut j: usize = 0;
    while j < values.len()
        invariant
            j <= values.len(),
            cells@.len() == j,
            forall|k: int| 0 <= k < j ==> (#[trigger] cells@[k])@ == string_cell(values@[k]),
        decreases values.len() - j,
    {
        let cell = match &values[j] {
            Some(s) => Cell::Text(s.clone()),
            None => Cell::Null,
        };
        cells.push(cell);
        j += 1;
    }
    assert(cells_view(cells@) =~= Seq::new(values@.len(), |j: int| string_cell(values@[j])));
    cells
}

/// `n` missing cells.
fn null_cells(n: usize) -> (cells: Vec<Cell>)
    ensures
        cells_view(cells@) == nulls(n as nat),
{
    let mut cells: Vec<Cell> = Vec::new();
    let mut j: usize = 0;
    while j < n
        invariant
            j <= n,
            cells@.len() == j,
            forall|k: int| 0 <= k < j ==> (#[trigger] cells@[k])@ == CellView::Null,
        decreases n - j,
    {
        cells.push(Cell::Null);
        j += 1;
    }
    assert(cells_view(cells@) =~= nulls(n as nat));
    cells
}

/// Reads a record batch into a table.
pub fn batch_to_table(b: &Batch) -> (t: Table)
    ensures
        t@ == table_of_batch(*b),
        t@.wf(),
{
    let height: usize = batch_rows(b);
    let width: usize = batch_width(b);
    let mut columns: Vec<Column> = Vec::new();
    let mut i: usize = 0;
    while i < width
        invariant
            i <= width,
            width == batch_columns(*b).len(),
            height == batch_height(*b),
            columns@.len() == i,
            forall|k: int|
                0 <= k < i ==> {
                    &&& (#[trigger] columns@[k])@ == readable_column(batch_columns(*b)[k], height as nat)
                    &&& column_wf(columns@[k]@, height as nat)
                },
        decreases width - i,
    {
        let kind = column_kind(b, i);
        let cells = match kind {
            ColumnKind::Float => cells_of_floats(&float_column(b, i)),
            ColumnKind::Int => cells_of_ints(&int_column(b, i)),
            ColumnKind::Timestamp => cells_of_timestamps(&timestamp_column(b, i)),
            ColumnKind::Text => cells_of_texts(&text_column(b, i)),
            ColumnKind::Unsupported => null_cells(height),
        };
        let c = Column { name: column_name(b, i), kind, nullable: column_nullable(b, i), cells };
        assert(c@.cells =~= readable_column(batch_columns(*b)[i as int], height as nat).cells);
        columns.push(c);
        i += 1;
    }
    let t = Table { columns, height };
    assert(t@.columns =~= table_of_batch(*b).columns);
    t
}

/// The tables of a list of record batches.
pub open spec fn tables_of(batches: Seq<Batch>) -> Seq<TableView> {
    Seq::new(batches.len(), |i: int| table_of_batch(batches[i]))
}

/// What reading a Parquet file comes to.
pub enum Decoded {
    /// The table that the file holds.
    Table(TableView),
    /// The bytes are no Parquet file.
    NotParquet,
    /// The record batches of the file differ in schema.
    Mismatch,
    /// The rows of the file are too many to count.
    TooTall,
}

/// The table that a Parquet file holds: its record batches stacked in their
/// order.
pub open spec fn decoded_table(bytes: Seq<u8>) -> Decoded {
    match parquet_batches(bytes) {
        Some(batches) => match stack_all(tables_of(batches)) {
            Stacked::Table(t) => Decoded::Table(t),
            Stacked::Mismatch => Decoded::Mismatch,
            Stacked::TooTall => Decoded::TooTall,
        },
        None => Decoded::NotParquet,
    }
}

/// The table without rows.
pub fn new_table() -> (t: Table)
    ensures
        t@ == empty_table(),
        t@.wf(),
{
    let rows: Vec<MetricRow> = Vec::new();
    let t = rows_to_table(rows.as_slice());
    assert(crate::models::rows_view(rows@) =~= Seq::empty());
    t
}

/// Stacks the tables of record batches in their order. Fails with `Arrow`
/// where two of them differ in schema, with `Other` where the rows are too
/// many to count, whichever comes first.
pub fn batches_to_table(batches: &Vec<Batch>) -> (r: Result<Table, ExpmanError>)
    ensures
        match stack_all(tables_of(batches@)) {
            Stacked::Table(t) => r matches Ok(table) && table@ == t && table@.wf(),
            Stacked::Mismatch => r matches Err(ExpmanError::Arrow(_)),
            Stacked::TooTall => r matches Err(ExpmanError::Other(_)),
        },
{
    if batches.len() == 0 {
        return Ok(new_table());
    }
    let ghost all = tables_of(batches@);
    let mut table = batch_to_table(&batches[0]);
    let mut i: usize = 1;
    assert(all.take(1) =~= seq![all[0]]);
    while i < batches.len()
        invariant
            1 <= i <= batches.len(),
            all == tables_of(batches@),
            stack_all(all.take(i as int)) == Stacked::Table(table@),
            table@.wf(),
        decreases batches.len() - i,
    {
        let next = batch_to_table(&batches[i]);
        proof {
            assert(all.take(i + 1).drop_last() =~= all.take(i as int));
            assert(all.take(i + 1).last() == next@);
        }
        match stack_tables(&table, &next) {
            Ok(t) => {
                table = t;
            },
            Err(e) => {
                proof {
                    lemma_stack_all_fails(all, i + 1);
                }
                return Err(e);
            },
        }
        i += 1;
    }
    assert(all.take(i as int) =~= all);
    Ok(table)
}

/// Reads the table that a Parquet file holds. Fails with `Parquet` where the
/// bytes are no Parquet file, with `Arrow` where its batches differ in schema,
/// with `Other` where its rows are too many to count.
pub fn decode_table(bytes: &[u8]) -> (r: Result<Table, ExpmanError>)
    ensures
        match decoded_table(bytes@) {
            Decoded::Table(t) => r matches Ok(table) && table@ == t && table@.wf(),
            Decoded::NotParquet => r matches Err(ExpmanError::Parquet(_)),
            Decoded::Mismatch => r matches Err(ExpmanError::Arrow(_)),
            Decoded::TooTall => r matches Err(ExpmanError::Other(_)),
        },
{
    match read_parquet(bytes) {
        Ok(batches) => batches_to_table(&batches),
        Err(e) => Err(ExpmanError::Parquet(parquet_error_text(&e))),
    }
}

// ---------------------------------------------------------------------------
// From a table to Parquet bytes
// ---------------------------------------------------------------------------

/// The bit patterns of a column of numbers, zero for a missing cell, and
/// which of the cells are present.
fn floats_of_cells(cells: &Vec<Cell>) -> (r: (Vec<u64>, Vec<bool>))
    requires
        forall|j: int| 0 <= j < cells@.len() ==> cell_fits(ColumnKind::Float, #[trigger] cells_view(cells@)[j]),
    ensures
        r.0@.len() == r.1@.len(),
        Seq::new(r.0@.len(), |j: int| masked_cell(r.0@[j], r.1@[j])) == cells_view(cells@),
{
    let mut bits: Vec<u64> = Vec::new();
    let mut present: Vec<bool> = Vec::new();
    let mut j: usize = 0;
    while j < cells.len()
        invariant
            j <= cells.len(),
            bits@.len() == j,
            present@.len() == j,
            forall|k: int| 0 <= k < cells@.len() ==> cell_fits(ColumnKind::Float, #[trigger] cells_view(cells@)[k]),
            forall|k: int| 0 <= k < j ==> masked_cell(#[trigger] bits@[k], present@[k]) == cells@[k]@,
        decreases cells.len() - j,
    {
        assert(cell_fits(ColumnKind::Float, cells_view(cells@)[j as int]));
        match cells[j] {
            Cell::Float(b) => {
                bits.push(b);
                present.push(true);
            },
            _ => {
                bits.push(0);
                present.push(false);
            },
        }
        j += 1;
    }
    assert(Seq::new(bits@.len(), |j: int| masked_cell(bits@[j], present@[j])) =~= cells_view(cells@));
    (bits, present)
}

/// The integers of a column of integers, `None` for a missing cell.
fn ints_of_cells(cells: &Vec<Cell>) -> (values: Vec<Option<i64>>)
    requires
        forall|j: int| 0 <= j < cells@.len() ==> cell_fits(ColumnKind::Int, #[trigger] cells_view(cells@)[j]),
    ensures
        Seq::new(values@.len(), |j: int| int_cell(values@[j])) == cells_view(cells@),
{
    let mut values: Vec<Option<i64>> = Vec::new();
    let mut j: usize = 0;
    while j < cells.len()
        invariant
            j <= cells.len(),
            values@.len() == j,
            forall|k: int| 0 <= k < cells@.len() ==> cell_fits(ColumnKind::Int, #[trigger] cells_view(cells@)[k]),
            forall|k: int| 0 <= k < j ==> int_cell(#[trigger] values@[k]) == cells@[k]@,
        decreases cells.len() - j,
    {
        assert(cell_fits(ColumnKind::Int, cells_view(cells@)[j as int]));
        let value = match cells[j] {
            Cell::Int(i) => Some(i),
            _ => None,
        };
        values.push(value);
        j += 1;
    }
    assert(Seq::new(values@.len(), |j: int| int_cell(values@[j])) =~= cells_view(cells@));
    values
}

/// The timestamps of a column of timestamps, `None` for a missing cell.
fn timestamps_of_cells(cells: &Vec<Cell>) -> (values: Vec<Option<i64>>)
    requires
        forall|j: int|
            0 <= j < cells@.len() ==> cell_fits(ColumnKind::Timestamp, #[trigger] cells_view(cells@)[j]),
    ensures
        Seq::new(values@.len(), |j: int| timestamp_cell(values@[j])) == cells_view(cells@),
{
    let mut values: Vec<Option<i64>> = Vec::new();
    let mut j: usize = 0;
    while j < cells.len()
        invariant
            j <= cells.len(),
            values@.len() == j,
            forall|k: int|
                0 <= k < cells@.len() ==> cell_fits(ColumnKind::Timestamp, #[trigger] cells_view(cells@)[k]),
            forall|k: int| 0 <= k < j ==> timestamp_cell(#[trigger] values@[k]) == cells@[k]@,
        decreases cells.len() - j,
    {
        assert(cell_fits(ColumnKind::Timestamp, cells_view(cells@)[j as int]));
        let value = match cells[j] {
            Cell::Timestamp(t) => Some(t),
            _ => None,
        };
        values.push(value);
        j += 1;
    }
    assert(Seq::new(values@.len(), |j: int| timestamp_cell(values@[j])) =~= cells_view(cells@));
    values
}

/// The texts of a longer list of cells take at least as many bytes as those
/// of its beginning.
proof fn lemma_text_bytes_grow(cells: Seq<CellView>, n: int)
    requires
        0 <= n <= cells.len(),
    ensures
        text_bytes(cells.take(n)) <= text_bytes(cells),
    decreases cells.len() - n,
{
    if n < cells.len() {
        assert(cells.take(n + 1).drop_last() =~= cells.take(n));
        lemma_text_bytes_grow(cells, n + 1);
    } else {
        assert(cells.take(n) =~= cells);
    }
}

/// The texts of a column of text, `None` for a missing cell; nothing where
/// the texts take more bytes together than one string array can hold.
fn texts_of_cells(cells: &Vec<Cell>) -> (r: Option<Vec<Option<String>>>)
    requires
        forall|j: int| 0 <= j < cells@.len() ==> cell_fits(ColumnKind::Text, #[trigger] cells_view(cells@)[j]),
    ensures
        match r {
            Some(values) => {
                &&& Seq::new(values@.len(), |j: int| string_cell(values@[j])) == cells_view(cells@)
                &&& text_bytes(cells_view(cells@)) <= MAX_TEXT_BYTES
            },
            None => text_bytes(cells_view(cells@)) > MAX_TEXT_BYTES,
        },
{
    let ghost all = cells_view(cells@);
    let mut values: Vec<Option<String>> = Vec::new();
    let mut total: usize = 0;
    let mut j: usize = 0;
    assert(all.take(0) =~= Seq::empty());
    while j < cells.len()
        invariant
            j <= cells.len(),
            all == cells_view(cells@),
            values@.len() == j,
            total == text_bytes(all.take(j as int)),
            total <= MAX_TEXT_BYTES,
            forall|k: int| 0 <= k < cells@.len() ==> cell_fits(ColumnKind::Text, #[trigger] cells_view(cells@)[k]),
            forall|k: int| 0 <= k < j ==> string_cell(#[trigger] values@[k]) == cells@[k]@,
        decreases cells.len() - j,
    {
        assert(cell_fits(ColumnKind::Text, cells_view(cells@)[j as int]));
        proof {
            assert(all.take(j + 1).drop_last() =~= all.take(j as int));
            assert(all.take(j + 1).last() == cells@[j as int]@);
            lemma_text_bytes_grow(all, j + 1);
        }
        let value = match &cells[j] {
            Cell::Text(s) => {
                let len: usize = s.as_str().as_bytes().len();
                assert(len == text_len(cells@[j as int]@));
                if len > MAX_TEXT_BYTES - total {
                    return None;
                }
                total = total + len;
                Some(s.clone())
            },
            _ => None,
        };
        values.push(value);
        j += 1;
    }
    assert(all.take(j as int) =~= all);
    assert(Seq::new(values@.len(), |j: int| string_cell(values@[j])) =~= cells_view(cells@));
    Some(values)
}

/// Whether a column can be written: it is of a kind that the store writes,
/// its texts fit into one string array, and it has no missing cell unless it
/// is nullable.
pub open spec fn column_encodable(column: ColumnView) -> bool {
    &&& column.kind != ColumnKind::Unsupported
    &&& column.kind == ColumnKind::Text ==> text_bytes(column.cells) <= MAX_TEXT_BYTES
    &&& column.nullable || !has_null(column.cells)
}

/// Whether a table can be put into a record batch: it has a column, and each
/// of its columns can be written.
pub open spec fn encodable(table: TableView) -> bool {
    &&& table.columns.len() > 0
    &&& forall|i: int| 0 <= i < table.columns.len() ==> column_encodable(#[trigger] table.columns[i])
}

/// Whether the bytes are the Parquet file of a record batch that holds the
/// table.
pub open spec fn is_image_of(bytes: Seq<u8>, table: TableView) -> bool {
    exists|b: Batch|
        {
            &&& batch_columns(b) == table.columns
            &&& batch_height(b) == table.height
            &&& #[trigger] parquet_image(b) == Some(bytes)
        }
}

/// Whether the Parquet writer refuses a record batch that holds the table.
pub open spec fn writer_refuses(table: TableView) -> bool {
    exists|b: Batch|
        {
            &&& batch_columns(b) == table.columns
            &&& batch_height(b) == table.height
            &&& #[trigger] parquet_image(b) is None
        }
}

/// Makes the record batch that holds a table. Fails, with `Arrow`, exactly
/// where the table cannot be written: it has no column, a column of a kind
/// that the store does not write, texts too long for one array, or a missing
/// cell in a column that is not nullable.
pub fn table_to_batch(table: &Table) -> (r: Result<Batch, ExpmanError>)
    requires
        table@.wf(),
    ensures
        match r {
            Ok(b) => encodable(table@) && batch_columns(b) == table@.columns && batch_height(b)
                == table@.height,
            Err(ExpmanError::Arrow(_)) => !encodable(table@),
            Err(_) => false,
        },
{
    let mut names: Vec<String> = Vec::new();
    let mut nullable: Vec<bool> = Vec::new();
    let mut arrays: Vec<arrow::array::ArrayData> = Vec::new();
    let mut i: usize = 0;
    while i < table.columns.len()
        invariant
            i <= table.columns.len(),
            table@.wf(),
            names@.len() == i,
            nullable@.len() == i,
            arrays@.len() == i,
            forall|k: int|
                0 <= k < i ==> {
                    &&& (#[trigger] table@.columns[k]).kind != ColumnKind::Unsupported
                    &&& table@.columns[k].kind == ColumnKind::Text ==> text_bytes(table@.columns[k].cells)
                        <= MAX_TEXT_BYTES
                    &&& names@[k]@ == table@.columns[k].name
                    &&& nullable@[k] == table@.columns[k].nullable
                    &&& array_kind(arrays@[k]) == table@.columns[k].kind
                    &&& array_cells(arrays@[k]) == table@.columns[k].cells
                },
        decreases table.columns.len() - i,
    {
        let column = &table.columns[i];
        assert(table@.columns[i as int] == column@);
        assert(column_wf(table@.columns[i as int], table@.height));
        let array = match column.kind {
            ColumnKind::Float => {
                let (bits, present) = floats_of_cells(&column.cells);
                float_array(bits, present)
            },
            ColumnKind::Int => int_array(ints_of_cells(&column.cells)),
            ColumnKind::Timestamp => timestamp_array(timestamps_of_cells(&column.cells)),
            ColumnKind::Text => match texts_of_cells(&column.cells) {
                Some(values) => text_array(values),
                None => {
                    assert(!column_encodable(table@.columns[i as int]));
                    return Err(ExpmanError::Arrow("texts of a column too long for one array".to_owned()));
                },
            },
            ColumnKind::Unsupported => {
                assert(!column_encodable(table@.columns[i as int]));
                return Err(ExpmanError::Arrow("column of a type that cannot be written".to_owned()));
            },
        };
        names.push(column.name.clone());
        nullable.push(column.nullable);
        arrays.push(array);
        i += 1;
    }
    let ghost given = arrays@;
    let ghost flags = nullable@;
    proof {
        assert forall|k: int| 0 <= k < given.len() implies array_cells(#[trigger] given[k]).len() == table@.height by {
            assert(column_wf(table@.columns[k], table@.height));
        }
    }
    match make_batch(&names, &nullable, arrays) {
        Ok(b) => {
            proof {
                assert(batch_columns(b) =~= table@.columns);
                assert(column_wf(table@.columns[0], table@.height));
                assert forall|k: int| 0 <= k < table@.columns.len() implies column_encodable(
                    #[trigger] table@.columns[k],
                ) by {
                    assert(flags[k] || !has_null(array_cells(given[k])));
                }
            }
            Ok(b)
        },
        Err(e) => {
            proof {
                if given.len() > 0 {
                    let k = choose|k: int| 0 <= k < given.len() && !flags[k] && has_null(array_cells(#[trigger] given[k]));
                    assert(!column_encodable(table@.columns[k]));
                }
            }
            Err(ExpmanError::Arrow(arrow_error_text(&e)))
        },
    }
}

/// Writes a table as a Parquet file. Fails with `Arrow` exactly where the
/// table cannot be put into a record batch, and with `Parquet` where the
/// writer refuses the batch.
pub fn encode_table(table: &Table) -> (r: Result<Vec<u8>, ExpmanError>)
    requires
        table@.wf(),
    ensures
        match r {
            Ok(bytes) => encodable(table@) && is_image_of(bytes@, table@),
            Err(ExpmanError::Arrow(_)) => !encodable(table@),
            Err(ExpmanError::Parquet(_)) => encodable(table@) && writer_refuses(table@),
            Err(_) => false,
        },
{
    let batch = match table_to_batch(table) {
        Ok(b) => b,
        Err(e) => {
            return Err(e);
        },
    };
    match write_parquet(&batch) {
        Ok(bytes) => {
            assert(parquet_image(batch) == Some(bytes@));
            Ok(bytes)
        },
        Err(e) => {
            assert(parquet_image(batch) is None);
            Err(ExpmanError::Parquet(parquet_error_text(&e)))
        },
    }
}

} // verus!
