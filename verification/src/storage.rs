//! The metric store: appending logged rows to a columnar file and reading them
//! back. A file is handed over as its bytes, `None` standing for a file that
//! does not exist; reading and writing it is the caller's part.

use vstd::prelude::*;
use crate::codec::{Decoded, decode_table, decoded_table, encodable, encode_table, is_image_of, writer_refuses};
use crate::error::ExpmanError;
use crate::models::{MetricRow, MetricRowView, rows_view};
use crate::append::{append_tables, appended, can_append};
use crate::ingest::{rows_to_table, rows_to_table_under, table_of_rows, table_under};
use crate::reading::{
    Record, latest_scalars, latest_scalars_of, records_of, records_since, records_view, rows_since,
    scalars_view, table_to_rows,
};
use crate::shape::{lemma_append_possible, plain_rows, store_shaped};
use crate::table::{Table, TableView};

verus! {

/// The bytes of a file as the contracts see them.
pub open spec fn file_view(file: Option<&[u8]>) -> Option<Seq<u8>> {
    match file {
        Some(bytes) => Some(bytes@),
        None => None,
    }
}

/// The table that rows make when they are appended to a stored table: a
/// metric that the stored table has as numbers or as text keeps that kind, so
/// that the first appearance of a name decides for the whole file.
pub open spec fn fresh_table(old: TableView, rows: Seq<MetricRowView>) -> TableView {
    table_under(old.columns, rows)
}

/// What appending rows to a file comes to: the table of the rows where there
/// was no file, else the file's table with that of the rows under it.
pub open spec fn table_after_append(existing: Option<Seq<u8>>, rows: Seq<MetricRowView>) -> Decoded {
    match existing {
        None => Decoded::Table(table_of_rows(rows)),
        Some(bytes) => match decoded_table(bytes) {
            Decoded::Table(old) => if !can_append(old, fresh_table(old, rows)) {
                Decoded::Mismatch
            } else if old.height + rows.len() > usize::MAX {
                Decoded::TooTall
            } else {
                Decoded::Table(appended(old, fresh_table(old, rows)))
            },
            failed => failed,
        },
    }
}

/// The table to write when `rows` are appended to the table of a file, if
/// there is one. With no rows nothing is to be written. The new rows take, for
/// each metric, the kind that the file has for its name: in a column of text
/// their values are written out as text, in a column of numbers what is no
/// number is missing. Fails with `Arrow` where the two tables still cannot be
/// put under one schema, with `Other` where the rows are too many to count.
/// To a table that the store itself wrote, rows whose metrics bear no reserved
/// name can always be appended.
pub fn plan_append(existing: Option<&Table>, rows: &[MetricRow]) -> (r: Result<Option<Table>, ExpmanError>)
    requires
        existing matches Some(t) ==> t@.wf(),
    ensures
        rows@.len() == 0 ==> r matches Ok(None),
        rows@.len() > 0 ==> match existing {
            None => r matches Ok(Some(t)) && t@ == table_of_rows(rows_view(rows@)) && t@.wf(),
            Some(old) => if !can_append(old@, fresh_table(old@, rows_view(rows@))) {
                r matches Err(ExpmanError::Arrow(_))
            } else if old.height + rows@.len() > usize::MAX {
                r matches Err(ExpmanError::Other(_))
            } else {
                r matches Ok(Some(t)) && t@ == appended(old@, fresh_table(old@, rows_view(rows@)))
                    && t@.wf()
            },
        },
        existing matches Some(old) && store_shaped(old@) && plain_rows(rows_view(rows@)) ==> !(r matches Err(
            ExpmanError::Arrow(_),
        )),
{
    if rows.len() == 0 {
        return Ok(None);
    }
    match existing {
        Some(old) => {
            proof {
                if store_shaped(old@) && plain_rows(rows_view(rows@)) {
                    lemma_append_possible(old@, rows_view(rows@));
                }
            }
            let fresh = rows_to_table_under(&old.columns, rows);
            match append_tables(old, &fresh) {
                Ok(t) => Ok(Some(t)),
                Err(e) => Err(e),
            }
        },
        None => Ok(Some(rows_to_table(rows))),
    }
}

/// Appends rows to a metric file: builds their table, puts it under the
/// file's table with the union of both schemas, and hands back the bytes of
/// the file to write in its place. With no rows there is nothing to write, and
/// the file is not even read.
///
/// With rows, the call fails with `Parquet` where the file cannot be read or
/// the writer refuses the new table, with `Arrow` where the file's batches or
/// the two tables cannot be put under one schema or the new table cannot be
/// put into a record batch, with `Other` where the rows are too many to
/// count; in every other case it succeeds.
pub fn append_metrics(existing: Option<&[u8]>, rows: &[MetricRow]) -> (r: Result<Option<Vec<u8>>, ExpmanError>)
    ensures
        rows@.len() == 0 ==> r matches Ok(None),
        rows@.len() > 0 ==> match table_after_append(file_view(existing), rows_view(rows@)) {
            Decoded::Table(t) => if encodable(t) {
                match r {
                    Ok(Some(bytes)) => is_image_of(bytes@, t),
                    Err(ExpmanError::Parquet(_)) => writer_refuses(t),
                    _ => false,
                }
            } else {
                r matches Err(ExpmanError::Arrow(_))
            },
            Decoded::NotParquet => r matches Err(ExpmanError::Parquet(_)),
            Decoded::Mismatch => r matches Err(ExpmanError::Arrow(_)),
            Decoded::TooTall => r matches Err(ExpmanError::Other(_)),
        },
{
    if rows.len() == 0 {
        return Ok(None);
    }
    let target = match existing {
        Some(bytes) => {
            let old = match decode_table(bytes) {
                Ok(t) => t,
                Err(e) => {
                    return Err(e);
                },
            };
            plan_append(Some(&old), rows)
        },
        None => plan_append(None, rows),
    };
    match target {
        Ok(Some(table)) => match encode_table(&table) {
            Ok(bytes) => Ok(Some(bytes)),
            Err(e) => Err(e),
        },
        Ok(None) => Ok(None),
        Err(e) => Err(e),
    }
}

/// The table of a metric file; `None` where there is no file.
fn load_table(file: Option<&[u8]>) -> (r: Result<Option<Table>, ExpmanError>)
    ensures
        match file {
            None => r matches Ok(None),
            Some(bytes) => match decoded_table(bytes@) {
                Decoded::Table(t) => r matches Ok(Some(table)) && table@ == t && table@.wf(),
                Decoded::NotParquet => r matches Err(ExpmanError::Parquet(_)),
                Decoded::Mismatch => r matches Err(ExpmanError::Arrow(_)),
                Decoded::TooTall => r matches Err(ExpmanError::Other(_)),
            },
        },
{
    match file {
        Some(bytes) => match decode_table(bytes) {
            Ok(t) => Ok(Some(t)),
            Err(e) => Err(e),
        },
        None => Ok(None),
    }
}

/// Every row of a metric file, in order, as names with values. A file that
/// does not exist has no rows. In a row a timestamp reads as RFC 3339 text, and
/// a number that is not finite as missing. Fails with `Parquet` where the
/// bytes are no Parquet file, with `Arrow` where its batches differ in schema,
/// with `Other` where its rows are too many to count, and in no other case.
pub fn read_metrics(file: Option<&[u8]>) -> (r: Result<Vec<Record>, ExpmanError>)
    ensures
        match file {
            None => r matches Ok(records) && records@.len() == 0,
            Some(bytes) => match decoded_table(bytes@) {
                Decoded::Table(t) => r matches Ok(records) && records_view(records@) == records_of(t),
                Decoded::NotParquet => r matches Err(ExpmanError::Parquet(_)),
                Decoded::Mismatch => r matches Err(ExpmanError::Arrow(_)),
                Decoded::TooTall => r matches Err(ExpmanError::Other(_)),
            },
        },
{
    match load_table(file) {
        Ok(Some(table)) => Ok(table_to_rows(&table)),
        Ok(None) => Ok(Vec::new()),
        Err(e) => Err(e),
    }
}

/// The rows of a metric file whose step is greater than the cursor, along
/// with every row that has no step; all rows where no cursor is given. It
/// fails where `read_metrics` fails.
pub fn read_metrics_since(file: Option<&[u8]>, since_step: Option<u64>) -> (r: Result<Vec<Record>, ExpmanError>)
    ensures
        match file {
            None => r matches Ok(records) && records@.len() == 0,
            Some(bytes) => match decoded_table(bytes@) {
                Decoded::Table(t) => r matches Ok(records) && records_view(records@) == records_since(
                    records_of(t),
                    since_step,
                ),
                Decoded::NotParquet => r matches Err(ExpmanError::Parquet(_)),
                Decoded::Mismatch => r matches Err(ExpmanError::Arrow(_)),
                Decoded::TooTall => r matches Err(ExpmanError::Other(_)),
            },
        },
{
    match read_metrics(file) {
        Ok(all) => {
            let ghost before = records_view(all@);
            let kept = rows_since(all, since_step);
            proof {
                if file is None {
                    assert(before =~= Seq::empty());
                    assert(records_view(kept@).len() == 0);
                }
            }
            Ok(kept)
        },
        Err(e) => Err(e),
    }
}

/// The numeric fields of the last row of a metric file, each name with its
/// number's bits: what a dashboard shows as the latest state of a run. Text
/// and missing values are left out, integers are widened; a file that does not
/// exist or has no rows gives none. It fails where `read_metrics` fails.
pub fn read_latest_scalar_metrics(file: Option<&[u8]>) -> (r: Result<Vec<(String, u64)>, ExpmanError>)
    ensures
        match file {
            None => r matches Ok(scalars) && scalars@.len() == 0,
            Some(bytes) => match decoded_table(bytes@) {
                Decoded::Table(t) => r matches Ok(scalars) && scalars_view(scalars@) == latest_scalars_of(
                    records_of(t),
                ),
                Decoded::NotParquet => r matches Err(ExpmanError::Parquet(_)),
                Decoded::Mismatch => r matches Err(ExpmanError::Arrow(_)),
                Decoded::TooTall => r matches Err(ExpmanError::Other(_)),
            },
        },
{
    match load_table(file) {
        Ok(Some(table)) => Ok(latest_scalars(&table)),
        Ok(None) => Ok(Vec::new()),
        Err(e) => Err(e),
    }
}

} // verus!
