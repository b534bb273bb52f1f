//! Parquet part-files, seen as batches of named columns.
//!
//! Everything the crate takes on trust about `parquet` and `arrow` stands in this file: how a
//! file is opened, which batches come out of it, and what the columns of a batch hold. The rest
//! of the crate works on the plain vectors that are handed out here.
use vstd::prelude::*;

use arrow::array::{
    Array, FixedSizeBinaryArray, Int64Array, ListArray, RecordBatch, StringArray, UInt32Array,
    UInt8Array,
};
use arrow::error::ArrowError;
use parquet::arrow::arrow_reader::ParquetRecordBatchReader;
use parquet::errors::ParquetError;
use parquet::file::metadata::FooterTail;

verus! {

/// `parquet`'s error, given when a file cannot be opened.
#[verifier::external_type_specification]
#[verifier::external_body]
pub struct ExParquetError(ParquetError);

/// `arrow`'s error, given when a batch cannot be decoded.
#[verifier::external_type_specification]
#[verifier::external_body]
pub struct ExArrowError(ArrowError);

/// One decoded batch: an `arrow` `RecordBatch`, a set of equally long named columns.
#[verifier::external_body]
pub struct Batch {
    inner: RecordBatch,
}

/// The batches of one file that are still to be decoded: a `parquet` `ParquetRecordBatchReader`.
#[verifier::external_body]
pub struct BatchReader {
    inner: ParquetRecordBatchReader,
}

/// What one column holds, by the `arrow` array type it is stored in.
///
/// `UInt32` keeps the null mask (`None` is a null slot). The other variants hold the value slot
/// of every row, null or not. A list whose items are not strings is `None`.
pub enum Column {
    /// `FixedSizeBinaryArray`.
    Binary(Seq<Seq<u8>>),
    /// `Int64Array`.
    Int64(Seq<i64>),
    /// `UInt8Array`.
    UInt8(Seq<u8>),
    /// `UInt32Array`.
    UInt32(Seq<Option<u32>>),
    /// `ListArray`.
    Lists(Seq<Option<Seq<Seq<char>>>>),
    /// Any other array, of which only the length is kept.
    Other(nat),
}

impl Column {
    /// The number of rows in the column.
    pub open spec fn rows(self) -> nat {
        match self {
            Column::Binary(v) => v.len(),
            Column::Int64(v) => v.len(),
            Column::UInt8(v) => v.len(),
            Column::UInt32(v) => v.len(),
            Column::Lists(v) => v.len(),
            Column::Other(n) => n,
        }
    }
}

/// All columns of a batch have the same number of rows.
pub open spec fn aligned(columns: Map<Seq<char>, Column>) -> bool {
    forall|a: Seq<char>, b: Seq<char>|
        #![trigger columns[a], columns[b]]
        columns.contains_key(a) && columns.contains_key(b) ==> columns[a].rows()
            == columns[b].rows()
}

/// The columns of a batch, by name. Where two columns share a name, the first one counts.
pub uninterp spec fn batch_columns(batch: Batch) -> Map<Seq<char>, Column>;

/// What a reader still gives: the columns of each batch in turn, up to the end of the file or up
/// to the first batch that cannot be decoded, which stands last as `None`.
pub uninterp spec fn pending_batches(reader: BatchReader) -> Seq<Option<Map<Seq<char>, Column>>>;

/// What a file holds when it is read `batch_size` rows at a time: `None` when it cannot be
/// opened, else what a fresh reader gives.
pub uninterp spec fn parquet_file(data: Seq<u8>, batch_size: usize) -> Option<
    Seq<Option<Map<Seq<char>, Column>>>,
>;

/// Opening this file and decoding it to its end or to its first error, `batch_size` rows at a
/// time, returns, wherever it is done.
///
/// It does not of some malformed files. The decoder panics on a dictionary key beyond its
/// dictionary, on a dictionary-encoded page without a dictionary, on levels longer than their
/// page, and on a negative column offset or length; and a schema of very deeply nested groups
/// overflows the stack.
pub uninterp spec fn decodes(data: Seq<u8>, batch_size: usize) -> bool;

/// Pulling the pending batches of a reader, up to the end or to the first error, returns.
pub uninterp spec fn drains(reader: BatchReader) -> bool;

/// The bytes do not end as a Parquet file does: they are fewer than the eight of a footer tail,
/// or the last four are neither `PAR1` nor `PARE`.
pub open spec fn lacks_footer(data: Seq<u8>) -> bool {
    data.len() < 8 || {
        let magic = data.skip(data.len() - 4);
        magic != seq![80u8, 65u8, 82u8, 49u8] && magic != seq![80u8, 65u8, 82u8, 69u8]
    }
}

/// The rows of a decoded binary column.
pub open spec fn byte_rows(rows: Seq<Vec<u8>>) -> Seq<Seq<u8>> {
    rows.map_values(|row: Vec<u8>| row@)
}

/// The text of a list of strings.
pub open spec fn texts(strings: Seq<String>) -> Seq<Seq<char>> {
    strings.map_values(|s: String| s@)
}

/// The rows of a decoded list column.
pub open spec fn list_rows(rows: Seq<Option<Vec<String>>>) -> Seq<Option<Seq<Seq<char>>>> {
    rows.map_values(
        |row: Option<Vec<String>>|
            match row {
                Some(strings) => Some(texts(strings@)),
                None => None,
            },
    )
}

/// `parquet::arrow::arrow_reader::ParquetRecordBatchReader::try_new`, on the bytes held in
/// memory (`bytes::Bytes::from`).
///
/// Trusted: whether the file opens, and what the reader will give, depends on the bytes and on
/// the batch size alone. Nothing is said of the error's text.
#[verifier::external_body]
pub(crate) fn open_parquet(data: Vec<u8>, batch_size: usize) -> (opened: Result<
    BatchReader,
    ParquetError,
>)
    requires
        decodes(data@, batch_size),
    ensures
        match opened {
            Ok(reader) => {
                &&& parquet_file(data@, batch_size) == Some(pending_batches(reader))
                &&& drains(reader)
            },
            Err(_) => parquet_file(data@, batch_size) is None,
        },
{
    let inner = ParquetRecordBatchReader::try_new(bytes::Bytes::from(data), batch_size)?;
    Ok(BatchReader { inner })
}

/// `parquet::file::metadata::FooterTail::try_new`, on the last eight bytes.
///
/// Trusted: it fails exactly where the last four bytes are neither `PAR1` nor `PARE`. Such bytes,
/// and fewer than eight, are turned down by `ParquetRecordBatchReader::try_new` before anything
/// else of them is read.
#[verifier::external_body]
pub(crate) fn footer_is_missing(data: &Vec<u8>) -> (missing: bool)
    ensures
        missing == lacks_footer(data@),
        missing ==> forall|batch_size: usize| #[trigger] decodes(data@, batch_size),
        missing ==> forall|batch_size: usize| #[trigger] parquet_file(data@, batch_size) is None,
{
    data.last_chunk::<8>().map_or(true, |tail| FooterTail::try_new(tail).is_err())
}

/// `Iterator::next` of `ParquetRecordBatchReader`.
///
/// Trusted: it hands out the pending batches in order, `None` at their end, and an error where
/// a batch cannot be decoded. The columns of a batch all have the same number of rows (an
/// invariant of `RecordBatch`). Nothing is said of the reader after an error.
#[verifier::external_body]
pub(crate) fn next_batch(reader: &mut BatchReader) -> (next: Option<Result<Batch, ArrowError>>)
    requires
        drains(*old(reader)),
    ensures
        match next {
            None => pending_batches(*old(reader)).len() == 0,
            Some(Ok(batch)) => {
                &&& pending_batches(*old(reader)).len() > 0
                &&& pending_batches(*old(reader))[0] == Some(batch_columns(batch))
                &&& pending_batches(*final(reader)) == pending_batches(*old(reader)).drop_first()
                &&& drains(*final(reader))
                &&& aligned(batch_columns(batch))
            },
            Some(Err(_)) => {
                &&& pending_batches(*old(reader)).len() == 1
                &&& pending_batches(*old(reader))[0] is None
            },
        },
{
    let item = reader.inner.next()?;
    Some(item.map(|inner| Batch { inner }))
}

/// `RecordBatch::column_by_name`, taken as a `FixedSizeBinaryArray`, with each row
/// (`FixedSizeBinaryArray::value`) copied out.
///
/// Trusted: `Some` exactly when the batch has a column of that name and array type.
#[verifier::external_body]
pub(crate) fn binary_column(batch: &Batch, name: &str) -> (column: Option<Vec<Vec<u8>>>)
    ensures
        match column {
            Some(rows) => {
                &&& batch_columns(*batch).contains_key(name@)
                &&& batch_columns(*batch)[name@] == Column::Binary(byte_rows(rows@))
            },
            None => !(batch_columns(*batch).contains_key(name@)
                && batch_columns(*batch)[name@] is Binary),
        },
{
    let array = batch.inner.column_by_name(name)?.as_any().downcast_ref::<FixedSizeBinaryArray>()?;
    Some((0..array.len()).map(|i| array.value(i).to_vec()).collect())
}

/// `RecordBatch::column_by_name`, taken as an `Int64Array`, with its value slots
/// (`PrimitiveArray::values`) copied out.
///
/// Trusted: `Some` exactly when the batch has a column of that name and array type.
#[verifier::external_body]
pub(crate) fn int64_column(batch: &Batch, name: &str) -> (column: Option<Vec<i64>>)
    ensures
        match column {
            Some(rows) => {
                &&& batch_columns(*batch).contains_key(name@)
                &&& batch_columns(*batch)[name@] == Column::Int64(rows@)
            },
            None => !(batch_columns(*batch).contains_key(name@)
                && batch_columns(*batch)[name@] is Int64),
        },
{
    let array = batch.inner.column_by_name(name)?.as_any().downcast_ref::<Int64Array>()?;
    Some(array.values().to_vec())
}

/// `RecordBatch::column_by_name`, taken as a `UInt8Array`, with its value slots
/// (`PrimitiveArray::values`) copied out.
///
/// Trusted: `Some` exactly when the batch has a column of that name and array type.
#[verifier::external_body]
pub(crate) fn uint8_column(batch: &Batch, name: &str) -> (column: Option<Vec<u8>>)
    ensures
        match column {
            Some(rows) => {
                &&& batch_columns(*batch).contains_key(name@)
                &&& batch_columns(*batch)[name@] == Column::UInt8(rows@)
            },
            None => !(batch_columns(*batch).contains_key(name@)
                && batch_columns(*batch)[name@] is UInt8),
        },
{
    let array = batch.inner.column_by_name(name)?.as_any().downcast_ref::<UInt8Array>()?;
    Some(array.values().to_vec())
}

/// `RecordBatch::column_by_name`, taken as a `UInt32Array`, with its rows
/// (`PrimitiveArray::iter`) copied out, a null row as `None`.
///
/// Trusted: `Some` exactly when the batch has a column of that name and array type.
#[verifier::external_body]
pub(crate) fn uint32_column(batch: &Batch, name: &str) -> (column: Option<Vec<Option<u32>>>)
    ensures
        match column {
            Some(rows) => {
                &&& batch_columns(*batch).contains_key(name@)
                &&& batch_columns(*batch)[name@] == Column::UInt32(rows@)
            },
            None => !(batch_columns(*batch).contains_key(name@)
                && batch_columns(*batch)[name@] is UInt32),
        },
{
    let array = batch.inner.column_by_name(name)?.as_any().downcast_ref::<UInt32Array>()?;
    Some(array.iter().collect())
}

/// `RecordBatch::column_by_name`, taken as a `ListArray`, with the strings of each row copied
/// out: `ListArray::value` taken as a `StringArray`, and `StringArray::value`.
///
/// Trusted: `Some` exactly when the batch has a column of that name and array type.
#[verifier::external_body]
pub(crate) fn list_column(batch: &Batch, name: &str) -> (column: Option<Vec<Option<Vec<String>>>>)
    ensures
        match column {
            Some(rows) => {
                &&& batch_columns(*batch).contains_key(name@)
                &&& batch_columns(*batch)[name@] == Column::Lists(list_rows(rows@))
            },
            None => !(batch_columns(*batch).contains_key(name@)
                && batch_columns(*batch)[name@] is Lists),
        },
{
    let lists = batch.inner.column_by_name(name)?.as_any().downcast_ref::<ListArray>()?;
    let strings = |items: &StringArray|
        (0..items.len()).map(|j| items.value(j).to_string()).collect();
    let row = |i| lists.value(i).as_any().downcast_ref::<StringArray>().map(strings);
    Some((0..lists.len()).map(row).collect())
}

} // verus!
