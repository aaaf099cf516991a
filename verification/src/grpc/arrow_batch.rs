//! Batches of rows in Arrow's form: reading request texts, laying out response
//! columns, and the IPC stream format.

use arrow::array::{
    Array, ArrayRef, FixedSizeListArray, Float16Array, Float32Array, LargeStringArray, ListArray,
    StringArray, StringViewArray, StructArray, UInt32Array,
};
use arrow::buffer::{Buffer, NullBuffer, OffsetBuffer};
use arrow::datatypes::{DataType, Field};
use arrow::error::ArrowError;
use arrow::ipc::reader::StreamReader;
use arrow::ipc::writer::{IpcWriteOptions, StreamWriter};
use arrow::ipc::CompressionType;
use arrow::record_batch::RecordBatch;
use half::vec::HalfFloatVecExt;
use std::sync::Arc;
use vstd::prelude::*;

use super::ipc::{found, look, lz4_frames, readable, schema_fits, Look};
use super::rows::{row_view, texts_view, RowOutcomes};
use super::status::{status, Code, Status, StatusView};
use crate::config::ArrowOutputDtype;
use crate::text::{decimal, decimal_string, signed_decimal, signed_decimal_string};

verus! {

/// One of Arrow's arrays: a column.
#[derive(Debug)]
#[verifier::external_body]
pub struct Column {
    inner: ArrayRef,
}

/// Arrow's record batch: a table of named columns of one length.
#[derive(Debug)]
#[verifier::external_body]
pub struct Batch {
    inner: RecordBatch,
}

/// What a column holds. Numbers with a fraction stand as the bits of their
/// IEEE 754 form.
pub enum ColumnView {
    /// Texts, `None` for a null, of Arrow's first string type.
    Utf8(Seq<Option<Seq<char>>>),
    /// The same with 64 bit offsets.
    LargeUtf8(Seq<Option<Seq<char>>>),
    /// The same by views.
    Utf8View(Seq<Option<Seq<char>>>),
    /// Numbers in single or half precision.
    Numbers { half: bool, bits: Seq<u32> },
    /// Vectors of `dim` elements in single or half precision, laid end to end,
    /// and which of them are valid.
    Vectors { half: bool, dim: nat, bits: Seq<u32>, valid: Seq<bool> },
    /// Lists of an index and a single precision value each, under the two names
    /// in `entry`, laid end to end, with where each list begins, and which of
    /// them are valid.
    Weights {
        entry: (Seq<char>, Seq<char>),
        offsets: Seq<i32>,
        indices: Seq<u32>,
        bits: Seq<u32>,
        valid: Seq<bool>,
    },
    /// Anything else, with so many rows.
    Other { rows: nat },
}

/// A name, a column, and whether the column may hold nulls.
pub type Named = (Seq<char>, ColumnView, bool);

/// What an array holds.
pub uninterp spec fn column_of(column: Column) -> ColumnView;

/// The columns that a record batch holds, with their names.
pub uninterp spec fn batch_columns(batch: Batch) -> Seq<(Seq<char>, ColumnView, bool)>;

/// How many rows a record batch has.
pub uninterp spec fn batch_rows(batch: Batch) -> nat;

/// Whether a record batch was made of columns here, and so carries no notes but
/// their names.
pub uninterp spec fn made_here(batch: Batch) -> bool;

/// Why no record batch could be read.
#[derive(Debug)]
pub enum ReadFault {
    /// The bytes are no IPC stream.
    NotIpc(String),
    /// The stream ends without a record batch.
    NoBatch,
    /// The first record batch is malformed.
    Unreadable(String),
}

/// A fault as a mathematical value.
pub enum ReadFaultView {
    NotIpc(Seq<char>),
    NoBatch,
    Unreadable(Seq<char>),
}

impl View for ReadFault {
    type V = ReadFaultView;

    open spec fn view(&self) -> ReadFaultView {
        match *self {
            ReadFault::NotIpc(e) => ReadFaultView::NotIpc(e@),
            ReadFault::NoBatch => ReadFaultView::NoBatch,
            ReadFault::Unreadable(e) => ReadFaultView::Unreadable(e@),
        }
    }
}

/// The columns of the first record batch of an IPC stream, or why there is
/// none.
pub uninterp spec fn first_batch(ipc: Seq<u8>) -> Result<
    Seq<(Seq<char>, ColumnView, bool)>,
    ReadFaultView,
>;

/// Arrow's `StreamReader`, made with `try_new` over the bytes and asked once
/// for `next`: the first record batch of the stream. What it gives depends on
/// the bytes alone and is named, not described; the batch has as many rows as its
/// header says, and each of its columns has as many. The reader panics on a batch
/// that does not keep to its message, and on a schema with too large a union.
#[verifier::external_body]
fn read_batch(ipc: &[u8]) -> (r: Result<Batch, ReadFault>)
    requires
        readable(ipc@),
    ensures
        match r {
            Ok(batch) => first_batch(ipc@) == Ok::<_, ReadFaultView>(batch_columns(batch)),
            Err(fault) => first_batch(ipc@) == Err::<Seq<Named>, _>(fault@),
        },
        r matches Ok(batch) ==> {
            &&& found(ipc@) matches Some(f) && batch_rows(batch) == f.header.rows
            &&& batch_columns(batch).len() > 0 ==> batch_rows(batch) == column_len(
                batch_columns(batch)[0].1,
            )
        },
{
    let mut reader = StreamReader::try_new(std::io::Cursor::new(ipc), None)
        .map_err(|e| ReadFault::NotIpc(e.to_string()))?;
    match reader.next() {
        None => Err(ReadFault::NoBatch),
        Some(Err(e)) => Err(ReadFault::Unreadable(e.to_string())),
        Some(Ok(inner)) => Ok(Batch { inner }),
    }
}

/// `RecordBatch::num_rows`: how many rows the batch has.
#[verifier::external_body]
fn num_rows(batch: &Batch) -> (n: usize)
    ensures
        n == batch_rows(*batch),
{
    batch.inner.num_rows()
}

/// What is said of a record batch that does not keep to its message.
pub open spec fn out_of_bounds() -> Seq<char> {
    "the record batch does not keep to its message"@
}

/// What is said of a schema that Arrow cannot make anything of.
pub open spec fn union_too_large() -> Seq<char> {
    "a union has too many fields"@
}

/// What is said of a stream that cannot be handed to Arrow's reader.
pub open spec fn unread(ipc: Seq<u8>) -> ReadFaultView {
    if !schema_fits(ipc) {
        ReadFaultView::NotIpc(union_too_large())
    } else {
        ReadFaultView::Unreadable(out_of_bounds())
    }
}

/// What Arrow's reader gives for a stream, or what is said of one that cannot be
/// handed to it.
pub open spec fn stream_batch(ipc: Seq<u8>) -> Result<Seq<Named>, ReadFaultView> {
    if readable(ipc) {
        first_batch(ipc)
    } else {
        Err(unread(ipc))
    }
}

/// Read the first record batch of a stream, if it can be handed to Arrow's reader.
fn read_stream(ipc: &[u8]) -> (r: Result<Batch, ReadFault>)
    ensures
        match r {
            Ok(batch) => {
                &&& stream_batch(ipc@) == Ok::<_, ReadFaultView>(batch_columns(batch))
                &&& found(ipc@) matches Some(f) && batch_rows(batch) == f.header.rows
                &&& batch_columns(batch).len() > 0 ==> batch_rows(batch) == column_len(
                    batch_columns(batch)[0].1,
                )
            },
            Err(fault) => stream_batch(ipc@) == Err::<Seq<Named>, _>(fault@),
        },
{
    match look(ipc) {
        Look::Readable => read_batch(ipc),
        Look::BadSchema => Err(ReadFault::NotIpc("a union has too many fields".to_owned())),
        Look::BadMessage => Err(
            ReadFault::Unreadable("the record batch does not keep to its message".to_owned()),
        ),
    }
}

/// How many rows the first record batch of a stream has, or why it cannot be read.
pub open spec fn row_count(ipc: Seq<u8>) -> Result<int, ReadFaultView> {
    match (stream_batch(ipc), found(ipc)) {
        (Ok(_), Some(f)) => Ok(f.header.rows as int),
        (Ok(_), None) => Ok(0),
        (Err(fault), _) => Err(fault),
    }
}

/// How many rows the first record batch of an IPC stream has.
pub fn batch_row_count(ipc: &[u8]) -> (r: Result<usize, ReadFault>)
    ensures
        match row_count(ipc@) {
            Ok(rows) => r matches Ok(n) && n == rows,
            Err(fault) => r matches Err(f) && f@ == fault,
        },
        r matches Ok(n) ==> (stream_batch(ipc@) matches Ok(columns) && (columns.len() > 0 ==> n
            == column_len(columns[0].1))),
{
    match read_stream(ipc) {
        Ok(batch) => Ok(num_rows(&batch)),
        Err(fault) => Err(fault),
    }
}

/// What the first column of a batch gives: nothing when there is no column, and
/// no rows when it is not text.
pub open spec fn first_column_rows(columns: Seq<Named>) -> Option<
    Option<Seq<Option<Seq<char>>>>,
> {
    if columns.len() == 0 {
        None
    } else {
        Some(
            match columns[0].1 {
                ColumnView::Utf8(rows) => Some(rows),
                ColumnView::LargeUtf8(rows) => Some(rows),
                ColumnView::Utf8View(rows) => Some(rows),
                _ => None,
            },
        )
    }
}

/// Rows as the first column gives them.
pub open spec fn column_rows_view(r: Option<Option<Vec<Option<String>>>>) -> Option<
    Option<Seq<Option<Seq<char>>>>,
> {
    match r {
        None => None,
        Some(None) => Some(None),
        Some(Some(rows)) => Some(Some(texts_view(rows@))),
    }
}

/// `RecordBatch::columns` and the iterators of Arrow's three string arrays: the
/// texts of the first column, in order, with `None` for a null.
#[verifier::external_body]
fn first_column(batch: &Batch) -> (r: Option<Option<Vec<Option<String>>>>)
    ensures
        column_rows_view(r) == first_column_rows(batch_columns(*batch)),
{
    let column = batch.inner.columns().first()?;
    let any = column.as_any();
    Some(match column.data_type() {
        DataType::Utf8 => any.downcast_ref::<StringArray>()
            .map(|a| a.iter().map(|v| v.map(str::to_string)).collect()),
        DataType::LargeUtf8 => any.downcast_ref::<LargeStringArray>()
            .map(|a| a.iter().map(|v| v.map(str::to_string)).collect()),
        DataType::Utf8View => any.downcast_ref::<StringViewArray>()
            .map(|a| a.iter().map(|v| v.map(str::to_string)).collect()),
        _ => None,
    })
}

/// The text rows that a read gives, or the status that the request fails with.
pub open spec fn text_rows(read: Result<Seq<Named>, ReadFaultView>) -> Result<
    Seq<Option<Seq<char>>>,
    StatusView,
> {
    match read {
        Err(ReadFaultView::NotIpc(e)) => Err(
            status(Code::InvalidArgument, "Invalid Arrow IPC: "@ + e),
        ),
        Err(ReadFaultView::NoBatch) => Err(
            status(Code::InvalidArgument, "No RecordBatch in stream"@),
        ),
        Err(ReadFaultView::Unreadable(e)) => Err(
            status(Code::InvalidArgument, "Failed to read RecordBatch: "@ + e),
        ),
        Ok(columns) => column_result(first_column_rows(columns)),
    }
}

/// The text rows that a first column gives, or the status that the request
/// fails with.
pub open spec fn column_result(column: Option<Option<Seq<Option<Seq<char>>>>>) -> Result<
    Seq<Option<Seq<char>>>,
    StatusView,
> {
    match column {
        None => Err(status(Code::InvalidArgument, "RecordBatch has no columns"@)),
        Some(None) => Err(status(Code::InvalidArgument, "First column must be StringArray"@)),
        Some(Some(rows)) => Ok(rows),
    }
}

/// Text rows, or the status that the request fails with.
pub open spec fn rows_result_view(r: Result<Vec<Option<String>>, Status>) -> Result<
    Seq<Option<Seq<char>>>,
    StatusView,
> {
    match r {
        Ok(rows) => Ok(texts_view(rows@)),
        Err(s) => Err(s@),
    }
}

/// The status for a request whose batch could not be read.
pub fn read_failed(fault: ReadFault) -> (s: Status)
    ensures
        text_rows(Err(fault@)) == Err::<Seq<Option<Seq<char>>>, _>(s@),
{
    match fault {
        ReadFault::NotIpc(e) => Status::invalid_argument(
            "Invalid Arrow IPC: ".to_owned().concat(e.as_str()),
        ),
        ReadFault::NoBatch => Status::invalid_argument("No RecordBatch in stream".to_owned()),
        ReadFault::Unreadable(e) => Status::invalid_argument(
            "Failed to read RecordBatch: ".to_owned().concat(e.as_str()),
        ),
    }
}

/// The rows of a request whose first column was read.
pub fn column_rows(column: Option<Option<Vec<Option<String>>>>) -> (r: Result<
    Vec<Option<String>>,
    Status,
>)
    ensures
        rows_result_view(r) == column_result(column_rows_view(column)),
{
    match column {
        None => Err(Status::invalid_argument("RecordBatch has no columns".to_owned())),
        Some(None) => Err(Status::invalid_argument("First column must be StringArray".to_owned())),
        Some(Some(rows)) => Ok(rows),
    }
}

/// The text rows in a stream, or the status that the request fails with.
pub open spec fn stream_rows(ipc: Seq<u8>) -> Result<Seq<Option<Seq<char>>>, StatusView> {
    text_rows(stream_batch(ipc))
}

/// Read the first column of the first record batch as text rows, `None` for a
/// null.
pub fn parse_text_rows(ipc: &[u8]) -> (r: Result<Vec<Option<String>>, Status>)
    ensures
        rows_result_view(r) == stream_rows(ipc@),
        r matches Err(s) ==> s.code == Code::InvalidArgument,
{
    match read_stream(ipc) {
        Ok(batch) => column_rows(first_column(&batch)),
        Err(fault) => Err(read_failed(fault)),
    }
}

/// The reasons of the rows that failed, `None` for a row that succeeded.
pub fn error_column<T>(outcome: &RowOutcomes<T>) -> (errors: Vec<Option<String>>)
    ensures
        texts_view(errors@) == error_texts(outcome@),
{
    let mut errors: Vec<Option<String>> = Vec::new();
    let mut i: usize = 0;
    while i < outcome.rows.len()
        invariant
            i <= outcome.rows@.len(),
            texts_view(errors@) == error_texts(outcome@).take(i as int),
        decreases outcome.rows@.len() - i,
    {
        let ghost before = texts_view(errors@);
        match &outcome.rows[i] {
            Ok(_) => errors.push(None),
            Err(e) => errors.push(Some(e.clone())),
        }
        assert(texts_view(errors@) =~= before.push(error_texts(outcome@)[i as int]));
        assert(error_texts(outcome@).take(i + 1) =~= error_texts(outcome@).take(i as int).push(
            error_texts(outcome@)[i as int],
        ));
        i = i + 1;
    }
    assert(error_texts(outcome@).take(i as int) =~= error_texts(outcome@));
    errors
}

/// The reasons of the rows that failed.
pub open spec fn error_texts<T>(rows: Seq<Result<T, Seq<char>>>) -> Seq<Option<Seq<char>>> {
    Seq::new(
        rows.len(),
        |i: int|
            match rows[i] {
                Ok(_) => None,
                Err(e) => Some(e),
            },
    )
}

/// Whether every row succeeded.
pub open spec fn all_succeeded<T>(rows: Seq<Result<T, Seq<char>>>) -> bool {
    forall|i: int| 0 <= i < rows.len() ==> #[trigger] rows[i] is Ok
}

/// Which rows succeeded; nothing when all did.
pub fn validity<T>(outcome: &RowOutcomes<T>) -> (v: Option<Vec<bool>>)
    ensures
        match v {
            None => all_succeeded(outcome@),
            Some(v) => !all_succeeded(outcome@) && v@ == Seq::new(
                outcome@.len(),
                |i: int| outcome@[i] is Ok,
            ),
        },
{
    let mut v: Vec<bool> = Vec::new();
    let mut all: bool = true;
    let mut i: usize = 0;
    while i < outcome.rows.len()
        invariant
            i <= outcome.rows@.len(),
            v@.len() == i,
            forall|k: int| 0 <= k < i ==> #[trigger] v@[k] == (outcome@[k] is Ok),
            all == forall|k: int| 0 <= k < i ==> #[trigger] outcome@[k] is Ok,
        decreases outcome.rows@.len() - i,
    {
        let ok: bool = outcome.rows[i].is_ok();
        assert(ok == (outcome@[i as int] is Ok));
        v.push(ok);
        all = all && ok;
        i = i + 1;
    }
    if all {
        None
    } else {
        assert(v@ =~= Seq::new(outcome@.len(), |i: int| outcome@[i] is Ok));
        Some(v)
    }
}

/// The length of the first row that succeeded, or 0.
pub open spec fn dense_dim<T>(rows: Seq<Result<Vec<T>, Seq<char>>>) -> nat
    decreases rows.len(),
{
    if rows.len() == 0 {
        0
    } else {
        match rows[0] {
            Ok(v) => v@.len(),
            Err(_) => dense_dim(rows.drop_first()),
        }
    }
}

/// Row `i` as it lies in a dense column: `dim` fillers when it failed.
pub open spec fn dense_row<T>(row: Result<Vec<T>, Seq<char>>, dim: nat, filler: T) -> Seq<T> {
    match row {
        Ok(v) => v@,
        Err(_) => Seq::new(dim, |j: int| filler),
    }
}

/// All rows, one after the other.
pub open spec fn dense_values<T>(
    rows: Seq<Result<Vec<T>, Seq<char>>>,
    dim: nat,
    filler: T,
) -> Seq<T>
    decreases rows.len(),
{
    if rows.len() == 0 {
        Seq::empty()
    } else {
        dense_values(rows.drop_last(), dim, filler) + dense_row(rows.last(), dim, filler)
    }
}

/// The length of the first row that succeeded with another length than `dim`.
pub open spec fn odd_dim<T>(rows: Seq<Result<Vec<T>, Seq<char>>>, dim: nat) -> Option<nat>
    decreases rows.len(),
{
    if rows.len() == 0 {
        None
    } else {
        match odd_dim(rows.drop_last(), dim) {
            Some(n) => Some(n),
            None => match rows.last() {
                Ok(v) => if v@.len() == dim {
                    None
                } else {
                    Some(v@.len())
                },
                Err(_) => None,
            },
        }
    }
}

/// A dense column: vectors of one length, laid end to end, beside the reasons of
/// the rows that failed.
#[derive(Debug)]
pub struct DenseLayout<T> {
    /// The length of every vector.
    pub dim: usize,
    /// The values, `dim` for each row.
    pub flat: Vec<T>,
    /// Which rows hold a vector; nothing when all do.
    pub validity: Option<Vec<bool>>,
    /// Why a row holds none.
    pub errors: Vec<Option<String>>,
}

/// Whether `v` says which of `rows` succeeded.
pub open spec fn marks_failures<T>(
    v: Option<Vec<bool>>,
    rows: Seq<Result<T, Seq<char>>>,
) -> bool {
    match v {
        None => all_succeeded(rows),
        Some(v) => !all_succeeded(rows) && v@ == Seq::new(rows.len(), |i: int| rows[i] is Ok),
    }
}

fn find_dim<T>(outcome: &RowOutcomes<Vec<T>>) -> (dim: usize)
    ensures
        dim == dense_dim(outcome@),
{
    let mut i: usize = 0;
    assert(outcome@.skip(0) =~= outcome@);
    while i < outcome.rows.len()
        invariant
            i <= outcome.rows@.len(),
            dense_dim(outcome@) == dense_dim(outcome@.skip(i as int)),
        decreases outcome.rows@.len() - i,
    {
        assert(outcome@.skip(i as int)[0] == row_view(outcome.rows@[i as int]));
        assert(outcome@.skip(i as int).drop_first() =~= outcome@.skip(i + 1));
        if let Ok(v) = &outcome.rows[i] {
            return v.len();
        }
        i = i + 1;
    }
    0
}

/// A later odd row does not change which comes first.
proof fn lemma_odd_dim_stays<T>(rows: Seq<Result<Vec<T>, Seq<char>>>, dim: nat, n: int)
    requires
        0 <= n <= rows.len(),
        odd_dim(rows.take(n), dim) is Some,
    ensures
        odd_dim(rows, dim) == odd_dim(rows.take(n), dim),
    decreases rows.len() - n,
{
    if n < rows.len() {
        assert(rows.take(n + 1).drop_last() =~= rows.take(n));
        lemma_odd_dim_stays(rows, dim, n + 1);
    } else {
        assert(rows.take(n) =~= rows);
    }
}

/// Lay out the vectors of a batch, with `filler` in place of the rows that
/// failed. Fails when two vectors differ in length.
pub fn dense_layout<T: Copy>(outcome: &RowOutcomes<Vec<T>>, filler: T) -> (r: Result<
    DenseLayout<T>,
    Status,
>)
    ensures
        match odd_dim(outcome@, dense_dim(outcome@)) {
            Some(n) => r matches Err(s) && s@ == status(
                Code::Internal,
                "inconsistent embedding dimensions: "@ + decimal(n) + " vs "@ + decimal(
                    dense_dim(outcome@),
                ),
            ),
            None => r matches Ok(b) && {
                &&& b.dim == dense_dim(outcome@)
                &&& b.flat@ == dense_values(outcome@, dense_dim(outcome@), filler)
                &&& marks_failures(b.validity, outcome@)
                &&& texts_view(b.errors@) == error_texts(outcome@)
            },
        },
{
    let dim: usize = find_dim(outcome);
    let mut flat: Vec<T> = Vec::new();
    let mut i: usize = 0;
    while i < outcome.rows.len()
        invariant
            i <= outcome.rows@.len(),
            dim == dense_dim(outcome@),
            odd_dim(outcome@.take(i as int), dim as nat) is None,
            flat@ == dense_values(outcome@.take(i as int), dim as nat, filler),
        decreases outcome.rows@.len() - i,
    {
        let ghost upto = outcome@.take(i + 1);
        assert(upto.drop_last() =~= outcome@.take(i as int));
        assert(upto.last() == row_view(outcome.rows@[i as int]));
        let ghost before = flat@;
        match &outcome.rows[i] {
            Ok(v) => {
                if v.len() != dim {
                    proof {
                        lemma_odd_dim_stays(outcome@, dim as nat, i + 1);
                    }
                    return Err(
                        Status::internal(
                            "inconsistent embedding dimensions: ".to_owned().concat(
                                decimal_string(v.len() as u64).as_str(),
                            ).concat(" vs ").concat(decimal_string(dim as u64).as_str()),
                        ),
                    );
                }
                let mut j: usize = 0;
                while j < v.len()
                    invariant
                        j <= v@.len(),
                        flat@ == before + v@.take(j as int),
                    decreases v@.len() - j,
                {
                    flat.push(v[j]);
                    j = j + 1;
                    assert(flat@ =~= before + v@.take(j as int));
                }
                assert(v@.take(j as int) =~= v@);
            },
            Err(_) => {
                let mut j: usize = 0;
                while j < dim
                    invariant
                        j <= dim,
                        flat@ == before + Seq::new(j as nat, |j: int| filler),
                    decreases dim - j,
                {
                    flat.push(filler);
                    j = j + 1;
                    assert(flat@ =~= before + Seq::new(j as nat, |j: int| filler));
                }
            },
        }
        i = i + 1;
    }
    assert(outcome@.take(i as int) =~= outcome@);
    Ok(DenseLayout { dim, flat, validity: validity(outcome), errors: error_column(outcome) })
}

/// When every vector has length `dim`, the values of row `i` of a dense column
/// are those of input row `i`: rows are aligned one for one, in order.
pub proof fn law_dense_rows_are_aligned<T>(
    rows: Seq<Result<Vec<T>, Seq<char>>>,
    dim: nat,
    filler: T,
    i: int,
)
    requires
        odd_dim(rows, dim) is None,
        0 <= i < rows.len(),
    ensures
        dense_values(rows, dim, filler).len() == rows.len() * dim,
        0 <= i * dim <= (i + 1) * dim <= rows.len() * dim,
        dense_values(rows, dim, filler).subrange(i * dim as int, (i + 1) * dim as int)
            == dense_row(rows[i], dim, filler),
    decreases rows.len(),
{
    let init = rows.drop_last();
    let before = dense_values(init, dim, filler);
    lemma_dense_len(rows, dim, filler);
    lemma_dense_len(init, dim, filler);
    assert(0 <= i * dim <= (i + 1) * dim <= rows.len() * dim) by (nonlinear_arith)
        requires
            0 <= i < rows.len(),
            0 <= dim,
    ;
    if i < rows.len() - 1 {
        law_dense_rows_are_aligned(init, dim, filler, i);
        assert((i + 1) * dim <= init.len() * dim) by (nonlinear_arith)
            requires
                i + 1 <= init.len(),
                0 <= dim,
        ;
        assert(dense_values(rows, dim, filler).subrange(i * dim as int, (i + 1) * dim as int)
            =~= before.subrange(i * dim as int, (i + 1) * dim as int));
        assert(init[i] == rows[i]);
    } else {
        assert((i + 1) * dim == i * dim + dim) by (nonlinear_arith);
        assert(init.len() == i);
        assert(dense_values(rows, dim, filler).subrange(i * dim as int, (i + 1) * dim as int)
            =~= dense_row(rows.last(), dim, filler));
    }
}

/// A dense column has `dim` values for each row.
proof fn lemma_dense_len<T>(rows: Seq<Result<Vec<T>, Seq<char>>>, dim: nat, filler: T)
    requires
        odd_dim(rows, dim) is None,
    ensures
        dense_values(rows, dim, filler).len() == rows.len() * dim,
        rows.len() > 0 ==> dense_row(rows.last(), dim, filler).len() == dim && odd_dim(
            rows.drop_last(),
            dim,
        ) is None,
    decreases rows.len(),
{
    if rows.len() > 0 {
        lemma_dense_len(rows.drop_last(), dim, filler);
        assert(rows.len() * dim == (rows.len() - 1) * dim + dim) by (nonlinear_arith);
    }
}

/// The entries of a row of a sparse column: none when it failed.
pub open spec fn sparse_row<T>(row: Result<Vec<(u32, T)>, Seq<char>>) -> Seq<(u32, T)> {
    match row {
        Ok(v) => v@,
        Err(_) => Seq::empty(),
    }
}

/// All entries, row after row.
pub open spec fn sparse_entries<T>(rows: Seq<Result<Vec<(u32, T)>, Seq<char>>>) -> Seq<(u32, T)>
    decreases rows.len(),
{
    if rows.len() == 0 {
        Seq::empty()
    } else {
        sparse_entries(rows.drop_last()) + sparse_row(rows.last())
    }
}

/// A sparse column: the entries of all rows laid end to end, with the places at
/// which rows begin, beside the reasons of the rows that failed.
#[derive(Debug)]
pub struct SparseLayout<T> {
    /// Where each row begins, and the end.
    pub offsets: Vec<i32>,
    pub indices: Vec<u32>,
    pub values: Vec<T>,
    /// Which rows hold entries; nothing when all do.
    pub validity: Option<Vec<bool>>,
    /// Why a row holds none.
    pub errors: Vec<Option<String>>,
}

/// Fewer rows never have more entries.
proof fn lemma_sparse_grows<T>(rows: Seq<Result<Vec<(u32, T)>, Seq<char>>>, n: int)
    requires
        0 <= n <= rows.len(),
    ensures
        sparse_entries(rows.take(n)).len() <= sparse_entries(rows).len(),
    decreases rows.len() - n,
{
    if n < rows.len() {
        assert(rows.take(n + 1).drop_last() =~= rows.take(n));
        lemma_sparse_grows(rows, n + 1);
    } else {
        assert(rows.take(n) =~= rows);
    }
}

/// Lay out the entries of a batch.
pub fn sparse_layout<T: Copy>(outcome: &RowOutcomes<Vec<(u32, T)>>) -> (b: SparseLayout<T>)
    requires
        sparse_entries(outcome@).len() <= i32::MAX,
    ensures
        b.indices@ == sparse_entries(outcome@).map_values(|e: (u32, T)| e.0),
        b.values@ == sparse_entries(outcome@).map_values(|e: (u32, T)| e.1),
        b.offsets@.len() == outcome@.len() + 1,
        forall|k: int|
            0 <= k <= outcome@.len() ==> #[trigger] b.offsets@[k] == sparse_entries(
                outcome@.take(k),
            ).len(),
        marks_failures(b.validity, outcome@),
        texts_view(b.errors@) == error_texts(outcome@),
{
    let mut offsets: Vec<i32> = Vec::new();
    let mut indices: Vec<u32> = Vec::new();
    let mut values: Vec<T> = Vec::new();
    offsets.push(0);
    let mut i: usize = 0;
    assert(outcome@.take(0) =~= Seq::<Result<Vec<(u32, T)>, Seq<char>>>::empty());
    assert(indices@ =~= sparse_entries(outcome@.take(0)).map_values(|e: (u32, T)| e.0));
    assert(values@ =~= sparse_entries(outcome@.take(0)).map_values(|e: (u32, T)| e.1));
    while i < outcome.rows.len()
        invariant
            i <= outcome.rows@.len(),
            sparse_entries(outcome@).len() <= i32::MAX,
            indices@ == sparse_entries(outcome@.take(i as int)).map_values(|e: (u32, T)| e.0),
            values@ == sparse_entries(outcome@.take(i as int)).map_values(|e: (u32, T)| e.1),
            offsets@.len() == i + 1,
            forall|k: int|
                0 <= k <= i ==> #[trigger] offsets@[k] == sparse_entries(outcome@.take(k)).len(),
        decreases outcome.rows@.len() - i,
    {
        let ghost upto = outcome@.take(i + 1);
        let ghost before = sparse_entries(outcome@.take(i as int));
        assert(upto.drop_last() =~= outcome@.take(i as int));
        assert(upto.last() == row_view(outcome.rows@[i as int]));
        if let Ok(row) = &outcome.rows[i] {
            let mut j: usize = 0;
            assert(before + row@.take(0) =~= before);
            while j < row.len()
                invariant
                    j <= row@.len(),
                    indices@ == (before + row@.take(j as int)).map_values(|e: (u32, T)| e.0),
                    values@ == (before + row@.take(j as int)).map_values(|e: (u32, T)| e.1),
                decreases row@.len() - j,
            {
                let (index, value): (u32, T) = row[j];
                indices.push(index);
                values.push(value);
                j = j + 1;
                assert(indices@ =~= (before + row@.take(j as int)).map_values(
                    |e: (u32, T)| e.0,
                ));
                assert(values@ =~= (before + row@.take(j as int)).map_values(|e: (u32, T)| e.1));
            }
            assert(row@.take(j as int) =~= row@);
        } else {
            assert(before + sparse_row(upto.last()) =~= before);
        }
        proof {
            lemma_sparse_grows(outcome@, i + 1);
            assert(indices@.len() == sparse_entries(upto).len());
        }
        offsets.push(indices.len() as i32);
        i = i + 1;
    }
    assert(outcome@.take(i as int) =~= outcome@);
    SparseLayout {
        offsets,
        indices,
        values,
        validity: validity(outcome),
        errors: error_column(outcome),
    }
}

/// Between the offsets of row `i` and the next lie exactly its own entries.
pub proof fn law_sparse_rows_are_aligned<T>(rows: Seq<Result<Vec<(u32, T)>, Seq<char>>>, i: int)
    requires
        0 <= i < rows.len(),
    ensures
        ({
            let from = sparse_entries(rows.take(i)).len() as int;
            let to = sparse_entries(rows.take(i + 1)).len() as int;
            &&& from <= to <= sparse_entries(rows).len()
            &&& sparse_entries(rows).subrange(from, to) == sparse_row(rows[i])
        }),
    decreases rows.len(),
{
    let init = rows.drop_last();
    assert(rows.take(i + 1).drop_last() =~= rows.take(i));
    lemma_sparse_grows(rows, i + 1);
    let from = sparse_entries(rows.take(i)).len() as int;
    let to = sparse_entries(rows.take(i + 1)).len() as int;
    if i < rows.len() - 1 {
        law_sparse_rows_are_aligned(init, i);
        assert(init.take(i) =~= rows.take(i));
        assert(init.take(i + 1) =~= rows.take(i + 1));
        assert(sparse_entries(rows).subrange(from, to) =~= sparse_entries(init).subrange(
            from,
            to,
        ));
    } else {
        assert(rows.take(i + 1) =~= rows);
        assert(sparse_entries(rows).subrange(from, to) =~= sparse_row(rows[i]));
    }
}

/// Which rows are valid, by a mark that may be absent.
pub open spec fn valid_rows(validity: Option<Vec<bool>>, n: nat) -> Seq<bool> {
    match validity {
        Some(v) => v@,
        None => Seq::new(n, |i: int| true),
    }
}

/// Marks that are there mark a failure.
proof fn lemma_marks_a_failure<T>(validity: Option<Vec<bool>>, rows: Seq<Result<T, Seq<char>>>)
    requires
        marks_failures(validity, rows),
    ensures
        validity matches Some(v) ==> v@.contains(false),
{
    if let Some(v) = validity {
        let i = choose|i: int| 0 <= i < rows.len() && !(#[trigger] rows[i] is Ok);
        assert(!v@[i]);
    }
}

/// A single precision number rounded to half precision, both as bits.
pub uninterp spec fn half_bits(single: u32) -> u32;

/// Elements as a column of single or half precision holds them.
pub open spec fn element_bits(singles: Seq<u32>, half: bool) -> Seq<u32> {
    if half {
        singles.map_values(|b: u32| half_bits(b))
    } else {
        singles
    }
}

/// Why a batch could not be built.
#[derive(Debug)]
pub enum BuildFault {
    /// The column of vectors or lists.
    Column(String),
    /// The table.
    Table(String),
}

/// How many bytes the texts among `rows` take in UTF-8.
pub open spec fn row_bytes(rows: Seq<Option<Seq<char>>>) -> nat
    decreases rows.len(),
{
    if rows.len() == 0 {
        0
    } else {
        row_bytes(rows.drop_last()) + (match rows.last() {
            Some(s) => vstd::utf8::encode_utf8(s).len(),
            None => 0,
        })
    }
}

/// A column of vectors of `dim` elements. Without marks every vector is valid,
/// and there are as many as there are elements for; a column of empty vectors
/// without marks has no rows.
pub open spec fn vectors(
    half: bool,
    dim: nat,
    bits: Seq<u32>,
    validity: Option<Vec<bool>>,
) -> ColumnView {
    ColumnView::Vectors {
        half,
        dim,
        bits,
        valid: valid_rows(
            validity,
            if dim == 0 {
                0
            } else {
                bits.len() / dim
            },
        ),
    }
}

/// `Float32Array::new`: a column of the numbers with these bits.
#[verifier::external_body]
fn single_column(bits: Vec<u32>) -> (column: Column)
    ensures
        column_of(column) == (ColumnView::Numbers { half: false, bits: bits@ }),
{
    Column { inner: Arc::new(Float32Array::new(Buffer::from_vec(bits).into(), None)) }
}

/// `half`'s `HalfFloatVecExt::from_f32_slice`, and `Float16Array::new` over what
/// it gives: a column of the numbers with these bits, each rounded. What a number
/// is rounded to depends on it alone and is named, not described.
#[verifier::external_body]
fn half_column(bits: Vec<u32>) -> (column: Column)
    ensures
        column_of(column) == (ColumnView::Numbers {
            half: true,
            bits: bits@.map_values(|b: u32| half_bits(b)),
        }),
{
    let singles = Float32Array::new(Buffer::from_vec(bits).into(), None);
    let halves = Vec::from_f32_slice(singles.values());
    Column { inner: Arc::new(Float16Array::new(halves.into(), None)) }
}

/// `FixedSizeListArray::try_new` over a column of numbers. Arrow counts the
/// elements of a vector in 32 bits with a sign: what comes of more elements than
/// 32 bits count is left unsaid.
#[verifier::external_body]
fn vectors_column(elements: Column, dim: usize, validity: Option<Vec<bool>>) -> (r: Result<
    Column,
    String,
>)
    requires
        column_of(elements) is Numbers,
        dim == 0 ==> column_of(elements)->Numbers_bits.len() == 0,
        dim > 0 ==> column_of(elements)->Numbers_bits.len() % (dim as nat) == 0,
        validity matches Some(v) ==> v@.len() * dim == column_of(elements)->Numbers_bits.len()
            && v@.contains(false),
    ensures
        dim <= i32::MAX ==> r is Ok,
        i32::MAX < dim <= u32::MAX ==> r is Err,
        r matches Ok(column) ==> (dim <= i32::MAX ==> column_of(column) == vectors(
            column_of(elements)->Numbers_half,
            dim as nat,
            column_of(elements)->Numbers_bits,
            validity,
        )),
{
    let item = Arc::new(Field::new_list_field(elements.inner.data_type().clone(), false));
    let marks = validity.map(NullBuffer::from);
    FixedSizeListArray::try_new(item, dim as i32, elements.inner, marks)
        .map(|list| Column { inner: Arc::new(list) })
        .map_err(|e| e.to_string())
}

/// Whether `offsets` begins at 0, never falls, and ends at `total`.
pub open spec fn offsets_fit(offsets: Seq<i32>, total: nat) -> bool {
    &&& offsets.len() > 0
    &&& offsets[0] == 0
    &&& offsets.last() == total
    &&& forall|i: int, j: int| 0 <= i <= j < offsets.len() ==> offsets[i] <= offsets[j]
}

/// `ListArray::try_new` over a `StructArray` of indices and values, whose names
/// are the two of `entry`. `OffsetBuffer::new` panics on offsets that fall, and
/// `StructArray::new` on columns of different length.
#[verifier::external_body]
fn weights_column(
    offsets: Vec<i32>,
    indices: Vec<u32>,
    values: Column,
    validity: Option<Vec<bool>>,
    entry: (&str, &str),
) -> (r: Result<Column, String>)
    requires
        column_of(values) matches ColumnView::Numbers { half, bits } && !half && bits.len()
            == indices@.len(),
        offsets_fit(offsets@, indices@.len()),
        validity matches Some(v) ==> v@.len() + 1 == offsets@.len() && v@.contains(false),
    ensures
        r is Ok,
        r matches Ok(column) ==> column_of(column) == (ColumnView::Weights {
            entry: (entry.0@, entry.1@),
            offsets: offsets@,
            indices: indices@,
            bits: column_of(values)->Numbers_bits,
            valid: valid_rows(validity, (offsets@.len() - 1) as nat),
        }),
{
    let fields = vec![
        Field::new(entry.0, DataType::UInt32, false),
        Field::new(entry.1, DataType::Float32, false),
    ];
    let index = Arc::new(UInt32Array::from(indices));
    let entries = StructArray::new(fields.into(), vec![index, values.inner], None);
    let item = Arc::new(Field::new_list_field(entries.data_type().clone(), false));
    let starts = OffsetBuffer::new(offsets.into());
    let marks = validity.map(NullBuffer::from);
    let list = ListArray::try_new(item, starts, Arc::new(entries), marks);
    list.map(|a| Column { inner: Arc::new(a) }).map_err(|e| e.to_string())
}

/// `StringArray::from`: a column of the texts in order, `None` being a null. It
/// counts bytes in 32 bits with a sign and panics beyond.
#[verifier::external_body]
fn text_column(rows: Vec<Option<String>>) -> (column: Column)
    requires
        row_bytes(texts_view(rows@)) <= i32::MAX,
    ensures
        column_of(column) == ColumnView::Utf8(texts_view(rows@)),
{
    Column { inner: Arc::new(StringArray::from(rows)) }
}

/// How many rows a column has.
pub open spec fn column_len(column: ColumnView) -> nat {
    match column {
        ColumnView::Utf8(rows) => rows.len(),
        ColumnView::LargeUtf8(rows) => rows.len(),
        ColumnView::Utf8View(rows) => rows.len(),
        ColumnView::Numbers { bits, .. } => bits.len(),
        ColumnView::Vectors { valid, .. } => valid.len(),
        ColumnView::Weights { valid, .. } => valid.len(),
        ColumnView::Other { rows } => rows,
    }
}

/// Whether a column holds a null.
pub open spec fn has_nulls(column: ColumnView) -> bool {
    match column {
        ColumnView::Utf8(rows) => rows.contains(None),
        ColumnView::LargeUtf8(rows) => rows.contains(None),
        ColumnView::Utf8View(rows) => rows.contains(None),
        ColumnView::Numbers { .. } => false,
        ColumnView::Vectors { valid, .. } => valid.contains(false),
        ColumnView::Weights { valid, .. } => valid.contains(false),
        ColumnView::Other { .. } => true,
    }
}

/// `RecordBatch::try_from_iter_with_nullable`: a table of the columns under
/// their names. Fails exactly when there is no column, two differ in their
/// number of rows, or one that may hold no nulls does.
#[verifier::external_body]
fn make_batch(columns: Vec<(&str, Column, bool)>) -> (r: Result<Batch, String>)
    requires
        forall|i: int| 0 <= i < columns@.len() ==> !(column_of(#[trigger] columns@[i].1) is Other),
    ensures
        (r is Ok) == makes_table(named_columns(columns@)),
        r matches Ok(batch) ==> batch_columns(batch) == named_columns(columns@) && made_here(batch),
{
    let arrays = columns.into_iter().map(|(name, column, nullable)| (name, column.inner, nullable));
    let table = RecordBatch::try_from_iter_with_nullable(arrays);
    table.map(|inner| Batch { inner }).map_err(|e| e.to_string())
}

/// Columns with their names.
pub open spec fn named_columns(columns: Seq<(&str, Column, bool)>) -> Seq<Named> {
    Seq::new(columns.len(), |i: int| (columns[i].0@, column_of(columns[i].1), columns[i].2))
}

/// Whether there are columns, all with the same number of rows, and with nulls
/// only where they may be.
pub open spec fn makes_table(columns: Seq<Named>) -> bool {
    columns.len() > 0 && forall|i: int|
        0 <= i < columns.len() ==> column_len((#[trigger] columns[i]).1) == column_len(
            columns[0].1,
        ) && (columns[i].2 || !has_nulls(columns[i].1))
}

/// The message for a dense batch that could not be built, by its column of
/// vectors or as a table.
pub open spec fn dense_failure(error: Seq<char>, column: bool) -> Seq<char> {
    if column {
        "Failed to build embeddings column: "@ + error
    } else {
        "Failed to create RecordBatch: "@ + error
    }
}

/// The status for a dense batch that could not be built.
pub fn dense_failed(fault: &BuildFault) -> (s: Status)
    ensures
        s@ == status(
            Code::Internal,
            match *fault {
                BuildFault::Column(e) => "Failed to build embeddings column: "@ + e@,
                BuildFault::Table(e) => "Failed to create RecordBatch: "@ + e@,
            },
        ),
{
    match fault {
        BuildFault::Column(e) => Status::internal(
            "Failed to build embeddings column: ".to_owned().concat(e.as_str()),
        ),
        BuildFault::Table(e) => Status::internal(
            "Failed to create RecordBatch: ".to_owned().concat(e.as_str()),
        ),
    }
}

/// The status for a sparse batch that could not be built.
pub fn sparse_failed(fault: &BuildFault) -> (s: Status)
    ensures
        s@ == status(
            Code::Internal,
            match *fault {
                BuildFault::Column(e) => "Failed to build sparse column: "@ + e@,
                BuildFault::Table(e) => "Failed to create RecordBatch: "@ + e@,
            },
        ),
{
    match fault {
        BuildFault::Column(e) => Status::internal(
            "Failed to build sparse column: ".to_owned().concat(e.as_str()),
        ),
        BuildFault::Table(e) => Status::internal(
            "Failed to create RecordBatch: ".to_owned().concat(e.as_str()),
        ),
    }
}

/// The names of the columns of a dense response.
pub open spec fn dense_names() -> (Seq<char>, Seq<char>) {
    ("embeddings"@, "error"@)
}

/// The names of the columns of a sparse response.
pub open spec fn sparse_names() -> (Seq<char>, Seq<char>) {
    ("sparse_embeddings"@, "error"@)
}

/// The columns of a dense response for `rows`: vectors in the precision asked
/// for, zeros where a row failed, and the reasons of those that did.
pub open spec fn dense_response(
    rows: Seq<Result<Vec<u32>, Seq<char>>>,
    dtype: ArrowOutputDtype,
) -> Seq<Named> {
    seq![
        (
            dense_names().0,
            ColumnView::Vectors {
                half: dtype == ArrowOutputDtype::F16,
                dim: dense_dim(rows),
                bits: element_bits(
                    dense_values(rows, dense_dim(rows), 0),
                    dtype == ArrowOutputDtype::F16,
                ),
                valid: Seq::new(rows.len(), |i: int| rows[i] is Ok),
            },
            true,
        ),
        (dense_names().1, ColumnView::Utf8(error_texts(rows)), true),
    ]
}

/// Where the entries of each row begin, and where those of the last end.
pub open spec fn sparse_offsets<T>(rows: Seq<Result<Vec<(u32, T)>, Seq<char>>>) -> Seq<i32> {
    Seq::new(rows.len() + 1, |k: int| sparse_entries(rows.take(k)).len() as i32)
}

/// Rows leave no gap between their entries.
pub(crate) proof fn lemma_sparse_offsets<T>(rows: Seq<Result<Vec<(u32, T)>, Seq<char>>>)
    requires
        sparse_entries(rows).len() <= i32::MAX,
    ensures
        offsets_fit(sparse_offsets(rows), sparse_entries(rows).len()),
{
    assert(rows.take(0) =~= Seq::empty());
    assert(rows.take(rows.len() as int) =~= rows);
    assert forall|i: int, j: int| 0 <= i <= j < rows.len() + 1 implies sparse_offsets(rows)[i]
        <= sparse_offsets(rows)[j] by {
        lemma_sparse_grows(rows, j);
        lemma_sparse_grows(rows.take(j), i);
        assert(rows.take(j).take(i) =~= rows.take(i));
    }
}

/// The columns of a sparse response for `rows`.
pub open spec fn sparse_response(rows: Seq<Result<Vec<(u32, u32)>, Seq<char>>>) -> Seq<Named> {
    seq![
        (
            sparse_names().0,
            ColumnView::Weights {
                entry: ("index"@, "value"@),
                offsets: sparse_offsets(rows),
                indices: sparse_entries(rows).map_values(|e: (u32, u32)| e.0),
                bits: sparse_entries(rows).map_values(|e: (u32, u32)| e.1),
                valid: Seq::new(rows.len(), |i: int| rows[i] is Ok),
            },
            true,
        ),
        (sparse_names().1, ColumnView::Utf8(error_texts(rows)), true),
    ]
}

/// A dense response has exactly one row for each input row, in the same order: a
/// row that succeeded has its own vector there and no error, and one that failed
/// has no vector and says why.
pub proof fn law_dense_response_answers_each_row(
    rows: Seq<Result<Vec<u32>, Seq<char>>>,
    dtype: ArrowOutputDtype,
    i: int,
)
    requires
        odd_dim(rows, dense_dim(rows)) is None,
        0 <= i < rows.len(),
    ensures
        dense_response(rows, dtype)[0].1 matches ColumnView::Vectors { half, dim, bits, valid } && {
            &&& valid.len() == rows.len()
            &&& valid[i] == (rows[i] is Ok)
            &&& rows[i] matches Ok(v) ==> bits.subrange(i * dim as int, (i + 1) * dim as int)
                == element_bits(v@, half)
        },
        dense_response(rows, dtype)[1].1 matches ColumnView::Utf8(errors) && {
            &&& errors.len() == rows.len()
            &&& errors[i] == (match rows[i] {
                Ok(_) => None,
                Err(e) => Some(e),
            })
        },
{
    let dim = dense_dim(rows);
    let half = dtype == ArrowOutputDtype::F16;
    let flat = dense_values(rows, dim, 0u32);
    law_dense_rows_are_aligned(rows, dim, 0u32, i);
    let from = i * dim as int;
    let to = (i + 1) * dim as int;
    assert(element_bits(flat, half).subrange(from, to) =~= element_bits(
        flat.subrange(from, to),
        half,
    ));
}

/// A sparse response has exactly one row for each input row, in the same order: a
/// row that succeeded has its own entries there and no error, and one that failed
/// has none and says why.
pub proof fn law_sparse_response_answers_each_row(
    rows: Seq<Result<Vec<(u32, u32)>, Seq<char>>>,
    i: int,
)
    requires
        sparse_entries(rows).len() <= i32::MAX,
        0 <= i < rows.len(),
    ensures
        sparse_response(rows)[0].1 matches ColumnView::Weights {
            entry,
            offsets,
            indices,
            bits,
            valid,
        } && {
            &&& offsets.len() == rows.len() + 1
            &&& valid.len() == rows.len()
            &&& valid[i] == (rows[i] is Ok)
            &&& 0 <= offsets[i] <= offsets[i + 1] <= indices.len()
            &&& indices.len() == bits.len()
            &&& indices.subrange(offsets[i] as int, offsets[i + 1] as int) == sparse_row(
                rows[i],
            ).map_values(|e: (u32, u32)| e.0)
            &&& bits.subrange(offsets[i] as int, offsets[i + 1] as int) == sparse_row(
                rows[i],
            ).map_values(|e: (u32, u32)| e.1)
        },
        sparse_response(rows)[1].1 matches ColumnView::Utf8(errors) && {
            &&& errors.len() == rows.len()
            &&& errors[i] == (match rows[i] {
                Ok(_) => None,
                Err(e) => Some(e),
            })
        },
{
    let all = sparse_entries(rows);
    let from = sparse_entries(rows.take(i)).len() as int;
    let to = sparse_entries(rows.take(i + 1)).len() as int;
    law_sparse_rows_are_aligned(rows, i);
    assert(sparse_offsets(rows)[i] == from && sparse_offsets(rows)[i + 1] == to);
    assert(all.map_values(|e: (u32, u32)| e.0).subrange(from, to) =~= all.subrange(
        from,
        to,
    ).map_values(|e: (u32, u32)| e.0));
    assert(all.map_values(|e: (u32, u32)| e.1).subrange(from, to) =~= all.subrange(
        from,
        to,
    ).map_values(|e: (u32, u32)| e.1));
}

/// The response batch for dense rows, whose elements are given as bits: one row
/// for each input row and in the same order, in the precision asked for. Fails
/// when two vectors differ in length, on vectors longer than 32 bits with a sign
/// count, and on rows that all succeeded with empty vectors.
pub fn dense_batch(outcome: &RowOutcomes<Vec<u32>>, dtype: ArrowOutputDtype) -> (r: Result<
    Batch,
    Status,
>)
    requires
        dense_dim(outcome@) <= u32::MAX,
        row_bytes(error_texts(outcome@)) <= i32::MAX,
    ensures
        odd_dim(outcome@, dense_dim(outcome@)) matches Some(n) ==> (r matches Err(s) && s@
            == status(
            Code::Internal,
            "inconsistent embedding dimensions: "@ + decimal(n) + " vs "@ + decimal(
                dense_dim(outcome@),
            ),
        )),
        odd_dim(outcome@, dense_dim(outcome@)) is None && dense_dim(outcome@) > i32::MAX ==> (
        r matches Err(s) && exists|e: Seq<char>|
            s@ == status(Code::Internal, #[trigger] dense_failure(e, true))),
        odd_dim(outcome@, dense_dim(outcome@)) is None && dense_dim(outcome@) == 0 && all_succeeded(
            outcome@,
        ) && outcome@.len() > 0 ==> (r matches Err(s) && exists|e: Seq<char>|
            s@ == status(Code::Internal, #[trigger] dense_failure(e, false))),
        odd_dim(outcome@, dense_dim(outcome@)) is None && dense_dim(outcome@) <= i32::MAX && (
        dense_dim(outcome@) > 0 || !all_succeeded(outcome@) || outcome@.len() == 0) ==> (
        r matches Ok(batch) && batch_columns(batch) == dense_response(outcome@, dtype)
            && made_here(batch)),
{
    let layout = match dense_layout(outcome, 0u32) {
        Ok(layout) => layout,
        Err(s) => {
            return Err(s);
        },
    };
    let ghost n = outcome@.len();
    let ghost dim = dense_dim(outcome@);
    let ghost flat = layout.flat@;
    let ghost validity = layout.validity;
    proof {
        lemma_marks_a_failure(validity, outcome@);
        lemma_dense_len(outcome@, dim, 0u32);
        assert(layout.errors@.len() == texts_view(layout.errors@).len());
        if dim > 0 {
            vstd::arithmetic::div_mod::lemma_mod_multiples_basic(n as int, dim as int);
            vstd::arithmetic::div_mod::lemma_div_multiples_vanish(n as int, dim as int);
            assert(n * dim == dim * n) by (nonlinear_arith);
        } else {
            assert(n * dim == 0) by (nonlinear_arith)
                requires
                    dim == 0,
            ;
        }
    }
    let half: bool = dtype == ArrowOutputDtype::F16;
    let elements = if half {
        half_column(layout.flat)
    } else {
        single_column(layout.flat)
    };
    let embeddings = match vectors_column(elements, layout.dim, layout.validity) {
        Ok(column) => column,
        Err(e) => {
            let s = dense_failed(&BuildFault::Column(e));
            assert(s@ == status(Code::Internal, dense_failure(e@, true)));
            return Err(s);
        },
    };
    let errors = text_column(layout.errors);
    let mut columns: Vec<(&str, Column, bool)> = Vec::new();
    columns.push(("embeddings", embeddings, true));
    columns.push(("error", errors, true));
    proof {
        let named = named_columns(columns@);
        assert(named.len() == 2);
        assert(named[0].1 == vectors(half, dim, element_bits(flat, half), validity));
        assert(named[1].1 == ColumnView::Utf8(error_texts(outcome@)));
        assert(element_bits(flat, half).len() == n * dim);
        if dim > 0 || validity is Some || n == 0 {
            assert(named[0].1 == (ColumnView::Vectors {
                half,
                dim,
                bits: element_bits(flat, half),
                valid: Seq::new(n, |i: int| outcome@[i] is Ok),
            })) by {
                assert(valid_rows(
                    validity,
                    if dim == 0 {
                        0
                    } else {
                        (n * dim) / dim
                    },
                ) =~= Seq::new(n, |i: int| outcome@[i] is Ok));
            }
            assert(named =~= dense_response(outcome@, dtype));
        } else {
            assert(column_len(named[1].1) == n);
        }
    }
    match make_batch(columns) {
        Ok(batch) => Ok(batch),
        Err(e) => {
            let s = dense_failed(&BuildFault::Table(e));
            assert(s@ == status(Code::Internal, dense_failure(e@, false)));
            Err(s)
        },
    }
}

/// The response batch for sparse rows, whose values are given as bits: one row
/// for each input row and in the same order.
pub fn sparse_batch(outcome: &RowOutcomes<Vec<(u32, u32)>>) -> (r: Result<Batch, Status>)
    requires
        sparse_entries(outcome@).len() <= i32::MAX,
        row_bytes(error_texts(outcome@)) <= i32::MAX,
    ensures
        r matches Ok(batch) && batch_columns(batch) == sparse_response(outcome@) && made_here(batch),
{
    let layout = sparse_layout(outcome);
    proof {
        assert(layout.errors@.len() == texts_view(layout.errors@).len());
        lemma_marks_a_failure(layout.validity, outcome@);
        lemma_sparse_offsets(outcome@);
        assert(layout.offsets@ =~= sparse_offsets(outcome@));
        assert(valid_rows(layout.validity, layout.errors@.len()) =~= Seq::new(
            outcome@.len(),
            |i: int| outcome@[i] is Ok,
        ));
    }
    let weights = match weights_column(
        layout.offsets,
        layout.indices,
        single_column(layout.values),
        layout.validity,
        ("index", "value"),
    ) {
        Ok(column) => column,
        Err(e) => {
            return Err(sparse_failed(&BuildFault::Column(e)));
        },
    };
    let errors = text_column(layout.errors);
    let mut columns: Vec<(&str, Column, bool)> = Vec::new();
    columns.push(("sparse_embeddings", weights, true));
    columns.push(("error", errors, true));
    assert(named_columns(columns@) =~= sparse_response(outcome@));
    match make_batch(columns) {
        Ok(batch) => Ok(batch),
        Err(e) => Err(sparse_failed(&BuildFault::Table(e))),
    }
}

/// The step at which writing a batch failed.
#[derive(Debug, Clone, Copy, PartialEq, Eq, Structural)]
pub enum WriteStep {
    Options,
    Writer,
    Batch,
    Finish,
}

/// Why a batch could not be written.
#[derive(Debug)]
pub struct WriteFault {
    pub step: WriteStep,
    pub error: String,
}

/// Whether every column is of a kind that is known to survive the wire: texts,
/// vectors, and lists of weights without a gap before, between or behind them.
/// Arrow's writer would close the gaps.
pub open spec fn survives(columns: Seq<Named>) -> bool {
    forall|i: int|
        0 <= i < columns.len() ==> match (#[trigger] columns[i]).1 {
            ColumnView::Utf8(_) => true,
            ColumnView::Vectors { .. } => true,
            ColumnView::Weights { offsets, indices, .. } => offsets_fit(offsets, indices.len()),
            _ => false,
        }
}

/// The bytes that a batch of these columns is written as.
pub uninterp spec fn written(columns: Seq<(Seq<char>, ColumnView, bool)>, lz4: bool) -> Seq<u8>;

/// Arrow's `StreamWriter`: made with `try_new_with_options`, given one batch
/// with `write`, and ended with `finish`. The header of the batch says whether it
/// is compressed. Of the kinds of columns that this library writes: writing does
/// not fail, and reading the bytes, which is safe, gives the columns back. What a
/// batch made here is written as depends on its columns and the compression alone
/// and is named, not described. When a step fails on other columns is left unsaid.
#[verifier::external_body]
fn write_batch(batch: &Batch, lz4: bool) -> (r: Result<Vec<u8>, WriteFault>)
    ensures
        survives(batch_columns(*batch)) ==> r is Ok,
        r matches Ok(bytes) ==> (survives(batch_columns(*batch)) ==> readable(bytes@)
            && first_batch(bytes@) == Ok::<_, ReadFaultView>(batch_columns(*batch))),
        r matches Ok(bytes) ==> lz4_frames(bytes@) == lz4,
        r matches Ok(bytes) ==> (made_here(*batch) ==> bytes@ == written(
            batch_columns(*batch),
            lz4,
        )),
{
    let fault = |step: WriteStep| move |e: ArrowError| WriteFault { step, error: e.to_string() };
    let kind = lz4.then_some(CompressionType::LZ4_FRAME);
    let options = IpcWriteOptions::default()
        .try_with_compression(kind)
        .map_err(fault(WriteStep::Options))?;
    let mut buffer: Vec<u8> = Vec::new();
    let mut writer = StreamWriter::try_new_with_options(&mut buffer, &batch.inner.schema(), options)
        .map_err(fault(WriteStep::Writer))?;
    writer.write(&batch.inner).map_err(fault(WriteStep::Batch))?;
    writer.finish().map_err(fault(WriteStep::Finish))?;
    drop(writer);
    Ok(buffer)
}

/// The message for a batch that could not be written.
pub open spec fn write_failure(step: WriteStep, error: Seq<char>) -> Seq<char> {
    match step {
        WriteStep::Options => "Failed to set compression: "@ + error,
        WriteStep::Writer => "Failed to create IPC writer: "@ + error,
        WriteStep::Batch => "Failed to write RecordBatch: "@ + error,
        WriteStep::Finish => "Failed to finish IPC writer: "@ + error,
    }
}

/// The status for a batch that could not be written.
pub fn write_failed(fault: &WriteFault) -> (s: Status)
    ensures
        s@ == status(Code::Internal, write_failure(fault.step, fault.error@)),
{
    let prefix = match fault.step {
        WriteStep::Options => "Failed to set compression: ",
        WriteStep::Writer => "Failed to create IPC writer: ",
        WriteStep::Batch => "Failed to write RecordBatch: ",
        WriteStep::Finish => "Failed to finish IPC writer: ",
    };
    Status::internal(prefix.to_owned().concat(fault.error.as_str()))
}

/// What a request can ask for: no compression.
pub const COMPRESSION_NONE: i32 = 0;

/// What a request can ask for: LZ4 frames.
pub const COMPRESSION_LZ4: i32 = 1;

/// The compression asked for, if there is such a one.
pub open spec fn compression_of(compression: i32) -> Option<bool> {
    if compression == COMPRESSION_NONE {
        Some(false)
    } else if compression == COMPRESSION_LZ4 {
        Some(true)
    } else {
        None
    }
}

/// Whether LZ4 is asked for.
pub fn use_lz4(compression: i32) -> (r: Result<bool, Status>)
    ensures
        match compression_of(compression) {
            Some(lz4) => r == Ok::<bool, Status>(lz4),
            None => r matches Err(s) && s@ == status(
                Code::InvalidArgument,
                "unknown compression value "@ + signed_decimal(compression as int),
            ),
        },
{
    if compression == COMPRESSION_NONE {
        Ok(false)
    } else if compression == COMPRESSION_LZ4 {
        Ok(true)
    } else {
        Err(
            Status::invalid_argument(
                "unknown compression value ".to_owned().concat(
                    signed_decimal_string(compression as i64).as_str(),
                ),
            ),
        )
    }
}

/// Write a batch in the IPC stream format, compressed as asked. Fails with
/// `InvalidArgument` exactly when there is no such compression, and not at all on
/// columns that are known to survive the wire.
pub fn serialize(batch: &Batch, compression: i32) -> (r: Result<Vec<u8>, Status>)
    ensures
        compression_of(compression) is None ==> (r matches Err(s) && s@ == status(
            Code::InvalidArgument,
            "unknown compression value "@ + signed_decimal(compression as int),
        )),
        compression_of(compression) is Some && survives(batch_columns(*batch)) ==> r is Ok,
        compression_of(compression) is Some ==> (r matches Err(s) ==> exists|
            step: WriteStep,
            error: Seq<char>,
        |
            s@ == status(Code::Internal, #[trigger] write_failure(step, error))),
        r matches Ok(bytes) ==> (survives(batch_columns(*batch)) ==> readable(bytes@)
            && first_batch(bytes@) == Ok::<_, ReadFaultView>(batch_columns(*batch))),
        r matches Ok(bytes) ==> compression_of(compression) == Some(lz4_frames(bytes@)),
        r matches Ok(bytes) ==> (made_here(*batch) ==> bytes@ == written(
            batch_columns(*batch),
            lz4_frames(bytes@),
        )),
{
    match use_lz4(compression) {
        Ok(lz4) => match write_batch(batch, lz4) {
            Ok(bytes) => Ok(bytes),
            Err(fault) => {
                let s = write_failed(&fault);
                assert(s@ == status(Code::Internal, write_failure(fault.step, fault.error@)));
                Err(s)
            },
        },
        Err(s) => Err(s),
    }
}

/// The texts as rows, none of them null.
pub open spec fn as_rows(texts: Seq<String>) -> Seq<Option<Seq<char>>> {
    Seq::new(texts.len(), |i: int| Some(texts[i]@))
}

/// An embedding request's payload: the texts as one column of one batch. The
/// receiving side reads exactly these rows back.
pub fn create_arrow_ipc(texts: &Vec<String>, compression: i32) -> (r: Result<Vec<u8>, Status>)
    requires
        row_bytes(as_rows(texts@)) <= i32::MAX,
    ensures
        compression_of(compression) matches Some(lz4) ==> (r matches Ok(bytes) && stream_rows(bytes@)
            == Ok::<_, StatusView>(as_rows(texts@)) && lz4_frames(bytes@) == lz4),
        compression_of(compression) is None ==> (r matches Err(s) && s@ == status(
            Code::InvalidArgument,
            "unknown compression value "@ + signed_decimal(compression as int),
        )),
{
    let mut rows: Vec<Option<String>> = Vec::new();
    let mut i: usize = 0;
    while i < texts.len()
        invariant
            i <= texts@.len(),
            texts_view(rows@) == as_rows(texts@).take(i as int),
        decreases texts@.len() - i,
    {
        let ghost before = texts_view(rows@);
        rows.push(Some(texts[i].clone()));
        assert(texts_view(rows@) =~= before.push(as_rows(texts@)[i as int]));
        i = i + 1;
        assert(texts_view(rows@) =~= as_rows(texts@).take(i as int));
    }
    assert(as_rows(texts@).take(i as int) =~= as_rows(texts@));
    let column = text_column(rows);
    let mut columns: Vec<(&str, Column, bool)> = Vec::new();
    columns.push(("text", column, false));
    assert(named_columns(columns@)[0].1 == ColumnView::Utf8(as_rows(texts@)));
    assert(!as_rows(texts@).contains(None));
    match make_batch(columns) {
        Ok(batch) => serialize(&batch, compression),
        Err(e) => {
            assert(false);
            Err(Status::internal(e))
        },
    }
}

/// Whatever is wrong with what a request carries, the request is refused as bad; its
/// rows are those of the first column, which must be text of some kind.
pub proof fn law_requests_carry_a_column_of_texts(
    read: Result<Seq<Named>, ReadFaultView>,
    rows: Seq<Option<Seq<char>>>,
)
    ensures
        text_rows(read) matches Err(s) ==> s.code == Code::InvalidArgument,
        text_rows(read) is Ok <==> {
            &&& read matches Ok(columns) && columns.len() > 0 && (columns[0].1 is Utf8
                || columns[0].1 is LargeUtf8 || columns[0].1 is Utf8View)
        },
        read matches Ok(columns) ==> (columns.len() > 0 && (columns[0].1 == ColumnView::Utf8(rows)
            || columns[0].1 == ColumnView::LargeUtf8(rows) || columns[0].1 == ColumnView::Utf8View(
            rows,
        )) ==> text_rows(read) == Ok::<_, StatusView>(rows)),
{
}

/// The length of the vectors is that of the first row that succeeded, and nought
/// where none did; a row of another length is found, the first of them.
pub proof fn law_vectors_have_one_length<T>(rows: Seq<Result<Vec<T>, Seq<char>>>, i: int)
    requires
        0 <= i <= rows.len(),
        forall|j: int| 0 <= j < i ==> #[trigger] rows[j] is Err,
    ensures
        i == rows.len() ==> dense_dim(rows) == 0,
        i < rows.len() && rows[i] is Ok ==> dense_dim(rows) == rows[i]->Ok_0@.len(),
    decreases rows.len(),
{
    if i > 0 {
        assert(rows[0] is Err);
        let rest = rows.drop_first();
        assert forall|j: int| 0 <= j < i - 1 implies #[trigger] rest[j] is Err by {
            assert(rest[j] == rows[j + 1]);
        }
        law_vectors_have_one_length(rest, i - 1);
    }
}

/// No row is odd exactly when all that succeeded have the length asked for, and the
/// length of an odd row is that of the first one.
pub proof fn law_odd_rows_are_found<T>(rows: Seq<Result<Vec<T>, Seq<char>>>, dim: nat)
    ensures
        odd_dim(rows, dim) is None <==> forall|i: int|
            0 <= i < rows.len() && #[trigger] rows[i] is Ok ==> rows[i]->Ok_0@.len() == dim,
        odd_dim(rows, dim) matches Some(n) ==> exists|i: int|
            0 <= i < rows.len() && #[trigger] rows[i] is Ok && rows[i]->Ok_0@.len() == n && n != dim
                && forall|j: int|
                0 <= j < i && #[trigger] rows[j] is Ok ==> rows[j]->Ok_0@.len() == dim,
    decreases rows.len(),
{
    if rows.len() > 0 {
        let init = rows.drop_last();
        let last = rows.len() - 1;
        law_odd_rows_are_found(init, dim);
        assert(rows[last] == rows.last());
        if let Some(n) = odd_dim(init, dim) {
            let i = choose|i: int|
                0 <= i < init.len() && #[trigger] init[i] is Ok && init[i]->Ok_0@.len() == n && n
                    != dim && forall|j: int|
                    0 <= j < i && #[trigger] init[j] is Ok ==> init[j]->Ok_0@.len() == dim;
            assert(rows[i] == init[i]);
            assert forall|j: int| 0 <= j < i && #[trigger] rows[j] is Ok implies rows[j]->Ok_0@.len()
                == dim by {
                assert(init[j] == rows[j]);
            }
        } else {
            assert forall|j: int| 0 <= j < last && #[trigger] rows[j] is Ok implies rows[j]->Ok_0@.len()
                == dim by {
                assert(init[j] == rows[j]);
            }
        }
    }
}

/// What a response looks like: a column of vectors or of weights and a column of
/// errors, under these names; vectors are in the precision asked for, and a row that
/// failed holds noughts.
pub proof fn law_responses_have_their_columns(
    rows: Seq<Result<Vec<u32>, Seq<char>>>,
    weights: Seq<Result<Vec<(u32, u32)>, Seq<char>>>,
    dtype: ArrowOutputDtype,
    i: int,
)
    requires
        odd_dim(rows, dense_dim(rows)) is None,
        0 <= i < rows.len(),
    ensures
        ({
            let dense = dense_response(rows, dtype);
            let sparse = sparse_response(weights);
            &&& dense.len() == 2 && sparse.len() == 2
            &&& dense[0].0 == "embeddings"@ && dense[1].0 == "error"@
            &&& sparse[0].0 == "sparse_embeddings"@ && sparse[1].0 == "error"@
            &&& dense[0].2 && dense[1].2 && sparse[0].2 && sparse[1].2
            &&& dense[0].1 matches ColumnView::Vectors { half, dim, bits, valid } && {
                &&& valid.len() == rows.len() && valid[i] == (rows[i] is Ok)
                &&& half == (dtype == ArrowOutputDtype::F16)
                &&& bits.len() == rows.len() * dim
                &&& rows[i] matches Ok(v) ==> v@.len() == dim
                &&& rows[i] is Err && !half ==> bits.subrange(
                    i * dim as int,
                    (i + 1) * dim as int,
                ) == Seq::new(dim, |k: int| 0u32)
            }
            &&& dense[1].1 matches ColumnView::Utf8(errors) && errors.len() == rows.len()
                && errors[i] == (match rows[i] {
                Ok(_) => None,
                Err(e) => Some(e),
            })
            &&& sparse[0].1 matches ColumnView::Weights { entry, valid, .. } && entry == (
                "index"@,
                "value"@,
            ) && valid == Seq::new(weights.len(), |k: int| weights[k] is Ok)
            &&& sparse[1].1 matches ColumnView::Utf8(errors) && errors == Seq::new(
                weights.len(),
                |k: int|
                    match weights[k] {
                        Ok(_) => None,
                        Err(e) => Some(e),
                    },
            )
        }),
{
    let dim = dense_dim(rows);
    law_dense_rows_are_aligned(rows, dim, 0u32, i);
    law_odd_rows_are_found(rows, dim);
}

/// Elements of a column in single precision are as they are; in half precision each
/// is rounded by itself.
pub proof fn law_elements_keep_their_places(singles: Seq<u32>, i: int)
    requires
        0 <= i < singles.len(),
    ensures
        element_bits(singles, false) == singles,
        element_bits(singles, true).len() == singles.len(),
        element_bits(singles, true)[i] == half_bits(singles[i]),
{
}

/// A failed row of a sparse column has no entries, and each other its own.
pub proof fn law_failed_rows_have_no_entries(
    rows: Seq<Result<Vec<(u32, u32)>, Seq<char>>>,
    i: int,
)
    requires
        0 <= i < rows.len(),
    ensures
        rows[i] is Err ==> sparse_row(rows[i]) == Seq::<(u32, u32)>::empty(),
        rows[i] matches Ok(v) ==> sparse_row(rows[i]) == v@,
        error_texts(rows).len() == rows.len(),
        rows[i] is Ok <==> error_texts(rows)[i] is None,
        rows[i] matches Err(e) ==> error_texts(rows)[i] == Some(e),
        all_succeeded(rows) <==> forall|k: int|
            0 <= k < rows.len() ==> #[trigger] error_texts(rows)[k] is None,
{
    if forall|k: int| 0 <= k < rows.len() ==> #[trigger] error_texts(rows)[k] is None {
        assert forall|k: int| 0 <= k < rows.len() implies #[trigger] rows[k] is Ok by {
            assert(error_texts(rows)[k] is None);
        }
    }
}

/// A request asks for no compression with 0, for LZ4 with 1, and is refused with
/// anything else.
pub proof fn law_compressions_are_asked_for_by_number(compression: i32)
    ensures
        compression_of(0) == Some(false),
        compression_of(1) == Some(true),
        compression_of(compression) is None <==> compression != 0 && compression != 1,
{
}

/// What is said of a batch that could not be written names the step.
pub proof fn law_write_failures_name_the_step(error: Seq<char>)
    ensures
        write_failure(WriteStep::Options, error) == "Failed to set compression: "@ + error,
        write_failure(WriteStep::Writer, error) == "Failed to create IPC writer: "@ + error,
        write_failure(WriteStep::Batch, error) == "Failed to write RecordBatch: "@ + error,
        write_failure(WriteStep::Finish, error) == "Failed to finish IPC writer: "@ + error,
{
}

/// What is said of a response that could not be put together names what failed.
pub proof fn law_failed_responses_name_what_failed(error: Seq<char>)
    ensures
        dense_failure(error, true) == "Failed to build embeddings column: "@ + error,
        dense_failure(error, false) == "Failed to create RecordBatch: "@ + error,
{
}

/// A stream is handed to Arrow exactly when its schema and its first batch keep to
/// their messages; what is said of another blames the schema first.
pub proof fn law_streams_are_read_when_they_can_be(ipc: Seq<u8>)
    ensures
        readable(ipc) ==> stream_batch(ipc) == first_batch(ipc),
        !readable(ipc) && !schema_fits(ipc) ==> stream_batch(ipc) == Err::<Seq<Named>, _>(
            ReadFaultView::NotIpc("a union has too many fields"@),
        ),
        !readable(ipc) && schema_fits(ipc) ==> stream_batch(ipc) == Err::<Seq<Named>, _>(
            ReadFaultView::Unreadable("the record batch does not keep to its message"@),
        ),
{
}

} // verus!
