//! Streams whose record batches do not keep to their messages, and streams with
//! columns of every kind.

use arrow::array::{
    Array, ArrayRef, BinaryArray, BinaryViewArray, BooleanArray, Decimal128Array,
    DictionaryArray, FixedSizeBinaryArray, FixedSizeListArray, Int32Array, LargeBinaryArray,
    LargeListArray, LargeListViewArray, LargeStringArray, ListArray, ListViewArray, MapBuilder,
    NullArray, RunArray, StringArray, StringBuilder, StringViewArray, StructArray,
    TimestampSecondArray, UnionArray,
};
use arrow::buffer::{OffsetBuffer, ScalarBuffer};
use arrow::datatypes::{DataType, Field, Int32Type, UnionFields};
use arrow::ipc::writer::{IpcWriteOptions, StreamWriter};
use arrow::ipc::{root_as_message, CompressionType, MessageHeader, Type};
use arrow::record_batch::{RecordBatch, RecordBatchOptions};
use std::ops::Range;
use std::sync::Arc;
use tei_manager::bench::read_answer;
use tei_manager::grpc::arrow_batch::{
    batch_row_count, create_arrow_ipc, parse_text_rows, ReadFault, COMPRESSION_LZ4,
    COMPRESSION_NONE,
};
use tei_manager::grpc::ipc::{look, Look};
use tei_manager::grpc::status::Code;

fn stream(columns: Vec<(&str, ArrayRef)>) -> Vec<u8> {
    let batch = RecordBatch::try_from_iter(columns).unwrap();
    written(&batch, None)
}

fn written(batch: &RecordBatch, codec: Option<CompressionType>) -> Vec<u8> {
    let mut bytes = Vec::new();
    let options = IpcWriteOptions::default().try_with_compression(codec).unwrap();
    let mut writer =
        StreamWriter::try_new_with_options(&mut bytes, &batch.schema(), options).unwrap();
    writer.write(batch).unwrap();
    writer.finish().unwrap();
    drop(writer);
    bytes
}

fn texts(items: &[&str]) -> ArrayRef {
    Arc::new(StringArray::from(items.to_vec()))
}

/// A message: where it begins, and where its metadata and its body lie.
struct Frame {
    start: usize,
    meta: Range<usize>,
    body: Range<usize>,
    kind: MessageHeader,
}

fn frames(ipc: &[u8]) -> Vec<Frame> {
    let (mut frames, mut at) = (Vec::new(), 0);
    while at + 8 <= ipc.len() {
        let len = u32::from_le_bytes(ipc[at + 4..at + 8].try_into().unwrap()) as usize;
        if len == 0 {
            break;
        }
        let meta = at + 8..at + 8 + len;
        let message = root_as_message(&ipc[meta.clone()]).unwrap();
        let body = meta.end..meta.end + message.bodyLength() as usize;
        let end = body.end;
        frames.push(Frame { start: at, meta, body, kind: message.header_type() });
        at = end;
    }
    frames
}

fn batch_frame(ipc: &[u8]) -> Frame {
    frames(ipc).into_iter().find(|f| f.kind == MessageHeader::RecordBatch).unwrap()
}

/// The buffers of the record batch.
fn buffers(ipc: &[u8]) -> Vec<(i64, i64)> {
    let message = root_as_message(&ipc[batch_frame(ipc).meta]).unwrap();
    let batch = message.header_as_record_batch().unwrap();
    batch.buffers().unwrap().iter().map(|b| (b.offset(), b.length())).collect()
}

fn codec(ipc: &[u8]) -> Option<CompressionType> {
    let message = root_as_message(&ipc[batch_frame(ipc).meta]).unwrap();
    message.header_as_record_batch().unwrap().compression().map(|c| c.codec())
}

/// The stream with the description of one buffer put in place of another.
fn with_buffer(ipc: &[u8], k: usize, put: (i64, i64)) -> Vec<u8> {
    let bytes = |pair: (i64, i64)| [pair.0.to_le_bytes(), pair.1.to_le_bytes()].concat();
    let (old, new) = (bytes(buffers(ipc)[k]), bytes(put));
    let meta = batch_frame(ipc).meta;
    let mut changed = ipc.to_vec();
    for at in meta.start..meta.end - 16 {
        if ipc[at..at + 16] == old[..] {
            changed[at..at + 16].copy_from_slice(&new);
            if buffers(&changed)[k] == put {
                return changed;
            }
            changed = ipc.to_vec();
        }
    }
    panic!("no such buffer")
}

fn refused(ipc: &[u8]) {
    assert_eq!(look(ipc), Look::BadMessage);
    let status = parse_text_rows(ipc).unwrap_err();
    assert_eq!(status.code, Code::InvalidArgument);
    assert_eq!(
        status.message,
        "Failed to read RecordBatch: the record batch does not keep to its message"
    );
    assert!(matches!(batch_row_count(ipc), Err(ReadFault::Unreadable(_))));
}

/// What Arrow says of a stream that it reads and finds malformed.
fn malformed(ipc: &[u8]) -> String {
    assert_eq!(look(ipc), Look::Readable);
    assert!(matches!(batch_row_count(ipc), Err(ReadFault::Unreadable(_))));
    let status = parse_text_rows(ipc).unwrap_err();
    assert_eq!(status.code, Code::InvalidArgument);
    status.message.strip_prefix("Failed to read RecordBatch: ").unwrap().to_string()
}

fn rows(ipc: &[u8]) -> Vec<String> {
    parse_text_rows(ipc).unwrap().into_iter().map(|row| row.unwrap()).collect()
}

#[test]
fn what_is_no_stream_is_left_to_the_reader() {
    let plain = stream(vec![("text", texts(&["ab", "cde"]))]);
    assert_eq!(look(&plain), Look::Readable);
    assert_eq!(look(b"garbage"), Look::Readable);
    assert_eq!(look(&plain[..plain.len() / 2]), Look::Readable);
    assert!(matches!(batch_row_count(b"garbage"), Err(ReadFault::NotIpc(_))));
    assert!(matches!(
        batch_row_count(&plain[..batch_frame(&plain).start]),
        Err(ReadFault::NoBatch)
    ));
}

#[test]
fn buffers_outside_the_body_are_refused() {
    let ipc = stream(vec![("text", texts(&["ab", "cde"]))]);
    assert_eq!(rows(&ipc), vec!["ab", "cde"]);
    let list = buffers(&ipc);
    assert_eq!((list[1].1, list[2].1), (12, 5));
    let (from, len) = list[2];
    for put in [(from, 1 << 40), (1 << 40, len), (-8, len), (from, -1), (i64::MAX, i64::MAX)] {
        refused(&with_buffer(&ipc, 2, put));
    }
}

#[test]
fn offsets_are_whole_numbers() {
    let wide: ArrayRef = Arc::new(LargeStringArray::from(vec!["ab", "cde"]));
    let views: ArrayRef = Arc::new(StringViewArray::from(vec!["ab", "a text that is not short"]));
    for (column, first) in [(texts(&["ab", "cde"]), "ab"), (wide, "ab"), (views, "ab")] {
        let ipc = stream(vec![("text", column)]);
        assert_eq!(rows(&ipc)[0], first);
        let (from, len) = buffers(&ipc)[1];
        refused(&with_buffer(&ipc, 1, (from, len + 2)));
    }
}

/// Two rows of every kind.
fn all_kinds() -> Vec<(&'static str, ArrayRef)> {
    let numbers = || Arc::new(Int32Array::from(vec![1, 2, 3, 4])) as ArrayRef;
    let item = || Arc::new(Field::new("item", DataType::Int32, true));
    let two = || Arc::new(Int32Array::from(vec![7, 8])) as ArrayRef;
    let fields = || {
        UnionFields::try_new(
            vec![1, 5],
            vec![Field::new("n", DataType::Int32, true), Field::new("s", DataType::Utf8, true)],
        )
        .unwrap()
    };
    let mut map = MapBuilder::new(None, StringBuilder::new(), StringBuilder::new());
    for (key, value) in [("a", "b"), ("c", "d")] {
        map.keys().append_value(key);
        map.values().append_value(value);
        map.append(true).unwrap();
    }
    let words: DictionaryArray<Int32Type> = vec!["x", "y"].into_iter().collect();
    let runs = RunArray::<Int32Type>::try_new(&Int32Array::from(vec![2]), &texts(&["r"])).unwrap();
    let sparse = UnionArray::try_new(
        fields(),
        ScalarBuffer::from(vec![1i8, 5]),
        None,
        vec![two(), texts(&["a", "b"])],
    );
    let dense = UnionArray::try_new(
        fields(),
        ScalarBuffer::from(vec![5i8, 1]),
        Some(ScalarBuffer::from(vec![0i32, 1])),
        vec![two(), texts(&["a"])],
    );
    let offsets = || OffsetBuffer::from_lengths(vec![1usize, 3]);
    let record = StructArray::from(vec![(item(), two())]);
    vec![
        ("text", texts(&["ab", "cde"])),
        ("flags", Arc::new(BooleanArray::from(vec![true, false]))),
        ("words", Arc::new(words)),
        ("bytes", Arc::new(BinaryArray::from(vec![b"a".as_ref(), b"bc"]))),
        ("wide bytes", Arc::new(LargeBinaryArray::from(vec![b"a".as_ref(), b"bc"]))),
        ("viewed", Arc::new(BinaryViewArray::from(vec![b"a".as_ref(), b"bc"]))),
        ("sized", Arc::new(FixedSizeBinaryArray::try_from_iter([[1u8, 2], [3, 4]].iter()).unwrap())),
        ("nothing", Arc::new(NullArray::new(2))),
        ("time", Arc::new(TimestampSecondArray::from(vec![1, 2]))),
        ("money", Arc::new(Decimal128Array::from(vec![1, 2]))),
        ("list", Arc::new(ListArray::new(item(), offsets(), numbers(), None))),
        (
            "wide list",
            Arc::new(LargeListArray::new(
                item(),
                OffsetBuffer::from_lengths(vec![1usize, 3]),
                numbers(),
                None,
            )),
        ),
        (
            "list view",
            Arc::new(ListViewArray::new(item(), vec![1, 0].into(), vec![2, 4].into(), numbers(), None)),
        ),
        (
            "wide list view",
            Arc::new(LargeListViewArray::new(
                item(),
                vec![1, 0].into(),
                vec![2, 4].into(),
                numbers(),
                None,
            )),
        ),
        ("pairs", Arc::new(FixedSizeListArray::new(item(), 2, numbers(), None))),
        ("map", Arc::new(map.finish())),
        ("record", Arc::new(record)),
        ("runs", Arc::new(runs)),
        ("sparse", Arc::new(sparse.unwrap())),
        ("dense", Arc::new(dense.unwrap())),
    ]
}

#[test]
fn columns_of_every_kind_are_read() {
    let ipc = stream(all_kinds());
    assert_eq!(rows(&ipc), vec!["ab", "cde"]);
    assert_eq!(batch_row_count(&ipc).unwrap(), 2);
    assert_eq!(read_answer(&ipc).unwrap(), Some(2));
    for (name, column) in all_kinds() {
        let ipc = stream(vec![("text", texts(&["ab", "cde"])), (name, column.clone())]);
        assert_eq!(rows(&ipc), vec!["ab", "cde"], "{name}");
        let first = stream(vec![(name, column), ("text", texts(&["ab", "cde"]))]);
        assert_eq!(batch_row_count(&first).unwrap(), 2, "{name}");
        if name != "text" {
            let status = parse_text_rows(&first).unwrap_err();
            assert_eq!(status.message, "First column must be StringArray", "{name}");
        }
    }
}

#[test]
fn a_malformed_column_is_an_error_wherever_it_stands() {
    // The first buffer of a column that has no data of its own to check.
    let spoiled = |name: &str, k: usize, put: fn((i64, i64)) -> (i64, i64)| {
        let column = all_kinds().into_iter().find(|(n, _)| *n == name).unwrap().1;
        let ipc = stream(vec![("text", texts(&["ab", "cde"])), ("other", column)]);
        let at = 3 + k;
        with_buffer(&ipc, at, put(buffers(&ipc)[at]))
    };
    // Too little data, which Arrow reports itself.
    for (name, k) in [
        ("flags", 1),
        ("words", 1),
        ("bytes", 1),
        ("viewed", 1),
        ("sized", 1),
        ("time", 1),
        ("list", 1),
        ("wide list", 1),
        ("list view", 2),
        ("map", 1),
    ] {
        malformed(&spoiled(name, k, |b| (b.0, 0)));
    }
    // What Arrow would not survive.
    for (name, k) in [("words", 1), ("list", 1), ("list view", 1), ("list view", 2), ("runs", 1)] {
        refused(&spoiled(name, k, |b| (b.0, b.1 + 1)));
    }
    for (name, k) in [("sparse", 0), ("dense", 0), ("dense", 1)] {
        refused(&spoiled(name, k, |b| (b.0, b.1 - 1)));
    }
    refused(&spoiled("dense", 1, |b| (b.0 + 2, b.1)));
    for (name, _) in all_kinds() {
        if name != "text" && name != "nothing" {
            refused(&spoiled(name, 0, |b| (b.0, 1 << 40)));
        }
    }
}

#[test]
fn buffers_that_nobody_reads_do_not_matter() {
    let short = stream(vec![("text", texts(&["ab", "cde"]))]);
    let numbers: ArrayRef = Arc::new(Int32Array::from(vec![1, 2]));
    let long = stream(vec![("text", texts(&["ab", "cde"])), ("n", numbers)]);
    let long = with_buffer(&long, 4, (0, 1 << 40));
    refused(&long);
    // The schema of the one, which knows a single column, and the batch of the other.
    let mixed =
        [&short[..batch_frame(&short).start], &long[batch_frame(&long).start..]].concat();
    assert_eq!(look(&mixed), Look::Readable);
    assert_eq!(rows(&mixed), vec!["ab", "cde"]);
    assert_eq!(batch_row_count(&mixed).unwrap(), 2);
}

#[test]
fn rows_without_columns_are_counted() {
    let schema = Arc::new(arrow::datatypes::Schema::empty());
    let options = RecordBatchOptions::new().with_row_count(Some(7));
    let batch = RecordBatch::try_new_with_options(schema, vec![], &options).unwrap();
    let ipc = written(&batch, None);
    assert_eq!(batch_row_count(&ipc).unwrap(), 7);
    assert_eq!(read_answer(&ipc).unwrap(), Some(7));
    assert_eq!(parse_text_rows(&ipc).unwrap_err().message, "RecordBatch has no columns");
}

#[test]
fn the_header_names_the_compression() {
    let items: Vec<String> = (0..200).map(|_| "the same text again".to_string()).collect();
    let plain = create_arrow_ipc(&items, COMPRESSION_NONE).unwrap();
    let packed = create_arrow_ipc(&items, COMPRESSION_LZ4).unwrap();
    assert_eq!(codec(&plain), None);
    assert_eq!(codec(&packed), Some(CompressionType::LZ4_FRAME));
    assert!(packed.len() < plain.len());
    assert_eq!(rows(&packed), items);

    // A buffer that claims far more than its bytes can stand for.
    let at = batch_frame(&packed).body.start + buffers(&packed)[2].0 as usize;
    let mut greedy = packed.clone();
    greedy[at..at + 8].copy_from_slice(&(1i64 << 60).to_le_bytes());
    refused(&greedy);
}

#[test]
fn dictionaries_keep_to_their_messages_too() {
    let words: DictionaryArray<Int32Type> = vec!["aa", "b", "aa"].into_iter().collect();
    let columns = vec![("text", texts(&["x", "y", "z"])), ("words", Arc::new(words) as ArrayRef)];
    let ipc = stream(columns);
    assert_eq!(rows(&ipc), vec!["x", "y", "z"]);
    let list = frames(&ipc);
    assert_eq!(list[1].kind, MessageHeader::DictionaryBatch);
    // The offsets of the two words take twelve bytes; now they are said to take more.
    let mut spoiled = ipc.clone();
    let size = 12i64.to_le_bytes();
    let meta = list[1].meta.clone();
    let at = meta.start + ipc[meta].windows(8).rposition(|w| w == size).unwrap();
    spoiled[at..at + 8].copy_from_slice(&(1i64 << 40).to_le_bytes());
    refused(&spoiled);
    refused(&spoiled[..list[2].start]);
    // Without a batch there is nothing to answer, and without a dictionary no word.
    let cut = &ipc[..list[2].start];
    assert_eq!(look(cut), Look::Readable);
    assert_eq!(parse_text_rows(cut).unwrap_err().message, "No RecordBatch in stream");
    malformed(&[&ipc[..list[1].start], &ipc[list[2].start..]].concat());
}

/// The stream with the type of its first field, a struct, changed to a union that
/// numbers its fields by itself.
fn with_union(ipc: &[u8]) -> Vec<u8> {
    let meta = frames(ipc)[0].meta.clone();
    let is_union = |ipc: &[u8]| {
        let message = root_as_message(&ipc[meta.clone()]).ok()?;
        Some(message.header_as_schema()?.fields()?.get(0).type_type() == Type::Union)
    };
    let changed = |at: usize| {
        let mut ipc = ipc.to_vec();
        ipc[at] = Type::Union.0;
        ipc
    };
    meta.clone()
        .filter(|at| ipc[*at] == Type::Struct_.0)
        .map(changed)
        .find(|ipc| is_union(ipc) == Some(true))
        .unwrap()
}

#[test]
fn unions_with_too_many_fields_are_refused() {
    let record = |n: usize| {
        let columns = (0..n).map(|i| {
            let column: ArrayRef = Arc::new(Int32Array::from(vec![1]));
            (Arc::new(Field::new(format!("f{i}"), DataType::Int32, true)), column)
        });
        stream(vec![("record", Arc::new(StructArray::from(columns.collect::<Vec<_>>())))])
    };
    let union = with_union(&record(129));
    assert_eq!(look(&union), Look::BadSchema);
    let status = parse_text_rows(&union).unwrap_err();
    assert_eq!(status.code, Code::InvalidArgument);
    assert_eq!(status.message, "Invalid Arrow IPC: a union has too many fields");
    assert!(matches!(batch_row_count(&union), Err(ReadFault::NotIpc(_))));
    let status = parse_text_rows(&record(129)).unwrap_err();
    assert_eq!(status.message, "First column must be StringArray");
    // As many as can be numbered are no fault of the schema.
    assert_ne!(look(&with_union(&record(128))), Look::BadSchema);
}

#[test]
fn other_compressions_are_read() {
    let items = vec!["the same text again and again"; 20_000];
    let batch = RecordBatch::try_from_iter(vec![("text", texts(&items))]).unwrap();
    for kind in [CompressionType::ZSTD, CompressionType::LZ4_FRAME] {
        let ipc = written(&batch, Some(kind));
        assert!(ipc.len() < 120_000);
        assert_eq!(codec(&ipc), Some(kind));
        assert_eq!(rows(&ipc), items);
        assert_eq!(batch_row_count(&ipc).unwrap(), 20_000);
        let ipc = written(&RecordBatch::try_from_iter(all_kinds()).unwrap(), Some(kind));
        assert_eq!(rows(&ipc), vec!["ab", "cde"]);
    }
}

#[test]
fn lists_of_nothing_are_read() {
    let nothing = StructArray::new_empty_fields(6, None);
    let field = Arc::new(Field::new("item", nothing.data_type().clone(), false));
    let lists: ArrayRef =
        Arc::new(FixedSizeListArray::try_new(field, 3, Arc::new(nothing), None).unwrap());
    let ipc = stream(vec![("text", texts(&["ab", "cde"])), ("lists", lists)]);
    assert_eq!(rows(&ipc), vec!["ab", "cde"]);
}

/// Every kind inside one column.
fn all_inside() -> ArrayRef {
    let fields = all_kinds().into_iter().map(|(name, column)| {
        (Arc::new(Field::new(name, column.data_type().clone(), true)), column)
    });
    Arc::new(StructArray::from(fields.collect::<Vec<_>>()))
}

#[test]
fn kinds_inside_others_are_read() {
    let ipc = stream(vec![("text", texts(&["ab", "cde"])), ("all", all_inside())]);
    assert_eq!(rows(&ipc), vec!["ab", "cde"]);
    assert_eq!(batch_row_count(&ipc).unwrap(), 2);
    // The marks of the outer column, and the bytes of the text inside it.
    refused(&with_buffer(&ipc, 3, (0, 1 << 40)));
    let (from, len) = buffers(&ipc)[6];
    assert_eq!(len, 5);
    refused(&with_buffer(&ipc, 6, (from, 1 << 40)));
}

/// Read each stream that differs from this one in a single byte, as `put` changes it.
fn spoil(ipc: &[u8], step: usize, put: fn(u8) -> u8) {
    for at in (0..ipc.len()).step_by(step) {
        let mut changed = ipc.to_vec();
        changed[at] = put(ipc[at]);
        if let Ok(rows) = parse_text_rows(&changed) {
            assert_eq!(batch_row_count(&changed).unwrap(), rows.len());
        }
    }
}

#[test]
fn spoiled_streams_are_answered() {
    for (name, column) in all_kinds() {
        let ipc = stream(vec![(name, column)]);
        spoil(&ipc, 1, |byte| byte.wrapping_add(1));
        spoil(&ipc, 2, |_| 0x80);
    }
}

#[test]
fn spoiled_compressed_streams_are_answered() {
    for (name, column) in all_kinds() {
        let batch = RecordBatch::try_from_iter(vec![(name, column)]).unwrap();
        let ipc = written(&batch, Some(CompressionType::LZ4_FRAME));
        spoil(&ipc, 2, |byte| byte ^ 1);
        spoil(&ipc, 3, |_| 0x7f);
    }
}
