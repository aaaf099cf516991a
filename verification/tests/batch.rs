//! Batches in Arrow's form.

use arrow::array::{
    Array, ArrayRef, FixedSizeListArray, Float16Array, Float32Array, LargeStringArray, ListArray,
    StringArray, StringViewArray, StructArray, UInt32Array,
};
use arrow::datatypes::{DataType, Field, Schema};
use arrow::ipc::reader::StreamReader;
use arrow::ipc::writer::StreamWriter;
use arrow::record_batch::{RecordBatch, RecordBatchOptions};
use std::io::Cursor;
use std::sync::Arc;
use tei_manager::config::ArrowOutputDtype;
use tei_manager::grpc::arrow_batch::{
    column_rows, dense_batch, dense_layout, parse_text_rows, read_failed, serialize, sparse_batch,
    sparse_layout, use_lz4, validity, write_failed, ReadFault, WriteFault, WriteStep,
    COMPRESSION_LZ4, COMPRESSION_NONE,
};
use tei_manager::grpc::multiplexer::{dense_payload, sparse_payload};
use tei_manager::grpc::rows::RowOutcomes;
use tei_manager::grpc::status::Code;

fn bits(values: &[f32]) -> Vec<u32> {
    values.iter().map(|v| v.to_bits()).collect()
}

fn decode(ipc: &[u8]) -> RecordBatch {
    let mut reader = StreamReader::try_new(Cursor::new(ipc), None).unwrap();
    reader.next().unwrap().unwrap()
}

fn dense(outcome: &RowOutcomes<Vec<u32>>, dtype: ArrowOutputDtype) -> RecordBatch {
    let batch = dense_batch(outcome, dtype).unwrap();
    decode(&serialize(&batch, COMPRESSION_NONE).unwrap())
}

fn dense_outcome() -> RowOutcomes<Vec<u32>> {
    RowOutcomes {
        rows: vec![
            Ok(bits(&[1.0, 2.0])),
            Err("bad row".to_string()),
            Ok(bits(&[3.0, 4.0])),
        ],
    }
}

fn vectors(batch: &RecordBatch) -> &FixedSizeListArray {
    batch.column(0).as_any().downcast_ref::<FixedSizeListArray>().unwrap()
}

#[test]
fn test_dense_batch_aligns_rows_and_errors() {
    let batch = dense(&dense_outcome(), ArrowOutputDtype::F32);
    assert_eq!(batch.num_rows(), 3);
    assert_eq!(batch.schema().field(0).name(), "embeddings");
    assert_eq!(batch.schema().field(1).name(), "error");

    let emb = vectors(&batch);
    assert_eq!(emb.value_length(), 2);
    assert!(emb.is_valid(0));
    assert!(emb.is_null(1));
    assert!(emb.is_valid(2));
    let row2 = emb.value(2);
    let row2 = row2.as_any().downcast_ref::<Float32Array>().unwrap();
    assert_eq!(row2.values(), &[3.0, 4.0]);

    let err = batch.column(1).as_any().downcast_ref::<StringArray>().unwrap();
    assert!(err.is_null(0));
    assert_eq!(err.value(1), "bad row");
    assert!(err.is_null(2));
}

#[test]
fn test_dense_batch_all_ok_has_no_null_buffer() {
    let outcome = RowOutcomes { rows: vec![Ok(bits(&[1.0])), Ok(bits(&[2.0]))] };
    let batch = dense(&outcome, ArrowOutputDtype::F32);
    assert_eq!(batch.column(0).null_count(), 0);
    assert_eq!(batch.column(1).null_count(), 2);
}

#[test]
fn test_dense_batch_all_failed_has_zero_dim() {
    let outcome: RowOutcomes<Vec<u32>> =
        RowOutcomes { rows: vec![Err("x".to_string()), Err("y".to_string())] };
    let batch = dense(&outcome, ArrowOutputDtype::F32);
    assert_eq!(batch.num_rows(), 2);
    let emb = vectors(&batch);
    assert_eq!(emb.value_length(), 0);
    assert_eq!(emb.null_count(), 2);
}

#[test]
fn test_dense_batch_f16_round_trips_values() {
    let batch = dense(&dense_outcome(), ArrowOutputDtype::F16);
    let emb = vectors(&batch);
    assert_eq!(emb.value_type(), DataType::Float16);
    assert!(emb.is_null(1));
    let row2 = emb.value(2);
    let row2 = row2.as_any().downcast_ref::<Float16Array>().unwrap();
    assert_eq!(row2.value(0).to_f32(), 3.0);
    assert_eq!(row2.value(1).to_f32(), 4.0);
    let f32_batch = dense(&dense_outcome(), ArrowOutputDtype::F32);
    let size = |b: &RecordBatch| vectors(b).values().to_data().buffers()[0].len();
    assert!(size(&batch) < size(&f32_batch));
}

#[test]
fn half_precision_rounds() {
    let outcome = RowOutcomes { rows: vec![Ok(bits(&[0.1, 65520.0, -1.5]))] };
    let batch = dense(&outcome, ArrowOutputDtype::F16);
    let row = vectors(&batch).value(0);
    let row = row.as_any().downcast_ref::<Float16Array>().unwrap();
    assert_eq!(row.value(0).to_bits(), 0x2e66);
    assert_eq!(row.value(1).to_f32(), f32::INFINITY);
    assert_eq!(row.value(2).to_f32(), -1.5);
}

#[test]
fn test_dense_batch_rejects_mixed_dimensions() {
    let outcome = RowOutcomes { rows: vec![Ok(bits(&[1.0, 2.0])), Ok(bits(&[3.0]))] };
    let err = dense_batch(&outcome, ArrowOutputDtype::F32).unwrap_err();
    assert_eq!(err.code, Code::Internal);
    assert!(err.message.contains("inconsistent embedding dimensions"));
    assert_eq!(err.message, "inconsistent embedding dimensions: 1 vs 2");
}

#[test]
fn empty_vectors_make_no_batch() {
    let outcome: RowOutcomes<Vec<u32>> = RowOutcomes { rows: vec![Ok(vec![]), Ok(vec![])] };
    let err = dense_batch(&outcome, ArrowOutputDtype::F32).unwrap_err();
    assert_eq!(err.code, Code::Internal);
    assert!(err.message.starts_with("Failed to create RecordBatch: "), "{}", err.message);
    let nothing: RowOutcomes<Vec<u32>> = RowOutcomes { rows: vec![] };
    assert_eq!(dense(&nothing, ArrowOutputDtype::F32).num_rows(), 0);
}

#[test]
fn test_sparse_batch_aligns_rows_and_errors() {
    let entry = |i: u32, v: f32| (i, v.to_bits());
    let outcome: RowOutcomes<Vec<(u32, u32)>> = RowOutcomes {
        rows: vec![
            Ok(vec![entry(1, 0.5), entry(7, 0.25)]),
            Err("nope".to_string()),
            Ok(vec![]),
            Ok(vec![entry(3, 1.0)]),
        ],
    };
    let batch = sparse_batch(&outcome).unwrap();
    let batch = decode(&serialize(&batch, COMPRESSION_LZ4).unwrap());
    assert_eq!(batch.num_rows(), 4);
    let list = batch.column(0).as_any().downcast_ref::<ListArray>().unwrap();
    assert_eq!(list.value_offsets(), &[0, 2, 2, 2, 3]);
    assert!(list.is_null(1));
    assert!(list.is_valid(2)); // empty but present
    let err = batch.column(1).as_any().downcast_ref::<StringArray>().unwrap();
    assert_eq!(err.value(1), "nope");
    assert_eq!(err.null_count(), 3);

    assert_eq!(batch.schema().field(0).name(), "sparse_embeddings");
    let entries = list.values().as_any().downcast_ref::<StructArray>().unwrap();
    assert_eq!(entries.column_names(), vec!["index", "value"]);
    let indices = entries.column(0).as_any().downcast_ref::<UInt32Array>().unwrap();
    let values = entries.column(1).as_any().downcast_ref::<Float32Array>().unwrap();
    assert_eq!(indices.values(), &[1, 7, 3]);
    assert_eq!(values.values(), &[0.5, 0.25, 1.0]);
}

fn ipc_from_array(array: ArrayRef, name: &str) -> Vec<u8> {
    let schema =
        Arc::new(Schema::new(vec![Field::new(name, array.data_type().clone(), true)]));
    let batch = RecordBatch::try_new(schema.clone(), vec![array]).unwrap();
    let mut buf = Vec::new();
    let mut w = StreamWriter::try_new(&mut buf, &schema).unwrap();
    w.write(&batch).unwrap();
    w.finish().unwrap();
    drop(w);
    buf
}

#[test]
fn test_parse_text_rows_preserves_nulls() {
    let ipc = ipc_from_array(
        Arc::new(StringArray::from(vec![Some("a"), None, Some("c")])),
        "text",
    );
    let rows = parse_text_rows(&ipc).unwrap();
    assert_eq!(
        rows,
        vec![Some("a".to_string()), None, Some("c".to_string())]
    );
}

#[test]
fn test_parse_text_rows_accepts_large_and_view_utf8() {
    let ipc = ipc_from_array(Arc::new(LargeStringArray::from(vec!["x", "y"])), "text");
    assert_eq!(parse_text_rows(&ipc).unwrap().len(), 2);
    let ipc = ipc_from_array(Arc::new(StringViewArray::from(vec!["x"])), "text");
    assert_eq!(parse_text_rows(&ipc).unwrap().len(), 1);
    assert_eq!(parse_text_rows(&ipc).unwrap(), vec![Some("x".to_string())]);
}

#[test]
fn test_parse_text_rows_rejects_no_columns() {
    let schema = Arc::new(Schema::empty());
    let mut buf = Vec::new();
    let mut w = StreamWriter::try_new(&mut buf, &schema).unwrap();
    let batch = RecordBatch::try_new_with_options(
        schema.clone(),
        vec![],
        &RecordBatchOptions::new().with_row_count(Some(0)),
    )
    .unwrap();
    w.write(&batch).unwrap();
    w.finish().unwrap();
    drop(w);
    let err = parse_text_rows(&buf).unwrap_err();
    assert_eq!(err.code, Code::InvalidArgument);
    assert!(err.message.contains("no columns"));
}

#[test]
fn other_payloads_are_told_apart() {
    let err = parse_text_rows(b"nonsense").unwrap_err();
    assert_eq!(err.code, Code::InvalidArgument);
    assert!(err.message.starts_with("Invalid Arrow IPC: "), "{}", err.message);
    assert!(parse_text_rows(&[]).is_err());

    let ipc = ipc_from_array(Arc::new(UInt32Array::from(vec![1, 2])), "text");
    let err = parse_text_rows(&ipc).unwrap_err();
    assert_eq!(err.message, "First column must be StringArray");

    let schema = Arc::new(Schema::new(vec![Field::new("text", DataType::Utf8, true)]));
    let mut buf = Vec::new();
    let mut w = StreamWriter::try_new(&mut buf, &schema).unwrap();
    w.finish().unwrap();
    drop(w);
    assert_eq!(parse_text_rows(&buf).unwrap_err().message, "No RecordBatch in stream");

    assert_eq!(
        read_failed(ReadFault::Unreadable("x".to_string())).message,
        "Failed to read RecordBatch: x"
    );
    assert_eq!(column_rows(Some(Some(vec![None]))).unwrap(), vec![None]);
    assert!(column_rows(Some(None)).is_err());
    assert!(column_rows(None).is_err());
}

#[test]
fn test_serialize_compression_modes() {
    let batch = dense_batch(&dense_outcome(), ArrowOutputDtype::F32).unwrap();
    let plain = serialize(&batch, COMPRESSION_NONE).unwrap();
    let lz4 = serialize(&batch, COMPRESSION_LZ4).unwrap();
    for buf in [&plain, &lz4] {
        let rt = decode(buf);
        assert_eq!(rt.num_rows(), 3);
        assert_eq!(rt.column(0).null_count(), 1);
    }
    let err = serialize(&batch, 42).unwrap_err();
    assert_eq!(err.code, Code::InvalidArgument);
    assert_eq!(err.message, "unknown compression value 42");
    assert!(use_lz4(COMPRESSION_LZ4).unwrap());
    assert!(!use_lz4(COMPRESSION_NONE).unwrap());
    assert!(use_lz4(-1).is_err());
}

#[test]
fn write_failures_name_their_step() {
    let say = |step: WriteStep| write_failed(&WriteFault { step, error: "x".to_string() }).message;
    assert_eq!(say(WriteStep::Options), "Failed to set compression: x");
    assert_eq!(say(WriteStep::Writer), "Failed to create IPC writer: x");
    assert_eq!(say(WriteStep::Batch), "Failed to write RecordBatch: x");
    assert_eq!(say(WriteStep::Finish), "Failed to finish IPC writer: x");
}

#[test]
fn rows_are_laid_out_in_order() {
    let outcome = RowOutcomes {
        rows: vec![Err("e".to_string()), Ok(vec![1, 2]), Ok(vec![3, 4])],
    };
    let layout = dense_layout(&outcome, 9).unwrap();
    assert_eq!(layout.dim, 2);
    assert_eq!(layout.flat, vec![9, 9, 1, 2, 3, 4]);
    assert_eq!(layout.validity, Some(vec![false, true, true]));
    assert_eq!(layout.errors, vec![Some("e".to_string()), None, None]);

    let outcome = RowOutcomes {
        rows: vec![Ok(vec![(5, 'a')]), Err("e".to_string()), Ok(vec![(6, 'b'), (7, 'c')])],
    };
    let layout = sparse_layout(&outcome);
    assert_eq!(layout.offsets, vec![0, 1, 1, 3]);
    assert_eq!(layout.indices, vec![5, 6, 7]);
    assert_eq!(layout.values, vec!['a', 'b', 'c']);
    let fine: RowOutcomes<u8> = RowOutcomes { rows: vec![Ok(1)] };
    assert_eq!(validity(&fine), None);
}

#[test]
fn payloads_carry_the_rows() {
    let ipc = dense_payload(&dense_outcome(), ArrowOutputDtype::F32, COMPRESSION_LZ4).unwrap();
    assert_eq!(decode(&ipc).num_rows(), 3);
    assert!(dense_payload(&dense_outcome(), ArrowOutputDtype::F32, 5).is_err());
    let sparse = RowOutcomes { rows: vec![Ok(vec![(1, 0)]), Err("x".to_string())] };
    let ipc = sparse_payload(&sparse, COMPRESSION_NONE).unwrap();
    assert_eq!(decode(&ipc).num_rows(), 2);
    assert!(sparse_payload(&sparse, 5).is_err());
}

#[test]
fn batches_without_vectors_survive_the_wire() {
    let none: RowOutcomes<Vec<u32>> = RowOutcomes { rows: vec![] };
    let failed: RowOutcomes<Vec<u32>> =
        RowOutcomes { rows: vec![Err("x".to_string()), Err("y".to_string())] };
    for compression in [COMPRESSION_NONE, COMPRESSION_LZ4] {
        for dtype in [ArrowOutputDtype::F32, ArrowOutputDtype::F16] {
            let batch = decode(&dense_payload(&none, dtype, compression).unwrap());
            assert_eq!((batch.num_rows(), batch.num_columns()), (0, 2));

            let batch = decode(&dense_payload(&failed, dtype, compression).unwrap());
            assert_eq!(batch.num_rows(), 2);
            assert_eq!(vectors(&batch).value_length(), 0);
            assert_eq!(vectors(&batch).null_count(), 2);
            let errors = batch.column(1).as_any().downcast_ref::<StringArray>().unwrap();
            assert_eq!((errors.value(0), errors.value(1)), ("x", "y"));
        }
    }
    let empty: RowOutcomes<Vec<u32>> = RowOutcomes { rows: vec![Ok(vec![]), Ok(vec![])] };
    let err = dense_payload(&empty, ArrowOutputDtype::F32, COMPRESSION_NONE).unwrap_err();
    assert_eq!(err.code, Code::Internal);
    assert!(err.message.starts_with("Failed to create RecordBatch: "));
}
