//! The measuring client.

use arrow::array::{Array, StringArray};
use arrow::ipc::reader::StreamReader;
use std::io::Cursor;
use tei_manager::bench::{
    answered_rows, arrow_request, channel_plan, chunk_end, generate_test_texts, message_size,
    read_answer, standard_request, BenchMode, BenchTally, ChannelPlan,
};
use tei_manager::grpc::arrow_batch::{
    batch_row_count, create_arrow_ipc as write_texts, parse_text_rows, ReadFault, COMPRESSION_LZ4,
    COMPRESSION_NONE,
};
use tei_manager::grpc::request::Routing;

fn create_arrow_ipc(texts: &[String]) -> Result<Vec<u8>, String> {
    write_texts(&texts.to_vec(), COMPRESSION_LZ4).map_err(|s| s.message)
}

#[test]
fn test_generate_test_texts_count() {
    let texts = generate_test_texts(100);
    assert_eq!(texts.len(), 100);
}

#[test]
fn test_generate_test_texts_empty() {
    let texts = generate_test_texts(0);
    assert!(texts.is_empty());
}

#[test]
fn test_generate_test_texts_content_variety() {
    let texts = generate_test_texts(30);

    // Check that texts contain expected patterns
    assert!(texts.iter().any(|t| t.contains("quick brown fox")));
    assert!(texts.iter().any(|t| t.contains("Machine learning")));
    assert!(texts.iter().any(|t| t.contains("Embedding vectors")));

    // Check that some texts have additional context (every 3rd)
    let with_context = texts
        .iter()
        .filter(|t| t.contains("additional context"))
        .count();
    assert_eq!(with_context, 10); // 0, 3, 6, 9, 12, 15, 18, 21, 24, 27
}

#[test]
fn test_generate_test_texts_sample_numbers() {
    let texts = generate_test_texts(5);

    assert!(texts[0].contains("sample 1"));
    assert!(texts[1].contains("sample 2"));
    assert!(texts[2].contains("sample 3"));
    assert!(texts[3].contains("sample 4"));
    assert!(texts[4].contains("sample 5"));
}

#[test]
fn texts_are_made_as_told() {
    let texts = generate_test_texts(11);
    assert_eq!(
        texts[0],
        "The quick brown fox jumps over the lazy dog - sample 1 with additional context for testing variable length inputs"
    );
    assert_eq!(
        texts[1],
        "Machine learning models can process natural language efficiently - sample 2"
    );
    assert_eq!(
        texts[9],
        "Attention mechanisms help models focus on relevant information - sample 10 with additional context for testing variable length inputs"
    );
    assert_eq!(texts[10], "The quick brown fox jumps over the lazy dog - sample 11");
}

#[test]
fn test_create_arrow_ipc_single_text() {
    let texts = vec!["Hello, world!".to_string()];
    let ipc_bytes = create_arrow_ipc(&texts).expect("Should create Arrow IPC");

    // Verify we can read it back
    let cursor = Cursor::new(ipc_bytes);
    let mut reader = StreamReader::try_new(cursor, None).expect("Should create reader");

    let batch = reader
        .next()
        .expect("Should have batch")
        .expect("Batch should be valid");
    assert_eq!(batch.num_rows(), 1);
    assert_eq!(batch.num_columns(), 1);

    let text_col = batch
        .column(0)
        .as_any()
        .downcast_ref::<StringArray>()
        .expect("Should be StringArray");
    assert_eq!(text_col.value(0), "Hello, world!");
}

#[test]
fn test_create_arrow_ipc_multiple_texts() {
    let texts = vec![
        "First text".to_string(),
        "Second text".to_string(),
        "Third text".to_string(),
    ];
    let ipc_bytes = create_arrow_ipc(&texts).expect("Should create Arrow IPC");

    let cursor = Cursor::new(ipc_bytes);
    let mut reader = StreamReader::try_new(cursor, None).expect("Should create reader");

    let batch = reader
        .next()
        .expect("Should have batch")
        .expect("Batch should be valid");
    assert_eq!(batch.num_rows(), 3);

    let text_col = batch
        .column(0)
        .as_any()
        .downcast_ref::<StringArray>()
        .expect("Should be StringArray");
    assert_eq!(text_col.value(0), "First text");
    assert_eq!(text_col.value(1), "Second text");
    assert_eq!(text_col.value(2), "Third text");
}

#[test]
fn test_create_arrow_ipc_empty() {
    let texts: Vec<String> = vec![];
    let ipc_bytes = create_arrow_ipc(&texts).expect("Should create Arrow IPC");

    let cursor = Cursor::new(ipc_bytes);
    let mut reader = StreamReader::try_new(cursor, None).expect("Should create reader");

    let batch = reader
        .next()
        .expect("Should have batch")
        .expect("Batch should be valid");
    assert_eq!(batch.num_rows(), 0);
}

#[test]
fn test_create_arrow_ipc_large_batch() {
    let texts: Vec<String> = (0..1000).map(|i| format!("Text number {}", i)).collect();
    let ipc_bytes = create_arrow_ipc(&texts).expect("Should create Arrow IPC");

    let cursor = Cursor::new(ipc_bytes);
    let mut reader = StreamReader::try_new(cursor, None).expect("Should create reader");

    let batch = reader
        .next()
        .expect("Should have batch")
        .expect("Batch should be valid");
    assert_eq!(batch.num_rows(), 1000);

    let text_col = batch
        .column(0)
        .as_any()
        .downcast_ref::<StringArray>()
        .expect("Should be StringArray");
    assert_eq!(text_col.value(0), "Text number 0");
    assert_eq!(text_col.value(999), "Text number 999");
}

#[test]
fn test_create_arrow_ipc_unicode() {
    let texts = vec![
        "Hello 世界".to_string(),
        "Привет мир".to_string(),
        "🚀 Rocket".to_string(),
    ];
    let ipc_bytes = create_arrow_ipc(&texts).expect("Should create Arrow IPC");

    let cursor = Cursor::new(ipc_bytes);
    let mut reader = StreamReader::try_new(cursor, None).expect("Should create reader");

    let batch = reader
        .next()
        .expect("Should have batch")
        .expect("Batch should be valid");
    assert_eq!(batch.num_rows(), 3);

    let text_col = batch
        .column(0)
        .as_any()
        .downcast_ref::<StringArray>()
        .expect("Should be StringArray");
    assert_eq!(text_col.value(0), "Hello 世界");
    assert_eq!(text_col.value(1), "Привет мир");
    assert_eq!(text_col.value(2), "🚀 Rocket");
}

#[test]
fn test_create_arrow_ipc_compression() {
    // Create two batches and verify compression is working by checking size
    let texts: Vec<String> = (0..100)
        .map(|_| "This is a repeated text that should compress well".to_string())
        .collect();
    let ipc_bytes = create_arrow_ipc(&texts).expect("Should create Arrow IPC");

    // With LZ4 compression, repeated data should compress significantly
    // Raw size would be ~4900 bytes (49 chars * 100), compressed should be much smaller
    let raw_size: usize = texts.iter().map(|t| t.len()).sum();
    assert!(
        ipc_bytes.len() < raw_size,
        "Compressed size {} should be less than raw size {}",
        ipc_bytes.len(),
        raw_size
    );
}

#[test]
fn payloads_read_back() {
    let texts = vec!["a".to_string(), "".to_string(), "ü".to_string()];
    for compression in [COMPRESSION_NONE, COMPRESSION_LZ4] {
        let ipc = write_texts(&texts, compression).unwrap();
        let rows = parse_text_rows(&ipc).unwrap();
        let expected: Vec<Option<String>> = texts.iter().cloned().map(Some).collect();
        assert_eq!(rows, expected);
        assert_eq!(batch_row_count(&ipc).unwrap(), 3);
        assert_eq!(read_answer(&ipc).unwrap(), Some(3));
    }
    let refused = write_texts(&texts, 9).unwrap_err();
    assert_eq!(refused.message, "unknown compression value 9");
}

#[test]
fn answers_that_cannot_be_read_are_told_apart() {
    assert!(matches!(read_answer(b"nonsense"), Err(ReadFault::NotIpc(_))));
    assert_eq!(answered_rows(Ok(4)).unwrap(), Some(4));
    assert_eq!(answered_rows(Err(ReadFault::NoBatch)).unwrap(), None);
    assert!(answered_rows(Err(ReadFault::Unreadable("x".to_string()))).is_err());
}

#[test]
fn requests_name_their_instance() {
    let (target, request) = standard_request("inst", "hello".to_string());
    assert_eq!(target.routing, Some(Routing::InstanceName("inst".to_string())));
    assert_eq!(request.inputs, "hello");
    assert!(request.truncate);
    assert_eq!(request.normalize, Some(true));

    let texts = vec!["x".to_string(), "y".to_string()];
    let request = arrow_request("inst", &texts, true).unwrap();
    assert_eq!(
        request.target.unwrap().routing,
        Some(Routing::InstanceName("inst".to_string()))
    );
    assert!(request.truncate && request.normalize && request.noop);
    assert_eq!(
        parse_text_rows(&request.arrow_ipc).unwrap(),
        vec![Some("x".to_string()), Some("y".to_string())]
    );
}

#[test]
fn connections_are_planned() {
    assert_eq!(channel_plan("http://h:1", true, false), Ok(ChannelPlan::Plain));
    assert_eq!(channel_plan("https://h:1", true, true), Ok(ChannelPlan::MutualTls));
    assert_eq!(channel_plan("https://h:1", false, false), Ok(ChannelPlan::ServerTls));
    let refused = Err("Both --cert and --key must be provided for mTLS".to_string());
    assert_eq!(channel_plan("https://h:1", true, false), refused);
    assert_eq!(channel_plan("https://h:1", false, true), refused);
    assert_eq!(channel_plan("HTTPS://h:1", false, true), Ok(ChannelPlan::Plain));
    assert_eq!(message_size(100), Some(104_857_600));
    assert_eq!(message_size(usize::MAX), None);
    assert_eq!(BenchMode::Standard.name(), "standard");
    assert_eq!(BenchMode::Arrow.name(), "arrow");
}

#[test]
fn runs_are_tallied() {
    let mut tally = BenchTally::new();
    assert!(!tally.on_text(true));
    assert!(tally.on_text(false));
    assert!(!tally.on_text(false));
    assert_eq!((tally.num_requests, tally.successful, tally.failed), (3, 1, 2));
    assert!(!tally.text_progress());

    let mut tally = BenchTally::new();
    let (total, size) = (1050, 100);
    let mut start = 0;
    let mut told = 0;
    while start < total {
        let end = chunk_end(start, size, total);
        tally.on_batch(end - start, if start == 0 { None } else { Some(end - start) });
        if tally.batch_progress() {
            told += 1;
        }
        start = end;
    }
    assert_eq!((tally.num_requests, tally.successful, tally.failed), (11, 950, 100));
    assert_eq!(told, 1);
    tally.on_batch(0, Some(950));
    assert!(tally.text_progress());
    assert_eq!(chunk_end(1, usize::MAX, 5), 5);
}

#[test]
fn texts_are_numbered_and_differ() {
    let texts = generate_test_texts(200);
    for (i, text) in texts.iter().enumerate() {
        assert!(text.contains(&format!("sample {}", i + 1)), "{text}");
        assert_eq!(text.contains("additional context"), i % 3 == 0, "{text}");
        assert!(texts[..i].iter().all(|other| other != text), "{text}");
    }
    assert_eq!(generate_test_texts(37), texts[..37].to_vec());
}

#[test]
fn chunks_cover_all_texts() {
    for (total, size) in [(10, 3), (9, 3), (1, 5), (0, 2), (7, 1)] {
        let texts = generate_test_texts(total);
        let (mut start, mut taken, mut chunks) = (0, Vec::new(), 0);
        while start < total {
            let end = chunk_end(start, size, total);
            assert!(start < end && end - start <= size);
            taken.extend(texts[start..end].to_vec());
            (start, chunks) = (end, chunks + 1);
        }
        assert_eq!(taken, texts);
        assert_eq!(chunks, total.div_ceil(size));
    }
}
