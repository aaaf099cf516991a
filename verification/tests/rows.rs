//! Embedding rows one by one behind a backend that can refuse some.

use tei_manager::grpc::rows::{noop_dense_rows, noop_sparse_rows, EmbedRows, RowOutcomes};
use tei_manager::grpc::status::{Code, Status};

const NULL_INPUT_ERROR: &str = "input text is null";

/// A backend whose streams yield what a script says, regardless of how many
/// requests they received. The number of requests on each stream comes back too.
fn run_rows(
    rows: Vec<Option<&str>>,
    script: Vec<Vec<Result<u32, Status>>>,
) -> (Result<RowOutcomes<u32>, Status>, Vec<usize>) {
    let rows = rows.into_iter().map(|r| r.map(|s| s.to_string())).collect();
    let mut job = EmbedRows::new(rows);
    let mut script = script.into_iter();
    let mut sent = Vec::new();
    while let Some(texts) = job.open_stream() {
        sent.push(texts.len());
        let mut failure = None;
        let stream = script.next().expect("backend opened more streams than scripted");
        for item in stream {
            match item {
                Ok(res) => {
                    if let Err(status) = job.on_response(res) {
                        return (Err(status), sent);
                    }
                }
                Err(status) => {
                    failure = Some(status);
                    break;
                }
            }
        }
        if let Err(status) = job.on_stream_end(failure) {
            return (Err(status), sent);
        }
    }
    (Ok(job.finish()), sent)
}

fn bad(msg: &str) -> Result<u32, Status> {
    Err(Status::invalid_argument(msg.to_string()))
}

#[test]
fn test_embed_rows_all_ok_single_stream() {
    let (res, sent) = run_rows(
        vec![Some("a"), Some("b"), Some("c")],
        vec![vec![Ok(1), Ok(2), Ok(3)]],
    );
    assert_eq!(res.unwrap().rows, vec![Ok(1), Ok(2), Ok(3)]);
    assert_eq!(sent, vec![3]);
}

#[test]
fn test_embed_rows_probes_after_failure_with_buffered_ok_delivered() {
    // Stream 1 delivers row0 then fails (row1 bad). Probe row1 fails and is
    // recorded. Bulk resumes with rows 2..4.
    let (res, sent) = run_rows(
        vec![Some("a"), Some("b"), Some("c"), Some("d")],
        vec![
            vec![Ok(1), bad("too long")],
            vec![bad("too long")],
            vec![Ok(3), Ok(4)],
        ],
    );
    let out = res.unwrap();
    assert_eq!(
        out.rows,
        vec![Ok(1), Err("too long".to_string()), Ok(3), Ok(4)]
    );
    assert_eq!(sent, vec![4, 1, 2]);
    assert_eq!(out.ok_count(), 3);
}

#[test]
fn test_embed_rows_probes_after_failure_with_buffered_ok_lost() {
    // Stream 1 fails immediately even though row0 was fine (its answer got
    // lost). Probes continue past the OK row until the bad one is found; bulk
    // resumes at row2.
    let (res, sent) = run_rows(
        vec![Some("a"), Some("b"), Some("c")],
        vec![
            vec![bad("too long")],
            vec![Ok(1)],
            vec![bad("too long")],
            vec![Ok(3)],
        ],
    );
    let out = res.unwrap();
    assert_eq!(out.rows, vec![Ok(1), Err("too long".to_string()), Ok(3)]);
    assert_eq!(sent, vec![3, 1, 1, 1]);
}

#[test]
fn test_embed_rows_consecutive_bad_rows() {
    let (res, sent) = run_rows(
        vec![Some("a"), Some("b"), Some("c")],
        vec![
            vec![bad("e1")], // bulk [a,b,c] fails
            vec![bad("e1")], // probe a: recorded
            vec![bad("e2")], // bulk [b,c] fails
            vec![bad("e2")], // probe b: recorded
            vec![Ok(3)],     // bulk [c]
        ],
    );
    let out = res.unwrap();
    assert_eq!(
        out.rows,
        vec![Err("e1".to_string()), Err("e2".to_string()), Ok(3)]
    );
    assert_eq!(sent, vec![3, 1, 2, 1, 1]);
}

#[test]
fn test_embed_rows_last_row_bad() {
    let (res, sent) = run_rows(
        vec![Some("a"), Some("b")],
        vec![vec![Ok(1), bad("e")], vec![bad("e")]],
    );
    assert_eq!(res.unwrap().rows, vec![Ok(1), Err("e".to_string())]);
    assert_eq!(sent, vec![2, 1]);
}

#[test]
fn test_embed_rows_null_inputs_never_sent() {
    let (res, sent) = run_rows(vec![None, Some("b"), None], vec![vec![Ok(2)]]);
    assert_eq!(
        res.unwrap().rows,
        vec![
            Err(NULL_INPUT_ERROR.to_string()),
            Ok(2),
            Err(NULL_INPUT_ERROR.to_string())
        ]
    );
    assert_eq!(sent, vec![1]);
}

#[test]
fn test_embed_rows_all_null_opens_no_stream() {
    let (res, sent) = run_rows(vec![None, None], vec![]);
    assert_eq!(res.unwrap().ok_count(), 0);
    assert!(sent.is_empty());
}

#[test]
fn test_embed_rows_backend_error_aborts_batch() {
    let (res, _) = run_rows(
        vec![Some("a"), Some("b"), Some("c")],
        vec![vec![Ok(1), Err(Status::new(Code::Unavailable, "gpu gone".to_string()))]],
    );
    let err = res.unwrap_err();
    assert_eq!(err.code, Code::Unavailable);
    assert!(err.message.contains("after 1 of 3 rows"), "{}", err.message);
    assert!(err.message.contains("gpu gone"));
}

#[test]
fn test_embed_rows_short_stream_is_internal_error() {
    let (res, _) = run_rows(vec![Some("a"), Some("b")], vec![vec![Ok(1)]]);
    let err = res.unwrap_err();
    assert_eq!(err.code, Code::Internal);
    assert!(err.message.contains("expected 2 responses, got 1"));
}

#[test]
fn test_embed_rows_extra_responses_is_internal_error() {
    let (res, _) = run_rows(vec![Some("a")], vec![vec![Ok(1), Ok(2)]]);
    let err = res.unwrap_err();
    assert_eq!(err.code, Code::Internal);
    assert!(err.message.contains("more than 1 responses"));
}

#[test]
fn test_embed_rows_open_failure_propagates_code() {
    let mut job: EmbedRows<u32> = EmbedRows::new(vec![Some("a".to_string())]);
    assert_eq!(job.open_stream(), Some(vec!["a".to_string()]));
    let refused = Status::new(Code::Unavailable, "connect refused".to_string());
    let err = job.on_open_failed(&refused);
    assert_eq!(err.code, Code::Unavailable);
    assert!(err.message.starts_with("backend stream failed"));
}

/// Whatever rows a backend refuses, every row ends with its own result, and there
/// are at most two streams for each text.
#[test]
fn every_row_gets_its_own_result() {
    for pattern in 0u32..64 {
        let refused = |i: usize| pattern & (1 << i) != 0;
        let rows: Vec<Option<String>> = (0..6).map(|i| Some(i.to_string())).collect();
        let mut job: EmbedRows<u32> = EmbedRows::new(rows);
        let mut streams = 0;
        while let Some(texts) = job.open_stream() {
            streams += 1;
            let mut failure = None;
            for text in texts {
                let i: usize = text.parse().unwrap();
                if refused(i) {
                    failure = Some(Status::invalid_argument(format!("no {i}")));
                    break;
                }
                job.on_response(i as u32).unwrap();
            }
            job.on_stream_end(failure).unwrap();
        }
        let out = job.finish();
        assert!(streams <= 12);
        for (i, row) in out.rows.iter().enumerate() {
            if refused(i) {
                assert_eq!(row, &Err(format!("no {i}")));
            } else {
                assert_eq!(row, &Ok(i as u32));
            }
        }
    }
}

#[test]
fn made_up_rows_are_all_alike() {
    let dense = noop_dense_rows(2, 0u32);
    assert_eq!(dense.rows.len(), 2);
    assert_eq!(dense.rows[1], Ok(vec![0; 384]));
    let sparse = noop_sparse_rows(1, 4u32, 2, 1);
    assert_eq!(sparse.rows, vec![Ok(vec![(0, 4), (100, 2), (200, 1)])]);
    let rows = RowOutcomes { rows: vec![Ok(1), Err("x".to_string())] };
    assert_eq!(rows.map(|n| n + 1).rows, vec![Ok(2), Err("x".to_string())]);
    assert_eq!(RowOutcomes::noop(3, |i| i).rows, vec![Ok(0), Ok(1), Ok(2)]);
}
