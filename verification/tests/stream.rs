//! Answering batches of a stream in order while several are under way.

use tei_manager::grpc::request::EmbedArrowRequest;
use tei_manager::grpc::status::{Code, Status};
use tei_manager::grpc::stream::{
    batch_panicked, lower_frontier, stream_error, ArrowStreamStats, StreamPipeline,
};

/// What becomes of a batch.
#[derive(Clone, Copy)]
enum BatchScript {
    /// It succeeds after so many milliseconds, with its own number.
    Done(u64),
    /// It fails after so many milliseconds.
    Fail(u64, Code, &'static str),
    /// It never ends.
    Never,
}

/// How a run went.
struct Run {
    emitted: Vec<Result<u64, Status>>,
    max_active: usize,
    finished: usize,
    cancelled: Vec<u64>,
}

/// Run the pipeline over scripted batches and a client that takes each answer at
/// once. `inbound_error` is what the inbound side ends with.
fn drive(scripts: &[BatchScript], k: usize, inbound_error: Option<&str>) -> Run {
    let mut pipeline: StreamPipeline<u64> = StreamPipeline::new(k);
    let mut arrived = 0;
    let mut now = 0;
    let mut running: Vec<(u64, u64)> = Vec::new();
    let mut run = Run { emitted: vec![], max_active: 0, finished: 0, cancelled: vec![] };
    loop {
        while pipeline.reading && pipeline.may_admit() {
            if arrived == scripts.len() {
                match inbound_error {
                    Some(e) => pipeline.inbound_failed(e),
                    None => pipeline.inbound_ended(),
                }
                break;
            }
            let seq = pipeline.accept_batch();
            let end = match scripts[arrived] {
                BatchScript::Done(delay) | BatchScript::Fail(delay, _, _) => now + delay,
                BatchScript::Never => u64::MAX,
            };
            running.push((seq, end));
            arrived += 1;
        }
        run.max_active = run.max_active.max(running.len());
        let mut progress = false;
        while let Some(head) = pipeline.take_head() {
            if head.is_ok() {
                pipeline.emitted();
            }
            run.emitted.push(head);
            progress = true;
        }
        for i in (0..running.len()).rev() {
            if pipeline.abandoned(running[i].0) {
                run.cancelled.push(running.remove(i).0);
            }
        }
        if pipeline.finished() {
            break;
        }
        if progress {
            continue;
        }
        // The next batch to end, the lowest of those that end together.
        let next = running.iter().map(|(seq, end)| (*end, *seq)).min().unwrap();
        assert_ne!(next.0, u64::MAX, "stuck");
        now = next.0;
        running.retain(|(seq, _)| *seq != next.1);
        run.finished += 1;
        let result = match scripts[next.1 as usize] {
            BatchScript::Fail(_, code, message) => Err(Status::new(code, message.to_string())),
            _ => Ok(next.1),
        };
        pipeline.on_batch_done(next.1, result);
    }
    run.cancelled.sort_unstable();
    run
}

/// The leading run of successful seqs.
fn ok_prefix(emitted: &[Result<u64, Status>]) -> Vec<u64> {
    emitted.iter().map_while(|r| r.as_ref().ok().copied()).collect()
}

#[test]
fn test_stream_pipeline_emits_in_seq_order_under_adversarial_completion() {
    // Batch i completes after (16 - i) * 10ms - the completion order is
    // the exact reverse of the request order.
    let scripts: Vec<BatchScript> = (0..16u64).map(|i| BatchScript::Done((16 - i) * 10)).collect();
    let run = drive(&scripts, 16, None);
    assert_eq!(ok_prefix(&run.emitted), (0..16).collect::<Vec<_>>());
    assert_eq!(run.emitted.len(), 16);
    assert_eq!(run.max_active, 16);
    assert!(run.cancelled.is_empty());
}

#[test]
fn test_stream_pipeline_admission_bounded_by_k_and_permit_released_on_emission() {
    let mut pipeline: StreamPipeline<u64> = StreamPipeline::new(4);
    while pipeline.may_admit() {
        pipeline.accept_batch();
    }
    // The head is stalled; batches 1-3 completed but are unemitted, so there is
    // no room: admission stops at exactly K.
    assert_eq!(pipeline.next_seq, 4);
    for seq in 1..4 {
        pipeline.on_batch_done(seq, Ok(seq));
    }
    assert!(!pipeline.may_admit());
    assert!(pipeline.take_head().is_none());
    pipeline.on_batch_done(0, Ok(0));
    assert!(!pipeline.may_admit());
    assert_eq!(pipeline.take_head().unwrap().unwrap(), 0);
    assert!(!pipeline.may_admit());
    pipeline.emitted();
    assert!(pipeline.may_admit());
    for seq in 1..4 {
        assert_eq!(pipeline.take_head().unwrap().unwrap(), seq);
        pipeline.emitted();
    }
    // Concurrency never exceeds K.
    let run = drive(&[BatchScript::Done(1); 16], 4, None);
    assert_eq!(ok_prefix(&run.emitted), (0..16).collect::<Vec<_>>());
    assert!(run.max_active <= 4);
}

#[test]
fn test_stream_pipeline_lowest_seq_failure_is_terminal() {
    // Batch 3 fails instantly, batch 1 fails much later: the terminal
    // status must still be batch 1's - batch 3's error never surfaces.
    let scripts = [
        BatchScript::Done(5),
        BatchScript::Fail(50, Code::InvalidArgument, "slow fail 1"),
        BatchScript::Done(5),
        BatchScript::Fail(0, Code::Internal, "fast fail 3"),
        BatchScript::Done(5),
    ];
    let run = drive(&scripts, 8, None);
    // batch 0 then the terminal error
    assert_eq!(run.emitted.len(), 2);
    assert_eq!(ok_prefix(&run.emitted), vec![0]);
    let err = run.emitted[1].as_ref().unwrap_err();
    assert_eq!(err.code, Code::InvalidArgument);
    assert_eq!(err.message, "slow fail 1");
}

#[test]
fn test_stream_pipeline_failure_cancels_later_batches_completes_earlier() {
    let scripts = [
        BatchScript::Done(20),
        BatchScript::Done(30),
        BatchScript::Fail(10, Code::Internal, "boom"),
        BatchScript::Never,
        BatchScript::Never,
        BatchScript::Never,
    ];
    let run = drive(&scripts, 8, None);
    // Batches before the failure run to completion and are emitted...
    assert_eq!(ok_prefix(&run.emitted), vec![0, 1]);
    assert_eq!(run.emitted.len(), 3);
    assert_eq!(run.emitted[2].as_ref().unwrap_err().message, "boom");
    // ...batches after it are abandoned.
    assert_eq!(run.cancelled, vec![3, 4, 5]);
    assert_eq!(run.finished, 3);
}

#[test]
fn test_stream_pipeline_later_lower_failure_supersedes() {
    // Batch 5 fails first, batch 3 fails later: the frontier DECREASES
    // and the terminal status is batch 3's.
    let scripts = [
        BatchScript::Done(10),
        BatchScript::Done(10),
        BatchScript::Done(10),
        BatchScript::Fail(50, Code::ResourceExhausted, "fail 3"),
        BatchScript::Never,
        BatchScript::Fail(1, Code::Internal, "fail 5"),
    ];
    let run = drive(&scripts, 8, None);
    assert_eq!(ok_prefix(&run.emitted), vec![0, 1, 2]);
    assert_eq!(run.emitted.len(), 4);
    let err = run.emitted[3].as_ref().unwrap_err();
    assert_eq!(err.code, Code::ResourceExhausted);
    assert_eq!(err.message, "fail 3");
    // Batch 4 outlived the first (higher) failure but was abandoned once
    // the frontier dropped below it.
    assert_eq!(run.cancelled, vec![4]);
}

#[test]
fn test_stream_pipeline_client_disconnect_cancels_all() {
    let mut pipeline: StreamPipeline<u64> = StreamPipeline::new(4);
    for _ in 0..4 {
        pipeline.accept_batch();
    }
    pipeline.client_gone(); // the client goes away mid-stream
    for seq in 0..4 {
        assert!(pipeline.abandoned(seq));
    }
    assert!(pipeline.finished());
    assert!(pipeline.take_head().is_none());
}

#[test]
fn test_stream_pipeline_inbound_transport_error_drains_then_fails() {
    // Two good requests, then the inbound stream errors: both admitted
    // batches drain and emit first, then the transport error terminates.
    let scripts = [BatchScript::Done(20), BatchScript::Done(10)];
    let run = drive(&scripts, 4, Some("client link broke"));
    assert_eq!(ok_prefix(&run.emitted), vec![0, 1]);
    assert_eq!(run.emitted.len(), 3);
    let err = run.emitted[2].as_ref().unwrap_err();
    assert_eq!(err.code, Code::Internal);
    assert_eq!(err.message, "Stream error: client link broke");
}

#[test]
fn test_stream_pipeline_eof_drains_in_flight() {
    // EOF with everything still in flight: full drain, clean close.
    let scripts: Vec<BatchScript> = (0..5u64).map(|i| BatchScript::Done((5 - i) * 10)).collect();
    let run = drive(&scripts, 5, None);
    assert_eq!(ok_prefix(&run.emitted), vec![0, 1, 2, 3, 4]);
    // no terminal error on clean close
    assert_eq!(run.emitted.len(), 5);
    assert_eq!(run.finished, 5);
    assert!(run.cancelled.is_empty());
}

#[test]
fn test_stream_pipeline_per_batch_timeout_fails_right_seq() {
    // An elapsed deadline is that batch's failure.
    let scripts = [
        BatchScript::Done(10),
        BatchScript::Done(10),
        BatchScript::Fail(100, Code::DeadlineExceeded, "Request timeout"),
        BatchScript::Done(10),
    ];
    let run = drive(&scripts, 4, None);
    // earlier batches delivered
    assert_eq!(ok_prefix(&run.emitted), vec![0, 1]);
    assert_eq!(run.emitted.len(), 3);
    // the timeout is charged to the right seq
    assert_eq!(run.emitted[2].as_ref().unwrap_err().code, Code::DeadlineExceeded);
}

#[test]
fn test_stream_pipeline_slow_client_bounds_admission() {
    // A client that reads nothing: the answer that is being sent holds its
    // place, so admission stalls.
    let mut pipeline: StreamPipeline<u64> = StreamPipeline::new(2);
    let mut started = 0;
    while pipeline.may_admit() {
        let seq = pipeline.accept_batch();
        pipeline.on_batch_done(seq, Ok(seq));
        started += 1;
    }
    // Batch 0 emitted, batch 1 is stuck in being sent, batch 2 was admitted in
    // batch 0's place.
    assert_eq!(pipeline.take_head().unwrap().unwrap(), 0);
    pipeline.emitted();
    assert_eq!(pipeline.take_head().unwrap().unwrap(), 1);
    while pipeline.may_admit() {
        let seq = pipeline.accept_batch();
        pipeline.on_batch_done(seq, Ok(seq));
        started += 1;
    }
    assert_eq!(started, 3);
    assert!(pipeline.take_head().is_none());
    // Once the client reads, everything goes on, still strictly in order.
    pipeline.emitted();
    assert_eq!(pipeline.take_head().unwrap().unwrap(), 2);
}

fn request() -> EmbedArrowRequest {
    EmbedArrowRequest {
        target: None,
        arrow_ipc: vec![],
        truncate: false,
        normalize: false,
        truncation_direction: 0,
        prompt_name: None,
        dimensions: None,
        noop: false,
        compression: 0,
        output_dtype: 0,
        max_concurrent_batches: 0,
    }
}

#[test]
fn test_stream_pipeline_counts_batches_with_ignored_fields() {
    let first = EmbedArrowRequest {
        truncate: true,
        output_dtype: 2,
        prompt_name: Some("p".to_string()),
        ..request()
    };
    // #2 flips output_dtype -> counted; #3 sets nothing -> not counted;
    // #4 repeats the pinned values exactly -> not counted; #5 sets
    // dimensions -> counted.
    let second = EmbedArrowRequest { output_dtype: 1, ..request() };
    let third = request();
    let fourth = first.clone();
    let fifth = EmbedArrowRequest { dimensions: Some(64), ..request() };
    let mut stats = ArrowStreamStats { batches_with_ignored_fields: 0 };
    for later in [second, third, fourth, fifth] {
        stats.on_request(&first, &later);
    }
    // only requests that SET differing option fields are counted
    assert_eq!(stats.batches_with_ignored_fields, 2);
}

/// Deterministic LCG so the property-style test needs no rand crate.
struct Lcg(u64);

impl Lcg {
    fn next(&mut self) -> u64 {
        self.0 = self.0.wrapping_mul(6364136223846793005).wrapping_add(1442695040888963407);
        self.0 >> 33
    }
}

#[test]
fn test_stream_pipeline_random_scripts_match_sequential_reference() {
    // Seeded-random delay/failure scripts vs a reference sequential
    // simulator: the emitted prefix and terminal status must be identical
    // regardless of K and completion timing.
    for seed in 0..50u64 {
        let mut rng = Lcg(seed.wrapping_mul(0x9E37_79B9_7F4A_7C15).wrapping_add(1));
        let n = 1 + (rng.next() % 12) as usize;
        let k = 1 + (rng.next() % 6) as usize;
        let mut scripts = Vec::with_capacity(n);
        for _ in 0..n {
            let delay = (rng.next() % 4) * 5;
            if rng.next() % 5 == 0 {
                let code = match rng.next() % 3 {
                    0 => Code::Internal,
                    1 => Code::InvalidArgument,
                    _ => Code::Unavailable,
                };
                scripts.push(BatchScript::Fail(delay, code, "scripted failure"));
            } else {
                scripts.push(BatchScript::Done(delay));
            }
        }
        // Reference: run the same scripts strictly one at a time - Oks up
        // to the first failure, which is terminal.
        let mut reference: Vec<Result<u64, Code>> = Vec::new();
        for (seq, script) in scripts.iter().enumerate() {
            match script {
                BatchScript::Done(_) => reference.push(Ok(seq as u64)),
                BatchScript::Fail(_, code, _) => {
                    reference.push(Err(*code));
                    break;
                }
                BatchScript::Never => unreachable!(),
            }
        }
        let run = drive(&scripts, k, None);
        let simplified: Vec<Result<u64, Code>> = run
            .emitted
            .iter()
            .map(|r| r.as_ref().map(|seq| *seq).map_err(|s| s.code))
            .collect();
        assert_eq!(simplified, reference, "seed {seed} (k={k}, n={n})");
        assert!(run.max_active <= k, "seed {seed}: concurrency exceeded K");
    }
}

#[test]
fn the_frontier_only_falls() {
    let mut frontier = None;
    assert!(lower_frontier(&mut frontier, 5));
    assert!(!lower_frontier(&mut frontier, 7));
    assert_eq!(frontier, Some(5));
    assert!(lower_frontier(&mut frontier, 3));
    assert_eq!(frontier, Some(3));
}

#[test]
fn failures_that_are_not_the_backends_are_internal() {
    assert_eq!(stream_error("x").code, Code::Internal);
    assert_eq!(batch_panicked().code, Code::Internal);
    // No room means room for one.
    let pipeline: StreamPipeline<u64> = StreamPipeline::new(0);
    assert!(pipeline.may_admit());
}
