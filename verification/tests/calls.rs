//! Calls that carry Arrow batches, from the request to the response.

use arrow::array::{ArrayRef, Int32Array, StringArray};
use arrow::datatypes::{DataType, Field, Schema};
use arrow::ipc::reader::StreamReader;
use arrow::ipc::writer::StreamWriter;
use arrow::record_batch::RecordBatch;
use std::io::Cursor;
use std::sync::Arc;
use tei_manager::config::ArrowOutputDtype;
use tei_manager::grpc::multiplexer::{
    row_counts, sparse_payload, InstanceSummary, Method, MuxRequestMetrics, MuxSample,
    TeiMultiplexerService,
};
use tei_manager::grpc::noop::{made_up_answer, noop_batch};
use tei_manager::grpc::pool::BackendPool;
use tei_manager::grpc::request::{
    EmbedArrowRequest, EmbedSparseArrowRequest, Routing, Target,
};
use tei_manager::grpc::rows::{noop_dense_rows, ZERO_BITS};
use tei_manager::grpc::status::{Code, Status};
use tei_manager::grpc::stream::StreamPipeline;
use tei_manager::instance::InstanceStatus;

fn create_test_service() -> TeiMultiplexerService {
    TeiMultiplexerService::new(1024, 30)
}

fn by_name(name: &str) -> Option<Target> {
    Some(Target { routing: Some(Routing::InstanceName(name.to_string())) })
}

/// A batch of one column as bytes.
fn ipc_from_array(array: ArrayRef, name: &str, data_type: DataType, nullable: bool) -> Vec<u8> {
    let schema = Arc::new(Schema::new(vec![Field::new(name, data_type, nullable)]));
    let batch = RecordBatch::try_new(schema.clone(), vec![array]).unwrap();
    let mut bytes = Vec::new();
    let mut writer = StreamWriter::try_new(&mut bytes, &schema).unwrap();
    writer.write(&batch).unwrap();
    writer.finish().unwrap();
    drop(writer);
    bytes
}

fn text_ipc(texts: &[&str]) -> Vec<u8> {
    let array = Arc::new(StringArray::from(texts.to_vec()));
    ipc_from_array(array, "text", DataType::Utf8, false)
}

fn numbers_ipc() -> Vec<u8> {
    let array = Arc::new(Int32Array::from(vec![1, 2, 3]));
    ipc_from_array(array, "data", DataType::Int32, false)
}

fn request() -> EmbedArrowRequest {
    EmbedArrowRequest {
        target: by_name("test"),
        arrow_ipc: vec![],
        truncate: true,
        normalize: true,
        truncation_direction: 0,
        prompt_name: None,
        dimensions: None,
        noop: false,
        compression: 0,
        output_dtype: 0,
        max_concurrent_batches: 0,
    }
}

fn sparse_request() -> EmbedSparseArrowRequest {
    EmbedSparseArrowRequest {
        target: by_name("test"),
        arrow_ipc: vec![],
        truncate: true,
        truncation_direction: 0,
        prompt_name: None,
        noop: false,
        compression: 0,
    }
}

/// Answer a batch where no instance is known, and say what is recorded of it.
fn embed_arrow(req: &EmbedArrowRequest) -> (Result<Vec<u8>, Status>, MuxSample) {
    let mut metrics = MuxRequestMetrics::unary("embed_arrow");
    let plan = match create_test_service().plan_embed_arrow(req, &vec![], &mut metrics) {
        Ok(plan) => plan,
        Err(status) => return (Err(status), metrics.finish()),
    };
    let result = if plan.dial {
        Err(BackendPool::endpoint(&plan.instance, None).unwrap_err())
    } else {
        plan.made_up(req.compression)
    };
    if result.is_ok() {
        metrics.set_ok();
    }
    (result, metrics.finish())
}

fn embed_sparse_arrow(req: &EmbedSparseArrowRequest) -> Result<Vec<u8>, Status> {
    let mut metrics = MuxRequestMetrics::unary("embed_sparse_arrow");
    let plan = create_test_service().plan_embed_sparse_arrow(req, &vec![], &mut metrics)?;
    if plan.dial {
        return Err(BackendPool::endpoint(&plan.instance, None).unwrap_err());
    }
    sparse_payload(&plan.made_up(), req.compression)
}

fn decode(ipc: &[u8]) -> RecordBatch {
    let mut reader = StreamReader::try_new(Cursor::new(ipc), None).unwrap();
    reader.next().unwrap().unwrap()
}

#[test]
fn test_embed_arrow_missing_target() {
    let (result, _) = embed_arrow(&EmbedArrowRequest { target: None, ..request() });
    assert_eq!(result.unwrap_err().code, Code::InvalidArgument);
}

#[test]
fn test_embed_arrow_noop_mode() {
    let req = EmbedArrowRequest {
        arrow_ipc: text_ipc(&["Hello", "World"]),
        noop: true,
        ..request()
    };
    let payload = embed_arrow(&req).0.unwrap();
    assert!(!payload.is_empty());
    assert_eq!(decode(&payload).num_rows(), 2); // 2 texts -> 2 embeddings
}

#[test]
fn test_embed_arrow_wrong_column_type() {
    let req = EmbedArrowRequest { arrow_ipc: numbers_ipc(), noop: true, ..request() };
    let err = embed_arrow(&req).0.unwrap_err();
    assert_eq!(err.code, Code::InvalidArgument);
    assert!(err.message.contains("StringArray"));
}

#[test]
fn test_embed_arrow_instance_not_found() {
    let req = EmbedArrowRequest {
        target: by_name("nonexistent"),
        arrow_ipc: text_ipc(&["Hello"]),
        noop: false,
        ..request()
    };
    assert_eq!(embed_arrow(&req).0.unwrap_err().code, Code::NotFound);
}

#[test]
fn test_embed_arrow_noop_empty_batch() {
    let req = EmbedArrowRequest { arrow_ipc: text_ipc(&[]), noop: true, ..request() };
    assert_eq!(decode(&embed_arrow(&req).0.unwrap()).num_rows(), 0);
}

#[test]
fn test_embed_arrow_noop_large_batch() {
    let texts: Vec<&str> = (0..100).map(|_| "Test text").collect();
    let req = EmbedArrowRequest { arrow_ipc: text_ipc(&texts), noop: true, ..request() };
    assert_eq!(decode(&embed_arrow(&req).0.unwrap()).num_rows(), 100);
}

#[test]
fn test_embed_arrow_noop_null_row_reports_error() {
    let array = Arc::new(StringArray::from(vec![Some("a"), None]));
    let arrow_ipc = ipc_from_array(array, "text", DataType::Utf8, true);
    // noop mode short-circuits the backend entirely, so both rows succeed;
    // this pins that noop never touches the pool and keeps row count.
    let req = EmbedArrowRequest { arrow_ipc, noop: true, ..request() };
    let batch = decode(&embed_arrow(&req).0.unwrap());
    assert_eq!(batch.num_rows(), 2);
    assert_eq!(batch.num_columns(), 2);
}

#[test]
fn test_embed_arrow_noop_records_prometheus_metrics() {
    let req = EmbedArrowRequest {
        target: by_name("metrics-inst"),
        arrow_ipc: text_ipc(&["Hello", "World"]),
        noop: true,
        ..request()
    };
    let (result, sample) = embed_arrow(&req);
    assert!(result.is_ok());
    assert_eq!(
        (sample.method, sample.instance.as_str(), sample.status),
        ("embed_arrow", "metrics-inst", "ok")
    );
    assert!(sample.record_duration);
    let mut metrics = MuxRequestMetrics::unary("embed_arrow");
    let plan = create_test_service().plan_embed_arrow(&req, &vec![], &mut metrics).unwrap();
    assert_eq!(row_counts(&noop_dense_rows(plan.rows.len(), ZERO_BITS)), (2, 0));

    // A request that fails target resolution is counted with
    // instance="unknown" and status="error".
    let (result, sample) = embed_arrow(&EmbedArrowRequest { target: None, ..request() });
    assert_eq!(result.unwrap_err().code, Code::InvalidArgument);
    assert_eq!(
        (sample.method, sample.instance.as_str(), sample.status),
        ("embed_arrow", "unknown", "error")
    );
}

#[test]
fn test_embed_sparse_arrow_missing_target() {
    let req = EmbedSparseArrowRequest { target: None, ..sparse_request() };
    assert_eq!(embed_sparse_arrow(&req).unwrap_err().code, Code::InvalidArgument);
}

#[test]
fn test_embed_sparse_arrow_invalid_ipc() {
    let req = EmbedSparseArrowRequest { arrow_ipc: vec![1, 2, 3, 4], ..sparse_request() };
    let err = embed_sparse_arrow(&req).unwrap_err();
    assert_eq!(err.code, Code::InvalidArgument);
    assert!(err.message.contains("Invalid Arrow IPC"));
}

#[test]
fn test_embed_sparse_arrow_empty_ipc() {
    assert_eq!(embed_sparse_arrow(&sparse_request()).unwrap_err().code, Code::InvalidArgument);
}

#[test]
fn test_embed_sparse_arrow_noop_mode() {
    let req = EmbedSparseArrowRequest {
        arrow_ipc: text_ipc(&["Hello", "World"]),
        noop: true,
        ..sparse_request()
    };
    let payload = embed_sparse_arrow(&req).unwrap();
    assert!(!payload.is_empty());
    assert_eq!(decode(&payload).num_rows(), 2); // 2 texts -> 2 sparse embeddings
}

#[test]
fn test_embed_sparse_arrow_wrong_column_type() {
    let req = EmbedSparseArrowRequest {
        arrow_ipc: numbers_ipc(),
        noop: true,
        ..sparse_request()
    };
    let err = embed_sparse_arrow(&req).unwrap_err();
    assert_eq!(err.code, Code::InvalidArgument);
    assert!(err.message.contains("StringArray"));
}

#[test]
fn test_embed_sparse_arrow_instance_not_found() {
    let req = EmbedSparseArrowRequest {
        target: by_name("nonexistent"),
        arrow_ipc: text_ipc(&["Hello"]),
        noop: false,
        ..sparse_request()
    };
    assert_eq!(embed_sparse_arrow(&req).unwrap_err().code, Code::NotFound);
}

#[test]
fn test_embed_sparse_arrow_noop_empty_batch() {
    let req = EmbedSparseArrowRequest {
        arrow_ipc: text_ipc(&[]),
        noop: true,
        ..sparse_request()
    };
    assert_eq!(decode(&embed_sparse_arrow(&req).unwrap()).num_rows(), 0);
}

/// A request of a stream; only the first one has a target.
fn arrow_stream_request(texts: &[&str], with_target: bool) -> EmbedArrowRequest {
    EmbedArrowRequest {
        target: if with_target { by_name("test") } else { None },
        arrow_ipc: text_ipc(texts),
        truncate: false,
        normalize: false,
        noop: true,
        ..request()
    }
}

/// Answer a stream whose rows are made up, the last batch under way first.
fn embed_arrow_stream(
    service: &TeiMultiplexerService,
    requests: Vec<EmbedArrowRequest>,
) -> Vec<Result<Vec<u8>, Status>> {
    let first = Some(Ok(requests[0].clone()));
    let opened = service.open_arrow_stream(&first, &vec![]).unwrap();
    assert_eq!(opened.dial, None);
    let job = service.arrow_stream_job(opened, &requests[0]).unwrap();
    assert!(job.noop);
    let mut pipeline: StreamPipeline<Vec<u8>> = StreamPipeline::new(job.max_concurrent);
    let mut inbound = requests.into_iter();
    let mut under_way = Vec::new();
    let mut out = Vec::new();
    loop {
        while pipeline.reading && pipeline.may_admit() {
            match inbound.next() {
                Some(req) => under_way.push((pipeline.accept_batch(), req)),
                None => pipeline.inbound_ended(),
            }
        }
        under_way.retain(|(seq, _)| !pipeline.abandoned(*seq));
        if let Some((seq, req)) = under_way.pop() {
            let (_, result) = noop_batch(&job, &req);
            pipeline.on_batch_done(seq, result);
        }
        while let Some(head) = pipeline.take_head() {
            if head.is_ok() {
                pipeline.emitted();
            }
            out.push(head);
        }
        if pipeline.finished() {
            return out;
        }
    }
}

#[test]
fn test_embed_arrow_stream_noop_batches_in_order() {
    let requests = vec![
        arrow_stream_request(&["a", "b"], true),
        arrow_stream_request(&["c", "d", "e"], false),
        arrow_stream_request(&["f"], false),
    ];
    let batches = embed_arrow_stream(&create_test_service(), requests);
    assert_eq!(batches.len(), 3);
    let mut rows = Vec::new();
    for payload in batches {
        let batch = decode(&payload.unwrap());
        assert_eq!(batch.num_columns(), 2);
        assert_eq!(batch.schema().field(0).name(), "embeddings");
        assert_eq!(batch.schema().field(1).name(), "error");
        rows.push(batch.num_rows());
    }
    assert_eq!(rows, vec![2, 3, 1], "responses arrive in request order");
}

#[test]
fn test_embed_arrow_stream_bad_batch_terminates_stream() {
    let mut bad = arrow_stream_request(&[], false);
    bad.arrow_ipc = vec![1, 2, 3, 4]; // invalid Arrow IPC
    let requests = vec![
        arrow_stream_request(&["a"], true),
        bad,
        arrow_stream_request(&["never processed"], false),
    ];
    let batches = embed_arrow_stream(&create_test_service(), requests);
    assert_eq!(batches.len(), 2, "stream ends at the failing batch");
    assert_eq!(decode(batches[0].as_ref().unwrap()).num_rows(), 1);
    let err = batches[1].as_ref().unwrap_err();
    assert_eq!(err.code, Code::InvalidArgument);
    assert!(err.message.contains("Invalid Arrow IPC"));
}

#[test]
fn test_embed_arrow_stream_k1_matches_sequential() {
    // The unary call serves as the sequential reference output.
    let service_k1 = create_test_service().with_stream_max_concurrent_batches(1);
    let service_k4 = create_test_service().with_stream_max_concurrent_batches(4);
    let batches: Vec<Vec<&str>> = vec![vec!["a", "b"], vec!["c"], vec!["d", "e", "f"], vec!["g"]];
    let requests = || -> Vec<EmbedArrowRequest> {
        batches.iter().enumerate().map(|(i, texts)| arrow_stream_request(texts, i == 0)).collect()
    };
    let k1_out = embed_arrow_stream(&service_k1, requests());
    let k4_out = embed_arrow_stream(&service_k4, requests());
    assert_eq!(k1_out.len(), batches.len());
    assert_eq!(k4_out.len(), batches.len());
    for (i, texts) in batches.iter().enumerate() {
        let unary = embed_arrow(&arrow_stream_request(texts, true)).0.unwrap();
        assert_eq!(k1_out[i].as_ref().unwrap(), &unary, "batch {i} at K=1");
        assert_eq!(k4_out[i].as_ref().unwrap(), &unary, "batch {i} at K=4");
    }

    // Failure semantics are identical too: same prefix, same terminal code.
    let failing = || -> Vec<EmbedArrowRequest> {
        let mut requests = requests();
        requests[2].arrow_ipc = vec![9, 9, 9];
        requests
    };
    let k1_fail = embed_arrow_stream(&service_k1, failing());
    let k4_fail = embed_arrow_stream(&service_k4, failing());
    assert_eq!(k1_fail.len(), 3);
    assert_eq!(k4_fail.len(), 3);
    for (a, b) in k1_fail.iter().zip(&k4_fail) {
        match (a, b) {
            (Ok(a), Ok(b)) => assert_eq!(a, b),
            (Err(a), Err(b)) => {
                assert_eq!(a.code, Code::InvalidArgument);
                assert_eq!(a.code, b.code);
            }
            _ => panic!("K=1 and K=4 disagree on the failure position"),
        }
    }
}

/// A call to an instance that is not there.
fn not_found(method: Method) {
    let mut metrics = MuxRequestMetrics::unary(method.name());
    let name = create_test_service()
        .plan_unary(method, by_name("nonexistent"), true, &vec![], &mut metrics)
        .unwrap();
    let err = BackendPool::endpoint(&name, None).unwrap_err();
    assert_eq!(err.code, Code::NotFound);
    assert_eq!(err.message, "Instance 'nonexistent' not found");
}

#[test]
fn test_info_instance_not_found() {
    not_found(Method::Info);
}

#[test]
fn test_embed_instance_not_found() {
    not_found(Method::Embed);
}

#[test]
fn test_embed_sparse_instance_not_found() {
    not_found(Method::EmbedSparse);
}

#[test]
fn test_embed_all_instance_not_found() {
    not_found(Method::EmbedAll);
}

#[test]
fn test_predict_instance_not_found() {
    not_found(Method::Predict);
}

#[test]
fn test_predict_pair_instance_not_found() {
    not_found(Method::PredictPair);
}

#[test]
fn test_rerank_instance_not_found() {
    not_found(Method::Rerank);
}

#[test]
fn test_tokenize_instance_not_found() {
    not_found(Method::Tokenize);
}

#[test]
fn test_decode_instance_not_found() {
    not_found(Method::Decode);
}

#[test]
fn test_info_instance_not_running() {
    let mut metrics = MuxRequestMetrics::unary("info");
    let name = create_test_service()
        .plan_unary(Method::Info, by_name("stopped-instance"), false, &vec![], &mut metrics)
        .unwrap();
    assert_eq!(BackendPool::endpoint(&name, Some(59999)).unwrap(), "http://127.0.0.1:59999");
    assert_eq!(BackendPool::connect_failed("connection refused").code, Code::Unavailable);
}

#[test]
fn test_embed_via_model_routing_reaches_backend_path() {
    // Routing picks the one instance of the model, and connecting fails.
    let instances = vec![InstanceSummary {
        name: "m3-a".to_string(),
        model_id: "BAAI/bge-m3".to_string(),
        status: InstanceStatus::Running,
    }];
    let target = Some(Target { routing: Some(Routing::ModelId("BAAI/bge-m3".to_string())) });
    let mut metrics = MuxRequestMetrics::unary("embed");
    let name = create_test_service()
        .plan_unary(Method::Embed, target, true, &instances, &mut metrics)
        .unwrap();
    assert_eq!(name, "m3-a");
    assert_eq!(BackendPool::connect_failed("connection refused").code, Code::Unavailable);
}

#[test]
fn made_up_answers_count_their_rows() {
    let service = create_test_service();
    let first = arrow_stream_request(&["a", "b"], true);
    let opened = service.open_arrow_stream(&Some(Ok(first.clone())), &vec![]).unwrap();
    let job = service.arrow_stream_job(opened, &first).unwrap();
    let (rows, answer) = noop_batch(&job, &first);
    assert_eq!(rows, 2);
    assert_eq!(answer.unwrap(), made_up_answer(2, ArrowOutputDtype::F32, 0).unwrap());
    let bad = EmbedArrowRequest { arrow_ipc: vec![9, 9, 9], ..first };
    let (rows, answer) = noop_batch(&job, &bad);
    assert_eq!(rows, 0);
    assert_eq!(answer.unwrap_err().code, Code::InvalidArgument);
    let batch = decode(&made_up_answer(3, ArrowOutputDtype::F32, 1).unwrap());
    assert_eq!(batch.num_rows(), 3);
    assert_eq!(decode(&made_up_answer(0, ArrowOutputDtype::F32, 0).unwrap()).num_rows(), 0);
    let err = made_up_answer(1, ArrowOutputDtype::F32, 7).unwrap_err();
    assert_eq!(err.message, "unknown compression value 7");
}
