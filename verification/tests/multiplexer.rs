//! Routing requests to instances.

use arrow::array::{Array, FixedSizeListArray, Float32Array, ListArray, StructArray, UInt32Array};
use arrow::datatypes::DataType;
use arrow::ipc::reader::StreamReader;
use arrow::record_batch::RecordBatch;
use std::io::Cursor;
use tei_manager::config::ArrowOutputDtype;
use tei_manager::grpc::arrow_batch::create_arrow_ipc;
use tei_manager::grpc::multiplexer::{
    forward, request_timed_out, row_counts, running_model_instances,
    sparse_payload, Forward, InstanceSummary, Method, MuxRequestMetrics, StreamRouting,
    TeiMultiplexerService, OUTPUT_DTYPE_F16, OUTPUT_DTYPE_F32, OUTPUT_DTYPE_UNSPECIFIED,
};
use tei_manager::grpc::request::{
    ignored_option_fields, EmbedArrowOptions, EmbedArrowRequest, EmbedSparseArrowRequest, Routing,
    Target,
};
use tei_manager::grpc::rows::{RowOutcomes, NOOP_EMBEDDING_DIM};
use tei_manager::grpc::status::{Code, Status};
use tei_manager::instance::InstanceStatus;

fn create_test_service() -> TeiMultiplexerService {
    TeiMultiplexerService::new(1024, 30)
}

fn target(routing: Routing) -> Option<Target> {
    Some(Target { routing: Some(routing) })
}

fn by_name(name: &str) -> Option<Target> {
    target(Routing::InstanceName(name.to_string()))
}

fn by_model(model: &str) -> Option<Target> {
    target(Routing::ModelId(model.to_string()))
}

fn running(names: &[&str], model: &str) -> Vec<InstanceSummary> {
    names
        .iter()
        .map(|name| InstanceSummary {
            name: name.to_string(),
            model_id: model.to_string(),
            status: InstanceStatus::Running,
        })
        .collect()
}

fn request() -> EmbedArrowRequest {
    EmbedArrowRequest {
        target: None,
        arrow_ipc: vec![],
        truncate: false,
        normalize: false,
        truncation_direction: 0,
        prompt_name: None,
        dimensions: None,
        noop: false,
        compression: 0,
        output_dtype: 0,
        max_concurrent_batches: 0,
    }
}

fn sparse_request(items: &[&str]) -> EmbedSparseArrowRequest {
    EmbedSparseArrowRequest {
        target: by_name("splade"),
        arrow_ipc: texts(items),
        truncate: true,
        truncation_direction: 0,
        prompt_name: None,
        noop: false,
        compression: 0,
    }
}

fn texts(items: &[&str]) -> Vec<u8> {
    let items = items.iter().map(|s| s.to_string()).collect();
    create_arrow_ipc(&items, 0).unwrap()
}

fn decode(ipc: &[u8]) -> RecordBatch {
    let mut reader = StreamReader::try_new(Cursor::new(ipc), None).unwrap();
    reader.next().unwrap().unwrap()
}

#[test]
fn test_resolve_target_valid_instance_name() {
    let mut service = create_test_service();
    let result = service.resolve_target(by_name("test-instance"), &vec![]);
    assert_eq!(result.unwrap(), "test-instance");
}

#[test]
fn test_resolve_target_empty_instance_name() {
    let mut service = create_test_service();
    let err = service.resolve_target(by_name(""), &vec![]).unwrap_err();
    assert_eq!(err.code, Code::InvalidArgument);
    assert!(err.message.contains("cannot be empty"));
}

#[test]
fn test_resolve_target_missing() {
    let mut service = create_test_service();
    let err = service.resolve_target(None, &vec![]).unwrap_err();
    assert_eq!(err.code, Code::InvalidArgument);
    assert!(err.message.contains("Missing target"));
}

#[test]
fn test_resolve_target_no_routing() {
    let mut service = create_test_service();
    let err = service.resolve_target(Some(Target { routing: None }), &vec![]).unwrap_err();
    assert_eq!(err.code, Code::InvalidArgument);
    assert!(err.message.contains("No routing specified"));
}

#[test]
fn test_resolve_target_index_routing_unimplemented() {
    let mut service = create_test_service();
    let err = service.resolve_target(target(Routing::InstanceIndex(0)), &vec![]).unwrap_err();
    assert_eq!(err.code, Code::Unimplemented);
}

#[test]
fn test_model_routing_round_robins_running_instances() {
    let mut service = create_test_service();
    let instances = running(&["m3-a", "m3-b"], "BAAI/bge-m3");
    let mut seen = Vec::new();
    for _ in 0..4 {
        seen.push(service.resolve_target(by_model("BAAI/bge-m3"), &instances).unwrap());
    }
    assert_eq!(seen, vec!["m3-a", "m3-b", "m3-a", "m3-b"]);
}

#[test]
fn test_model_routing_skips_non_running() {
    let mut service = create_test_service();
    let mut instances = running(&["m3-a", "m3-b"], "BAAI/bge-m3");
    instances[1].status = InstanceStatus::Failed;
    for _ in 0..3 {
        let picked = service.resolve_target(by_model("BAAI/bge-m3"), &instances).unwrap();
        assert_eq!(picked, "m3-a");
    }
    // Recovery: back to Running, back in rotation
    instances[1].status = InstanceStatus::Running;
    let mut seen = std::collections::HashSet::new();
    for _ in 0..4 {
        seen.insert(service.resolve_target(by_model("BAAI/bge-m3"), &instances).unwrap());
    }
    assert_eq!(seen.len(), 2);
}

#[test]
fn test_model_routing_no_match_is_not_found_naming_model() {
    let mut service = create_test_service();
    let mut instances = running(&["m3-a"], "BAAI/bge-m3");
    let err = service.resolve_target(by_model("other/model"), &instances).unwrap_err();
    assert_eq!(err.code, Code::NotFound);
    assert!(err.message.contains("other/model"), "{}", err.message);
    // Same shape when the only instance is not running
    instances[0].status = InstanceStatus::Starting;
    let err = service.resolve_target(by_model("BAAI/bge-m3"), &instances).unwrap_err();
    assert_eq!(err.code, Code::NotFound);
}

#[test]
fn test_model_routing_empty_model_id() {
    let mut service = create_test_service();
    let err = service.resolve_target(by_model(""), &vec![]).unwrap_err();
    assert_eq!(err.code, Code::InvalidArgument);
}

#[test]
fn picks_do_not_depend_on_the_order_of_listing() {
    let forwards = running(&["a", "b", "c"], "m");
    let backwards = running(&["c", "b", "a"], "m");
    assert_eq!(running_model_instances(&forwards, "m").unwrap(), vec!["a", "b", "c"]);
    assert_eq!(running_model_instances(&backwards, "m").unwrap(), vec!["a", "b", "c"]);
    let mut service = create_test_service();
    service.route_counter = usize::MAX;
    // The counter goes on from its end.
    assert!(service.resolve_target(by_model("m"), &backwards).is_ok());
    assert_eq!(service.route_counter, 0);
    assert_eq!(service.resolve_target(by_model("m"), &backwards).unwrap(), "a");
}

fn plan(
    method: Method,
    target: Option<Target>,
    has_request: bool,
) -> (Result<String, Status>, MuxRequestMetrics) {
    let mut metrics = MuxRequestMetrics::unary(method.name());
    let result = create_test_service().plan_unary(
        method,
        target,
        has_request,
        &vec![],
        &mut metrics,
    );
    (result, metrics)
}

#[test]
fn test_info_missing_target() {
    let (result, _) = plan(Method::Info, None, false);
    assert_eq!(result.unwrap_err().code, Code::InvalidArgument);
    // Info carries no request.
    assert_eq!(plan(Method::Info, by_name("x"), false).0.unwrap(), "x");
}

#[test]
fn test_embed_missing_target() {
    let (result, metrics) = plan(Method::Embed, None, true);
    assert_eq!(result.unwrap_err().code, Code::InvalidArgument);
    assert_eq!(metrics.finish().instance, "unknown");
}

fn missing(method: Method, message: &str) {
    let (result, metrics) = plan(method, by_name("test"), false);
    let err = result.unwrap_err();
    assert_eq!(err.code, Code::InvalidArgument);
    assert!(err.message.contains(message), "{}", err.message);
    let sample = metrics.finish();
    assert_eq!(sample.instance, "test");
    assert_eq!(sample.status, "error");
}

#[test]
fn test_embed_missing_request() {
    missing(Method::Embed, "Missing embed request");
}

#[test]
fn test_embed_sparse_missing_request() {
    missing(Method::EmbedSparse, "Missing embed_sparse request");
}

#[test]
fn test_embed_all_missing_request() {
    missing(Method::EmbedAll, "Missing embed_all request");
}

#[test]
fn test_predict_missing_request() {
    missing(Method::Predict, "Missing predict request");
}

#[test]
fn test_predict_pair_missing_request() {
    missing(Method::PredictPair, "Missing predict_pair request");
}

#[test]
fn test_rerank_missing_request() {
    missing(Method::Rerank, "Missing rerank request");
}

#[test]
fn test_tokenize_missing_request() {
    missing(Method::Tokenize, "Missing tokenize request");
}

#[test]
fn test_decode_missing_request() {
    missing(Method::Decode, "Missing decode request");
}

#[test]
fn streams_are_routed_by_their_first_request() {
    let mut service = create_test_service();
    let err = service.plan_stream(None, &vec![]).unwrap_err();
    assert_eq!((err.code, err.message.as_str()), (Code::InvalidArgument, "Empty stream"));
    let err = service.plan_stream(Some(Err("cut".to_string())), &vec![]).unwrap_err();
    assert_eq!((err.code, err.message.as_str()), (Code::Internal, "Stream error: cut"));
    assert_eq!(service.plan_stream(Some(Ok(by_name("x"))), &vec![]).unwrap(), "x");
}

#[test]
fn requests_are_sent_on_up_to_the_first_failure() {
    assert!(matches!(forward(Some(Ok(Some(3)))), Forward::Send(3)));
    assert!(matches!(forward::<i32>(Some(Ok(None))), Forward::Skip));
    assert!(matches!(forward::<i32>(Some(Err("x".to_string()))), Forward::End));
    assert!(matches!(forward::<i32>(None), Forward::End));
}

#[test]
fn test_service_creation() {
    let service = create_test_service();
    assert_eq!(service.max_parallel_stream_requests, 1024);
}

#[test]
fn test_service_custom_max_parallel_streams() {
    let service = TeiMultiplexerService::new(512, 30);
    assert_eq!(service.max_parallel_stream_requests, 512);
}

#[test]
fn test_timeout_configuration_enabled() {
    let service = TeiMultiplexerService::new(1024, 30);
    assert_eq!(service.request_timeout_secs, Some(30));
}

#[test]
fn test_timeout_configuration_disabled() {
    let service = TeiMultiplexerService::new(1024, 0);
    assert!(service.request_timeout_secs.is_none());
}

#[test]
fn test_timeout_configuration_various_values() {
    for timeout_secs in [1, 5, 10, 60, 300] {
        let service = TeiMultiplexerService::new(1024, timeout_secs);
        assert_eq!(service.request_timeout_secs.unwrap(), timeout_secs);
    }
    let status = request_timed_out();
    assert_eq!(status.code, Code::DeadlineExceeded);
    assert!(status.message.contains("timeout"));
}

#[test]
fn test_output_dtype_resolution() {
    let service = create_test_service();
    assert_eq!(
        service.output_dtype(OUTPUT_DTYPE_UNSPECIFIED).unwrap(),
        ArrowOutputDtype::F32
    );
    assert_eq!(service.output_dtype(OUTPUT_DTYPE_F16).unwrap(), ArrowOutputDtype::F16);
    let service = service.with_default_output_dtype(ArrowOutputDtype::F16);
    assert_eq!(
        service.output_dtype(OUTPUT_DTYPE_UNSPECIFIED).unwrap(),
        ArrowOutputDtype::F16
    );
    assert_eq!(service.output_dtype(OUTPUT_DTYPE_F32).unwrap(), ArrowOutputDtype::F32);
    assert_eq!(service.output_dtype(9).unwrap_err().code, Code::InvalidArgument);
}

#[test]
fn test_effective_stream_concurrency_clamps() {
    let service = create_test_service(); // server default: 4
    assert_eq!(service.effective_stream_concurrency(0), 4);
    assert_eq!(service.effective_stream_concurrency(7), 7);
    // caller override clamped down to 64
    assert_eq!(service.effective_stream_concurrency(1000), 64);
    let service = service.with_stream_max_concurrent_batches(0);
    // server knob clamped up to 1
    assert_eq!(service.effective_stream_concurrency(0), 1);
    let service = service.with_stream_max_concurrent_batches(999);
    // server knob clamped down to 64
    assert_eq!(service.effective_stream_concurrency(0), 64);
    // K=1 forces sequential execution
    assert_eq!(service.effective_stream_concurrency(1), 1);
}

/// The answer to a batch whose rows are made up.
fn embed_arrow_noop(
    service: &TeiMultiplexerService,
    req: &EmbedArrowRequest,
) -> Result<Vec<u8>, Status> {
    let mut metrics = MuxRequestMetrics::unary("embed_arrow");
    let req = EmbedArrowRequest { target: by_name("any"), ..req.clone() };
    let plan = service.clone().plan_embed_arrow(&req, &vec![], &mut metrics)?;
    assert_eq!(plan.instance, "any");
    plan.made_up(req.compression)
}

#[test]
fn test_embed_arrow_invalid_ipc() {
    let req = EmbedArrowRequest { arrow_ipc: vec![1, 2, 3, 4], ..request() };
    let err = create_test_service().read_embed_arrow(&req).unwrap_err();
    assert_eq!(err.code, Code::InvalidArgument);
    assert!(err.message.contains("Invalid Arrow IPC"));
}

#[test]
fn test_embed_arrow_empty_ipc() {
    let err = create_test_service().read_embed_arrow(&request()).unwrap_err();
    assert_eq!(err.code, Code::InvalidArgument);
}

#[test]
fn test_embed_arrow_noop_verify_embedding_dimensions() {
    let service = create_test_service();
    let req = EmbedArrowRequest { arrow_ipc: texts(&["Test text"]), ..request() };
    let batch = decode(&embed_arrow_noop(&service, &req).unwrap());
    let embeddings = batch.column(0).as_any().downcast_ref::<FixedSizeListArray>().unwrap();
    assert_eq!(embeddings.value_length(), 384); // BGE-small embedding size
    let values = embeddings.values().as_any().downcast_ref::<Float32Array>().unwrap();
    for i in 0..values.len() {
        assert_eq!(values.value(i), 0.0);
    }
}

#[test]
fn test_embed_arrow_noop_f16_output() {
    let service = create_test_service();
    let req = EmbedArrowRequest {
        arrow_ipc: texts(&["a", "b"]),
        noop: true,
        output_dtype: OUTPUT_DTYPE_F16,
        ..request()
    };
    let batch = decode(&embed_arrow_noop(&service, &req).unwrap());
    let emb = batch.column(0).as_any().downcast_ref::<FixedSizeListArray>().unwrap();
    assert_eq!(emb.value_type(), DataType::Float16);
    assert_eq!(emb.value_length(), NOOP_EMBEDDING_DIM as i32);
    assert_eq!(batch.num_rows(), 2);
    assert_eq!(batch.num_columns(), 2);
}

#[test]
fn test_embed_sparse_arrow_noop_verify_structure() {
    let req = EmbedSparseArrowRequest { noop: true, ..sparse_request(&["Test sparse"]) };
    let mut metrics = MuxRequestMetrics::unary("embed_sparse_arrow");
    let plan =
        create_test_service().plan_embed_sparse_arrow(&req, &vec![], &mut metrics).unwrap();
    assert!(!plan.dial);
    let batch = decode(&sparse_payload(&plan.made_up(), req.compression).unwrap());
    let sparse_col =
        batch.column(0).as_any().downcast_ref::<ListArray>().expect("Should be ListArray");

    assert_eq!(sparse_col.len(), 1); // 1 row

    let struct_values = sparse_col
        .values()
        .as_any()
        .downcast_ref::<StructArray>()
        .expect("Should be StructArray");

    // Verify struct has index and value fields
    assert_eq!(struct_values.num_columns(), 2);

    // Noop mode returns 3 values per row
    assert_eq!(sparse_col.value_length(0), 3);

    let indices = struct_values.column(0).as_any().downcast_ref::<UInt32Array>().unwrap();
    let values = struct_values.column(1).as_any().downcast_ref::<Float32Array>().unwrap();

    // Verify noop values: [(0, 1.0), (100, 0.5), (200, 0.25)]
    assert_eq!(indices.values(), &[0, 100, 200]);
    assert_eq!(values.values(), &[1.0, 0.5, 0.25]);
}

#[test]
fn test_embed_arrow_stream_empty_stream() {
    let err = create_test_service().open_arrow_stream(&None, &vec![]).unwrap_err();
    assert_eq!(err.code, Code::InvalidArgument);
    assert!(err.message.contains("Empty stream"));
}

#[test]
fn test_embed_arrow_stream_first_request_missing_target() {
    let err = create_test_service().open_arrow_stream(&Some(Ok(request())), &vec![]).unwrap_err();
    assert_eq!(err.code, Code::InvalidArgument);
    assert!(err.message.contains("Missing target"));
}

#[test]
fn test_embed_arrow_stream_later_options_ignored() {
    let service = create_test_service();
    let first = EmbedArrowRequest {
        target: by_name("test"),
        noop: true,
        output_dtype: OUTPUT_DTYPE_F16,
        max_concurrent_batches: 3,
        compression: 1,
        ..request()
    };
    let opened = service.open_arrow_stream(&Some(Ok(first.clone())), &vec![]).unwrap();
    assert_eq!(opened.label, "test");
    assert_eq!(opened.dial, None);
    let job = service.arrow_stream_job(opened, &first).unwrap();
    assert!(job.noop);
    assert_eq!(job.output_dtype, ArrowOutputDtype::F16);
    assert_eq!(job.max_concurrent, 3);
    assert_eq!(job.compression, 1);
    assert_eq!(job.timeout_secs, Some(30));

    let second = EmbedArrowRequest {
        output_dtype: OUTPUT_DTYPE_F32,
        truncate: true,
        dimensions: Some(8),
        max_concurrent_batches: 63,
        ..request()
    };
    assert_eq!(
        ignored_option_fields(&first, &second),
        vec!["truncate", "dimensions", "output_dtype", "max_concurrent_batches"]
    );
}

#[test]
fn streams_to_an_instance_connect_first() {
    let service = create_test_service();
    let first = EmbedArrowRequest { target: by_name("test"), ..request() };
    let opened = service.open_arrow_stream(&Some(Ok(first.clone())), &vec![]).unwrap();
    assert_eq!(opened.dial.as_deref(), Some("test"));
    let odd = EmbedArrowRequest { output_dtype: 9, ..first };
    assert_eq!(
        service.arrow_stream_job(opened, &odd).unwrap_err().code,
        Code::InvalidArgument
    );
}

#[test]
fn test_embed_arrow_stream_model_routing_rotates_and_survives_death() {
    let mut service = create_test_service();
    let mut instances = running(&["rr-alpha", "rr-beta"], "rr/model");
    let first = EmbedArrowRequest { target: by_model("rr/model"), noop: true, ..request() };
    let opened = service.open_arrow_stream(&Some(Ok(first.clone())), &instances).unwrap();
    assert_eq!(opened.label, "model:rr/model");
    assert!(matches!(opened.routing, StreamRouting::Model { .. }));
    let job = service.arrow_stream_job(opened, &first).unwrap();
    // Fresh round-robin over the sorted running instances: batch 0 goes
    // to rr-alpha, batch 1 to rr-beta.
    assert_eq!(service.batch_instance(&job, &instances).unwrap(), "rr-alpha");
    assert_eq!(service.batch_instance(&job, &instances).unwrap(), "rr-beta");
    // rr-beta leaves Running MID-STREAM: the survivor takes the rest.
    instances[1].status = InstanceStatus::Failed;
    for _ in 2..5 {
        assert_eq!(service.batch_instance(&job, &instances).unwrap(), "rr-alpha");
    }
}

#[test]
fn test_embed_arrow_stream_model_routing_all_dead_mid_stream_not_found() {
    let mut service = create_test_service();
    let mut instances = running(&["dead-a", "dead-b"], "dead/model");
    let first = EmbedArrowRequest { target: by_model("dead/model"), noop: true, ..request() };
    let opened = service.open_arrow_stream(&Some(Ok(first.clone())), &instances).unwrap();
    let job = service.arrow_stream_job(opened, &first).unwrap();
    assert!(service.batch_instance(&job, &instances).is_ok());
    // Every instance of the model dies mid-stream.
    for instance in instances.iter_mut() {
        instance.status = InstanceStatus::Failed;
    }
    let err = service.batch_instance(&job, &instances).unwrap_err();
    assert_eq!(err.code, Code::NotFound, "{}", err.message);
    assert!(err.message.contains("dead/model"), "{}", err.message);
    // Nor can a new stream begin.
    assert!(service.open_arrow_stream(&Some(Ok(first)), &instances).is_err());
}

#[test]
fn test_ignored_option_fields_semantics() {
    let pinned = EmbedArrowRequest {
        truncate: true,
        noop: true,
        output_dtype: OUTPUT_DTYPE_F16,
        ..request()
    };
    // Unset scalars are indistinguishable from defaults: not "set".
    assert!(ignored_option_fields(&pinned, &request()).is_empty());
    // Fields matching the pinned values are not ignored fields.
    assert!(ignored_option_fields(&pinned, &pinned.clone()).is_empty());
    let differing = EmbedArrowRequest {
        normalize: true,
        output_dtype: OUTPUT_DTYPE_F32,
        max_concurrent_batches: 9,
        ..request()
    };
    assert_eq!(
        ignored_option_fields(&pinned, &differing),
        vec!["normalize", "output_dtype", "max_concurrent_batches"]
    );
}

#[test]
fn options_reach_every_row() {
    let req = EmbedArrowRequest {
        truncate: true,
        normalize: true,
        truncation_direction: 1,
        prompt_name: Some("query".to_string()),
        dimensions: Some(64),
        ..request()
    };
    let row = EmbedArrowOptions::from_request(&req).build("text");
    assert_eq!(row.inputs, "text");
    assert!(row.truncate);
    assert_eq!(row.normalize, Some(true));
    assert_eq!(row.truncation_direction, 1);
    assert_eq!(row.prompt_name.as_deref(), Some("query"));
    assert_eq!(row.dimensions, Some(64));
}

#[test]
fn calls_are_recorded() {
    let mut metrics = MuxRequestMetrics::unary("embed_arrow");
    metrics.set_instance("metrics-inst");
    metrics.set_ok();
    let sample = metrics.finish();
    assert_eq!(sample.method, "embed_arrow");
    assert_eq!(sample.instance, "metrics-inst");
    assert_eq!(sample.status, "ok");
    assert!(sample.record_duration);

    // A request that fails target resolution is counted with
    // instance="unknown" and status="error".
    let sample = MuxRequestMetrics::stream("embed_stream").finish();
    assert_eq!(sample.instance, "unknown");
    assert_eq!(sample.status, "error");
    assert!(!sample.record_duration);

    let rows = RowOutcomes { rows: vec![Ok(1), Err("x".to_string()), Ok(2)] };
    assert_eq!(row_counts(&rows), (2, 1));
}

#[test]
fn a_batch_is_resolved_before_it_is_read() {
    let mut service = create_test_service();
    let mut metrics = MuxRequestMetrics::unary("embed_arrow");
    let bad = EmbedArrowRequest { arrow_ipc: vec![1, 2, 3, 4], output_dtype: 7, ..request() };
    let err = service.plan_embed_arrow(&bad, &vec![], &mut metrics).unwrap_err();
    assert_eq!((err.code, err.message.as_str()), (Code::InvalidArgument, "Missing target"));
    assert_eq!(metrics.instance, None);

    let bad = EmbedArrowRequest { target: by_model("m"), ..bad };
    let instances = running(&["a", "b"], "m");
    let err = service.plan_embed_arrow(&bad, &instances, &mut metrics).unwrap_err();
    assert!(err.message.contains("Invalid Arrow IPC"));
    assert_eq!(metrics.instance.as_deref(), Some("a"));

    let bad = EmbedArrowRequest { arrow_ipc: texts(&["x"]), ..bad };
    let err = service.plan_embed_arrow(&bad, &instances, &mut metrics).unwrap_err();
    assert_eq!(err.message, "unknown output_dtype value 7");
    assert_eq!(metrics.instance.as_deref(), Some("b"));

    let good = EmbedArrowRequest { output_dtype: OUTPUT_DTYPE_F16, ..bad };
    let plan = service.plan_embed_arrow(&good, &instances, &mut metrics).unwrap();
    assert_eq!(plan.instance, "a");
    assert_eq!(plan.rows, vec![Some("x".to_string())]);
    assert_eq!(plan.output_dtype, ArrowOutputDtype::F16);
    assert!(plan.dial && !metrics.ok);
}

#[test]
fn a_sparse_batch_is_planned_like_a_dense_one() {
    let mut service = create_test_service();
    let mut metrics = MuxRequestMetrics::unary("embed_sparse_arrow");
    let req = EmbedSparseArrowRequest {
        truncation_direction: 1,
        prompt_name: Some("query".to_string()),
        ..sparse_request(&["x", "y"])
    };
    let plan = service.plan_embed_sparse_arrow(&req, &vec![], &mut metrics).unwrap();
    assert_eq!(plan.instance, "splade");
    assert_eq!(plan.rows.len(), 2);
    assert!(plan.dial);
    assert_eq!(metrics.instance.as_deref(), Some("splade"));

    let asked = req.build("x");
    assert_eq!(asked.inputs, "x");
    assert!(asked.truncate);
    assert_eq!(asked.truncation_direction, 1);
    assert_eq!(asked.prompt_name.as_deref(), Some("query"));

    let bad = EmbedSparseArrowRequest { arrow_ipc: vec![0], ..req };
    let err = service.plan_embed_sparse_arrow(&bad, &vec![], &mut metrics).unwrap_err();
    assert!(err.message.contains("Invalid Arrow IPC"));
    let bad = EmbedSparseArrowRequest { target: None, ..bad };
    let err = service.plan_embed_sparse_arrow(&bad, &vec![], &mut metrics).unwrap_err();
    assert_eq!(err.message, "Missing target");
}
