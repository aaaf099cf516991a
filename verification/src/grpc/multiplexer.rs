//! The multiplexer: which instance a request goes to, and what each kind of
//! call needs before it is forwarded.

use vstd::prelude::*;

use super::arrow_batch::{
    all_succeeded, compression_of, dense_batch, dense_dim, dense_failure, dense_response,
    error_texts, first_batch, lemma_sparse_offsets, odd_dim, parse_text_rows, row_bytes, serialize,
    sparse_batch, sparse_entries, sparse_response, stream_rows, survives, written, ReadFaultView,
};
use super::ipc::{lz4_frames, readable};
use super::noop::{made_up_answer, made_up_payload, payload_view};
use super::request::{
    target_view, EmbedArrowOptions, EmbedArrowRequest, EmbedSparseArrowRequest, Routing,
    RoutingView, Target,
};
use super::rows::{
    noop_sparse_row, noop_sparse_rows, succeeded, texts_view, RowOutcomes, HALF_BITS, QUARTER_BITS,
    WHOLE_BITS,
};
use super::status::{status, Code, Status, StatusView};
use super::stream::stream_error;
use crate::config::ArrowOutputDtype;
use crate::instance::InstanceStatus;
use crate::sorting::{lemma_sorted, lemma_sorted_same, sort_texts, sorted};
use crate::text::{decimal, signed_decimal, signed_decimal_string, text_eq, texts};

verus! {

/// Batches of one stream that may be under way, unless set.
pub const DEFAULT_STREAM_MAX_CONCURRENT_BATCHES: usize = 4;

/// The fewest batches of one stream that may be under way.
pub const STREAM_CONCURRENCY_MIN: usize = 1;

/// The most batches of one stream that may be under way.
pub const STREAM_CONCURRENCY_MAX: usize = 64;

/// What a request can ask for: the server's element type.
pub const OUTPUT_DTYPE_UNSPECIFIED: i32 = 0;

/// What a request can ask for: single precision.
pub const OUTPUT_DTYPE_F32: i32 = 1;

/// What a request can ask for: half precision.
pub const OUTPUT_DTYPE_F16: i32 = 2;

/// What routing looks at of an instance.
#[derive(Debug, Clone)]
pub struct InstanceSummary {
    pub name: String,
    pub model_id: String,
    pub status: InstanceStatus,
}

/// The names of the running instances among `instances` that serve `model`, in
/// the order in which they are listed.
pub open spec fn serving(instances: Seq<InstanceSummary>, model: Seq<char>) -> Seq<Seq<char>>
    decreases instances.len(),
{
    if instances.len() == 0 {
        Seq::empty()
    } else {
        let before = serving(instances.drop_last(), model);
        let x = instances.last();
        if x.model_id@ == model && x.status == InstanceStatus::Running {
            before.push(x.name@)
        } else {
            before
        }
    }
}

/// The status for a model that nothing serves.
pub open spec fn nothing_serves(model: Seq<char>) -> StatusView {
    status(Code::NotFound, "No running instance for model '"@ + model + "'"@)
}

/// The names of the running instances that serve a model, in order; `NotFound`
/// when there are none.
pub fn running_model_instances(instances: &Vec<InstanceSummary>, model_id: &str) -> (r: Result<
    Vec<String>,
    Status,
>)
    ensures
        match r {
            Ok(names) => {
                &&& serving(instances@, model_id@).len() > 0
                &&& texts(names@) == sorted(serving(instances@, model_id@))
            },
            Err(s) => {
                &&& serving(instances@, model_id@).len() == 0
                &&& s@ == nothing_serves(model_id@)
            },
        },
        forall|i: int|
            0 <= i < instances@.len() && (#[trigger] instances@[i]).status
                == InstanceStatus::Running && instances@[i].model_id@ == model_id@ ==> (
            r matches Ok(names) && texts(names@).contains(instances@[i].name@)),
        r matches Err(s) ==> s@.code == Code::NotFound,
{
    let mut matches: Vec<String> = Vec::new();
    let mut i: usize = 0;
    assert(texts(matches@) =~= serving(instances@.take(0), model_id@));
    while i < instances.len()
        invariant
            i <= instances@.len(),
            texts(matches@) == serving(instances@.take(i as int), model_id@),
        decreases instances@.len() - i,
    {
        assert(instances@.take(i + 1).drop_last() =~= instances@.take(i as int));
        let ghost before = texts(matches@);
        if text_eq(instances[i].model_id.as_str(), model_id) && instances[i].status
            == InstanceStatus::Running {
            matches.push(instances[i].name.clone());
            assert(texts(matches@) =~= before.push(instances@[i as int].name@));
        }
        i = i + 1;
    }
    assert(instances@.take(i as int) =~= instances@);
    assert(matches@.len() == texts(matches@).len());
    proof {
        law_whoever_runs_and_serves_takes_turns(instances@, model_id@);
        lemma_sorted(serving(instances@, model_id@));
    }
    if matches.len() == 0 {
        return Err(
            Status::not_found(
                "No running instance for model '".to_owned().concat(model_id).concat("'"),
            ),
        );
    }
    Ok(sort_texts(matches))
}

/// Which of the running instances that serve `model` gets the pick number
/// `counter`.
pub open spec fn picked(instances: Seq<InstanceSummary>, model: Seq<char>, counter: usize) -> Result<
    Seq<char>,
    StatusView,
> {
    let names = sorted(serving(instances, model));
    if serving(instances, model).len() == 0 {
        Err(nothing_serves(model))
    } else {
        Ok(names[counter as int % names.len() as int])
    }
}

/// Whether resolving `target` takes a pick.
pub open spec fn takes_a_pick(
    target: Option<Option<RoutingView>>,
    instances: Seq<InstanceSummary>,
) -> bool {
    target matches Some(Some(RoutingView::ModelId(model))) && model.len() > 0 && serving(
        instances,
        model,
    ).len() > 0
}

/// What is wrong with a target by itself, if anything.
pub open spec fn target_fault(target: Option<Option<RoutingView>>) -> Option<StatusView> {
    match target {
        None => Some(status(Code::InvalidArgument, "Missing target"@)),
        Some(None) => Some(status(Code::InvalidArgument, "No routing specified"@)),
        Some(Some(RoutingView::InstanceName(name))) => if name.len() == 0 {
            Some(status(Code::InvalidArgument, "Instance name cannot be empty"@))
        } else {
            None
        },
        Some(Some(RoutingView::ModelId(model))) => if model.len() == 0 {
            Some(status(Code::InvalidArgument, "Model id cannot be empty"@))
        } else {
            None
        },
        Some(Some(RoutingView::InstanceIndex(_))) => Some(
            status(Code::Unimplemented, "Index-based routing not yet implemented"@),
        ),
    }
}

/// The instance that a request for `target` goes to.
pub open spec fn resolved(
    target: Option<Option<RoutingView>>,
    instances: Seq<InstanceSummary>,
    counter: usize,
) -> Result<Seq<char>, StatusView> {
    match target_fault(target) {
        Some(s) => Err(s),
        None => match target {
            Some(Some(RoutingView::InstanceName(name))) => Ok(name),
            Some(Some(RoutingView::ModelId(model))) => picked(instances, model, counter),
            _ => Err(status(Code::InvalidArgument, "No routing specified"@)),
        },
    }
}

/// A name, or the status that a request fails with.
pub open spec fn name_view(r: Result<String, Status>) -> Result<Seq<char>, StatusView> {
    match r {
        Ok(name) => Ok(name@),
        Err(s) => Err(s@),
    }
}

/// A target without faults, taken apart: the instance or the model.
enum Checked {
    Instance(String),
    Model(String),
}

fn check_target(target: Option<Target>) -> (r: Result<Checked, Status>)
    ensures
        match r {
            Ok(Checked::Instance(name)) => {
                &&& target_fault(target_view(target)) is None
                &&& target_view(target) == Some(Some(RoutingView::InstanceName(name@)))
            },
            Ok(Checked::Model(model)) => {
                &&& target_fault(target_view(target)) is None
                &&& target_view(target) == Some(Some(RoutingView::ModelId(model@)))
            },
            Err(s) => target_fault(target_view(target)) == Some(s@),
        },
{
    match target {
        None => Err(Status::invalid_argument("Missing target".to_owned())),
        Some(t) => match t.routing {
            None => Err(Status::invalid_argument("No routing specified".to_owned())),
            Some(Routing::InstanceName(name)) => {
                if name.as_str().is_empty() {
                    Err(Status::invalid_argument("Instance name cannot be empty".to_owned()))
                } else {
                    Ok(Checked::Instance(name))
                }
            },
            Some(Routing::ModelId(model)) => {
                if model.as_str().is_empty() {
                    Err(Status::invalid_argument("Model id cannot be empty".to_owned()))
                } else {
                    Ok(Checked::Model(model))
                }
            },
            Some(Routing::InstanceIndex(_)) => Err(
                Status::unimplemented("Index-based routing not yet implemented".to_owned()),
            ),
        },
    }
}

/// The kinds of call that carry one request and get one response.
#[derive(Debug, Clone, Copy, PartialEq, Eq, Structural)]
pub enum Method {
    Info,
    Embed,
    EmbedSparse,
    EmbedAll,
    Predict,
    PredictPair,
    Rerank,
    Tokenize,
    Decode,
}

impl Method {
    /// What `name` says.
    pub open spec fn spelled(self) -> Seq<char> {
        match self {
            Method::Info => "info"@,
            Method::Embed => "embed"@,
            Method::EmbedSparse => "embed_sparse"@,
            Method::EmbedAll => "embed_all"@,
            Method::Predict => "predict"@,
            Method::PredictPair => "predict_pair"@,
            Method::Rerank => "rerank"@,
            Method::Tokenize => "tokenize"@,
            Method::Decode => "decode"@,
        }
    }

    /// The name of the call.
    pub fn name(&self) -> (s: &'static str)
        ensures
            s@ == self.spelled(),
    {
        match self {
            Method::Info => "info",
            Method::Embed => "embed",
            Method::EmbedSparse => "embed_sparse",
            Method::EmbedAll => "embed_all",
            Method::Predict => "predict",
            Method::PredictPair => "predict_pair",
            Method::Rerank => "rerank",
            Method::Tokenize => "tokenize",
            Method::Decode => "decode",
        }
    }
}

/// What is to be recorded of one call, from its start to its end. A call that
/// is not marked as a success counts as an error.
#[derive(Debug, Clone)]
pub struct MuxRequestMetrics {
    pub method: &'static str,
    /// The instance that the call went to, once it is known.
    pub instance: Option<String>,
    /// Whether the time taken is recorded; not for streams, which outlive the
    /// call.
    pub record_duration: bool,
    pub ok: bool,
}

/// What is recorded of a call that is over.
#[derive(Debug, Clone)]
pub struct MuxSample {
    pub method: &'static str,
    pub instance: String,
    pub status: &'static str,
    pub record_duration: bool,
}

impl MuxRequestMetrics {
    fn new(method: &'static str, record_duration: bool) -> (m: Self)
        ensures
            m.method@ == method@,
            m.instance is None,
            m.record_duration == record_duration,
            !m.ok,
    {
        MuxRequestMetrics { method, instance: None, record_duration, ok: false }
    }

    /// Begin a call with one request and one response.
    pub fn unary(method: &'static str) -> (m: Self)
        ensures
            m.method@ == method@,
            m.instance is None,
            m.record_duration,
            !m.ok,
    {
        Self::new(method, true)
    }

    /// Begin a call with a stream.
    pub fn stream(method: &'static str) -> (m: Self)
        ensures
            m.method@ == method@,
            m.instance is None,
            !m.record_duration,
            !m.ok,
    {
        Self::new(method, false)
    }

    /// The instance is known.
    pub fn set_instance(&mut self, name: &str)
        ensures
            final(self).instance matches Some(s) && s@ == name@,
            final(self).method == old(self).method,
            final(self).record_duration == old(self).record_duration,
            final(self).ok == old(self).ok,
    {
        self.instance = Some(name.to_owned());
    }

    /// The call succeeded.
    pub fn set_ok(&mut self)
        ensures
            *final(self) == (MuxRequestMetrics { ok: true, ..*old(self) }),
    {
        self.ok = true;
    }

    /// The call is over: what is recorded of it. Its instance is `unknown` when
    /// it failed before that was found out.
    pub fn finish(self) -> (s: MuxSample)
        ensures
            s.method@ == self.method@,
            s.instance@ == (match self.instance {
                Some(name) => name@,
                None => "unknown"@,
            }),
            s.status@ == (if self.ok {
                "ok"@
            } else {
                "error"@
            }),
            s.record_duration == self.record_duration,
    {
        let instance = match self.instance {
            Some(name) => name,
            None => "unknown".to_owned(),
        };
        let status = if self.ok {
            "ok"
        } else {
            "error"
        };
        MuxSample { method: self.method, instance, status, record_duration: self.record_duration }
    }
}

/// Whether `after` is `before` with the instance that a call was found to go to.
/// Nothing is learned of a call that goes nowhere.
pub open spec fn learned(
    before: MuxRequestMetrics,
    after: MuxRequestMetrics,
    name: Result<Seq<char>, StatusView>,
) -> bool {
    &&& match name {
        Ok(name) => after.instance matches Some(s) && s@ == name,
        Err(_) => after.instance == before.instance,
    }
    &&& after.method == before.method
    &&& after.record_duration == before.record_duration
    &&& after.ok == before.ok
}

/// How many rows of a batch succeeded, and how many failed.
pub fn row_counts<T>(outcome: &RowOutcomes<T>) -> (r: (u64, u64))
    ensures
        r.0 == outcome@.filter(succeeded()).len(),
        r.0 + r.1 == outcome@.len(),
{
    let total: usize = outcome.rows.len();
    let ok: usize = outcome.ok_count();
    (ok as u64, (total - ok) as u64)
}

/// The status of a call that took too long.
pub fn request_timed_out() -> (s: Status)
    ensures
        s@ == status(Code::DeadlineExceeded, "Request timeout"@),
{
    Status::deadline_exceeded("Request timeout".to_owned())
}

/// Where the batches of a stream go.
#[derive(Debug, Clone)]
pub enum StreamRouting {
    /// All to one instance.
    Instance { name: String },
    /// Each to one of the instances that serve a model just then.
    Model { model_id: String },
}

/// A stream whose first request was accepted.
#[derive(Debug)]
pub struct StreamPlan {
    pub routing: StreamRouting,
    /// What the stream is recorded under: its instance, or its model.
    pub label: String,
    /// The instance to connect to before going on, if there is one.
    pub dial: Option<String>,
}

/// All that the first request of a stream settles.
#[derive(Debug)]
pub struct ArrowStreamJob {
    pub routing: StreamRouting,
    pub noop: bool,
    pub opts: EmbedArrowOptions,
    pub output_dtype: ArrowOutputDtype,
    pub compression: i32,
    /// Seconds that one batch may take.
    pub timeout_secs: Option<u64>,
    /// Batches that may be under way.
    pub max_concurrent: usize,
}

/// `k` brought into the range allowed.
pub open spec fn clamped(k: int) -> int {
    if k < STREAM_CONCURRENCY_MIN {
        STREAM_CONCURRENCY_MIN as int
    } else if k > STREAM_CONCURRENCY_MAX {
        STREAM_CONCURRENCY_MAX as int
    } else {
        k
    }
}

/// The element type asked for, if there is such a one.
pub open spec fn dtype_of(requested: i32, default: ArrowOutputDtype) -> Option<ArrowOutputDtype> {
    if requested == OUTPUT_DTYPE_UNSPECIFIED {
        Some(default)
    } else if requested == OUTPUT_DTYPE_F32 {
        Some(ArrowOutputDtype::F32)
    } else if requested == OUTPUT_DTYPE_F16 {
        Some(ArrowOutputDtype::F16)
    } else {
        None
    }
}

/// The status for an element type that there is not.
pub open spec fn unknown_dtype(requested: i32) -> StatusView {
    status(
        Code::InvalidArgument,
        "unknown output_dtype value "@ + signed_decimal(requested as int),
    )
}

/// What opening a stream with a first request for `target` fails with, if it
/// does.
pub open spec fn open_fault(
    target: Option<Option<RoutingView>>,
    instances: Seq<InstanceSummary>,
) -> Option<StatusView> {
    match target_fault(target) {
        Some(s) => Some(s),
        None => match target {
            Some(Some(RoutingView::ModelId(model))) => if serving(instances, model).len() == 0 {
                Some(nothing_serves(model))
            } else {
                None
            },
            _ => None,
        },
    }
}

/// Whether `plan` is that of a stream for `target`.
pub open spec fn plans(
    plan: StreamPlan,
    target: Option<Option<RoutingView>>,
    noop: bool,
) -> bool {
    match target {
        Some(Some(RoutingView::InstanceName(name))) => {
            &&& plan.routing matches StreamRouting::Instance { name: n } && n@ == name
            &&& plan.label@ == name
            &&& match plan.dial {
                Some(d) => !noop && d@ == name,
                None => noop,
            }
        },
        Some(Some(RoutingView::ModelId(model))) => {
            &&& plan.routing matches StreamRouting::Model { model_id: m } && m@ == model
            &&& plan.label@ == "model:"@ + model
            &&& plan.dial is None
        },
        _ => false,
    }
}

/// The multiplexer's settings, and its place in the round of instances.
#[derive(Debug, Clone)]
pub struct TeiMultiplexerService {
    /// Responses of a stream that may wait for the client.
    pub max_parallel_stream_requests: usize,
    /// Seconds that a forwarded request may take.
    pub request_timeout_secs: Option<u64>,
    /// Element type when a request does not say.
    pub default_output_dtype: ArrowOutputDtype,
    /// Batches of one stream that may be under way, when a stream does not say.
    pub stream_max_concurrent_batches: usize,
    /// Picks made so far, for taking turns.
    pub route_counter: usize,
}

/// A batch that was read and is to be embedded.
#[derive(Debug)]
pub struct BatchPlan {
    /// The instance that it goes to.
    pub instance: String,
    pub rows: Vec<Option<String>>,
    /// The element type of the answer.
    pub output_dtype: ArrowOutputDtype,
    /// Whether to connect to the instance; if not, the answer is made up.
    pub dial: bool,
}

impl BatchPlan {
    /// Whether this is the plan of `req`, wherever it goes.
    pub open spec fn serves(self, req: EmbedArrowRequest, default: ArrowOutputDtype) -> bool {
        &&& stream_rows(req.arrow_ipc@) == Ok::<_, StatusView>(texts_view(self.rows@))
        &&& dtype_of(req.output_dtype, default) == Some(self.output_dtype)
        &&& self.dial == !req.noop
    }

    /// The answer without asking the instance: a row of noughts for each row.
    pub fn made_up(&self, compression: i32) -> (r: Result<Vec<u8>, Status>)
        ensures
            payload_view(r) == made_up_payload(self.rows@.len(), self.output_dtype, compression),
    {
        made_up_answer(self.rows.len(), self.output_dtype, compression)
    }
}

/// A sparse batch that was read and is to be embedded.
#[derive(Debug)]
pub struct SparseBatchPlan {
    /// The instance that it goes to.
    pub instance: String,
    pub rows: Vec<Option<String>>,
    /// Whether to connect to the instance; if not, the answer is made up.
    pub dial: bool,
}

impl SparseBatchPlan {
    /// The answer without asking the instance: three weights for each row.
    pub fn made_up(&self) -> (out: RowOutcomes<Vec<(u32, u32)>>)
        requires
            self.rows@.len() + 199 <= u32::MAX,
        ensures
            out.rows@.len() == self.rows@.len(),
            forall|i: int|
                0 <= i < out.rows@.len() ==> (#[trigger] out.rows@[i] matches Ok(v) && v@
                    == noop_sparse_row(i, WHOLE_BITS, HALF_BITS, QUARTER_BITS)),
    {
        noop_sparse_rows(self.rows.len(), WHOLE_BITS, HALF_BITS, QUARTER_BITS)
    }
}

impl TeiMultiplexerService {
    /// This multiplexer after resolving `target`.
    pub open spec fn after_resolving(
        self,
        target: Option<Option<RoutingView>>,
        instances: Seq<InstanceSummary>,
    ) -> Self {
        TeiMultiplexerService {
            route_counter: if takes_a_pick(target, instances) {
                self.route_counter.wrapping_add(1)
            } else {
                self.route_counter
            },
            ..self
        }
    }

    /// A multiplexer; a timeout of 0 is none.
    pub fn new(max_parallel_stream_requests: usize, request_timeout_secs: u64) -> (s: Self)
        ensures
            s.max_parallel_stream_requests == max_parallel_stream_requests,
            s.request_timeout_secs == (if request_timeout_secs > 0 {
                Some(request_timeout_secs)
            } else {
                None
            }),
            s.default_output_dtype == ArrowOutputDtype::F32,
            s.stream_max_concurrent_batches == DEFAULT_STREAM_MAX_CONCURRENT_BATCHES,
            s.route_counter == 0,
    {
        TeiMultiplexerService {
            max_parallel_stream_requests,
            request_timeout_secs: if request_timeout_secs > 0 {
                Some(request_timeout_secs)
            } else {
                None
            },
            default_output_dtype: ArrowOutputDtype::F32,
            stream_max_concurrent_batches: DEFAULT_STREAM_MAX_CONCURRENT_BATCHES,
            route_counter: 0,
        }
    }

    /// With this element type for requests that do not say.
    pub fn with_default_output_dtype(self, dtype: ArrowOutputDtype) -> (s: Self)
        ensures
            s == (TeiMultiplexerService { default_output_dtype: dtype, ..self }),
    {
        TeiMultiplexerService { default_output_dtype: dtype, ..self }
    }

    /// With so many batches under way for streams that do not say.
    pub fn with_stream_max_concurrent_batches(self, max: usize) -> (s: Self)
        ensures
            s == (TeiMultiplexerService { stream_max_concurrent_batches: max, ..self }),
    {
        TeiMultiplexerService { stream_max_concurrent_batches: max, ..self }
    }

    /// How many batches of one stream may be under way: what the stream asks
    /// for, else the server's setting, within the range allowed.
    pub fn effective_stream_concurrency(&self, requested: u32) -> (k: usize)
        ensures
            k == clamped(
                if requested > 0 {
                    requested as int
                } else {
                    self.stream_max_concurrent_batches as int
                },
            ),
            STREAM_CONCURRENCY_MIN <= k <= STREAM_CONCURRENCY_MAX,
            1 <= requested <= 64 ==> k == requested,
            requested > 64 ==> k == 64,
            requested == 0 && 1 <= self.stream_max_concurrent_batches <= 64 ==> k
                == self.stream_max_concurrent_batches,
    {
        let k: usize = if requested > 0 {
            requested as usize
        } else {
            self.stream_max_concurrent_batches
        };
        if k < STREAM_CONCURRENCY_MIN {
            STREAM_CONCURRENCY_MIN
        } else if k > STREAM_CONCURRENCY_MAX {
            STREAM_CONCURRENCY_MAX
        } else {
            k
        }
    }

    /// The element type that a request gets.
    pub fn output_dtype(&self, requested: i32) -> (r: Result<ArrowOutputDtype, Status>)
        ensures
            match dtype_of(requested, self.default_output_dtype) {
                Some(d) => r == Ok::<ArrowOutputDtype, Status>(d),
                None => r matches Err(s) && s@ == unknown_dtype(requested),
            },
    {
        if requested == OUTPUT_DTYPE_UNSPECIFIED {
            Ok(self.default_output_dtype)
        } else if requested == OUTPUT_DTYPE_F32 {
            Ok(ArrowOutputDtype::F32)
        } else if requested == OUTPUT_DTYPE_F16 {
            Ok(ArrowOutputDtype::F16)
        } else {
            Err(
                Status::invalid_argument(
                    "unknown output_dtype value ".to_owned().concat(
                        signed_decimal_string(requested as i64).as_str(),
                    ),
                ),
            )
        }
    }

    /// Pick one of the running instances that serve a model, taking turns.
    pub fn pick_running_instance(
        &mut self,
        model_id: &str,
        instances: &Vec<InstanceSummary>,
    ) -> (r: Result<String, Status>)
        ensures
            name_view(r) == picked(instances@, model_id@, old(self).route_counter),
            *final(self) == (TeiMultiplexerService {
                route_counter: if r is Ok {
                    old(self).route_counter.wrapping_add(1)
                } else {
                    old(self).route_counter
                },
                ..*old(self)
            }),
    {
        let names = match running_model_instances(instances, model_id) {
            Ok(names) => names,
            Err(s) => {
                return Err(s);
            },
        };
        proof {
            lemma_sorted(serving(instances@, model_id@));
            assert(names@.len() == texts(names@).len());
        }
        let turn: usize = self.route_counter;
        self.route_counter = turn.wrapping_add(1);
        let name = names[turn % names.len()].clone();
        assert(texts(names@)[turn as int % names@.len() as int] == name@);
        Ok(name)
    }

    /// The instance that a request goes to: the one it names, or one of those
    /// that serve the model it names, taking turns. A whole request goes to one
    /// instance.
    pub fn resolve_target(&mut self, target: Option<Target>, instances: &Vec<InstanceSummary>) -> (r:
        Result<String, Status>)
        ensures
            name_view(r) == resolved(target_view(target), instances@, old(self).route_counter),
            *final(self) == old(self).after_resolving(target_view(target), instances@),
            target_view(target) matches Some(Some(RoutingView::InstanceName(name))) ==> *final(self)
                == *old(self) && (name.len() > 0 ==> (r matches Ok(n) && n@ == name)),
            target is None ==> r is Err,
    {
        match check_target(target) {
            Ok(Checked::Instance(name)) => Ok(name),
            Ok(Checked::Model(model)) => self.pick_running_instance(model.as_str(), instances),
            Err(s) => Err(s),
        }
    }

    /// The instance that a call with one request goes to. The target is
    /// resolved first, then the request looked for; `metrics` learns the
    /// instance in between.
    pub fn plan_unary(
        &mut self,
        method: Method,
        target: Option<Target>,
        has_request: bool,
        instances: &Vec<InstanceSummary>,
        metrics: &mut MuxRequestMetrics,
    ) -> (r: Result<String, Status>)
        ensures
            name_view(r) == (match resolved(
                target_view(target),
                instances@,
                old(self).route_counter,
            ) {
                Ok(name) => if method != Method::Info && !has_request {
                    Err(
                        status(
                            Code::InvalidArgument,
                            "Missing "@ + method.spelled() + " request"@,
                        ),
                    )
                } else {
                    Ok(name)
                },
                Err(s) => Err(s),
            }),
            learned(
                *old(metrics),
                *final(metrics),
                resolved(target_view(target), instances@, old(self).route_counter),
            ),
            *final(self) == old(self).after_resolving(target_view(target), instances@),
    {
        let name = match self.resolve_target(target, instances) {
            Ok(name) => name,
            Err(s) => {
                return Err(s);
            },
        };
        metrics.set_instance(name.as_str());
        if method != Method::Info && !has_request {
            return Err(
                Status::invalid_argument(
                    "Missing ".to_owned().concat(method.name()).concat(" request"),
                ),
            );
        }
        Ok(name)
    }

    /// The instance that a stream of plain requests goes to, by the first one:
    /// `None` when there was none, an error when it did not arrive whole.
    pub fn plan_stream(
        &mut self,
        first: Option<Result<Option<Target>, String>>,
        instances: &Vec<InstanceSummary>,
    ) -> (r: Result<String, Status>)
        ensures
            match first {
                None => name_view(r) == Err::<Seq<char>, _>(
                    status(Code::InvalidArgument, "Empty stream"@),
                ) && *final(self) == *old(self),
                Some(Err(e)) => name_view(r) == Err::<Seq<char>, _>(
                    status(Code::Internal, "Stream error: "@ + e@),
                ) && *final(self) == *old(self),
                Some(Ok(target)) => name_view(r) == resolved(
                    target_view(target),
                    instances@,
                    old(self).route_counter,
                ) && *final(self) == old(self).after_resolving(target_view(target), instances@),
            },
    {
        match first {
            None => Err(Status::invalid_argument("Empty stream".to_owned())),
            Some(Err(e)) => Err(stream_error(e.as_str())),
            Some(Ok(target)) => self.resolve_target(target, instances),
        }
    }

    /// Look at the first request of a stream of batches: where the stream goes,
    /// and whom to connect to. An instance is fixed for the whole stream, and is
    /// not connected to when rows are made up; a model must be served by
    /// someone now, and is looked at again for each batch.
    pub fn open_arrow_stream(
        &self,
        first: &Option<Result<EmbedArrowRequest, String>>,
        instances: &Vec<InstanceSummary>,
    ) -> (r: Result<StreamPlan, Status>)
        ensures
            match *first {
                None => r matches Err(s) && s@ == status(Code::InvalidArgument, "Empty stream"@),
                Some(Err(e)) => r matches Err(s) && s@ == status(
                    Code::Internal,
                    "Stream error: "@ + e@,
                ),
                Some(Ok(req)) => match open_fault(target_view(req.target), instances@) {
                    Some(fault) => r matches Err(s) && s@ == fault,
                    None => r matches Ok(plan) && plans(plan, target_view(req.target), req.noop),
                },
            },
    {
        let req = match first {
            None => {
                return Err(Status::invalid_argument("Empty stream".to_owned()));
            },
            Some(Err(e)) => {
                return Err(stream_error(e.as_str()));
            },
            Some(Ok(req)) => req,
        };
        match check_target(clone_target(&req.target)) {
            Err(s) => Err(s),
            Ok(Checked::Instance(name)) => {
                let dial = if req.noop {
                    None
                } else {
                    Some(name.clone())
                };
                Ok(
                    StreamPlan {
                        routing: StreamRouting::Instance { name: name.clone() },
                        label: name,
                        dial,
                    },
                )
            },
            Ok(Checked::Model(model_id)) => {
                match running_model_instances(instances, model_id.as_str()) {
                    Err(s) => Err(s),
                    Ok(_) => {
                        let label = "model:".to_owned().concat(model_id.as_str());
                        Ok(StreamPlan { routing: StreamRouting::Model { model_id }, label, dial: None })
                    },
                }
            },
        }
    }

    /// Settle a stream whose plan was carried out. Fails when the element type
    /// is unknown.
    pub fn arrow_stream_job(&self, plan: StreamPlan, first: &EmbedArrowRequest) -> (r: Result<
        ArrowStreamJob,
        Status,
    >)
        ensures
            match dtype_of(first.output_dtype, self.default_output_dtype) {
                None => r matches Err(s) && s@ == unknown_dtype(first.output_dtype),
                Some(dtype) => r matches Ok(job) && {
                    &&& job.routing == plan.routing
                    &&& job.noop == first.noop
                    &&& job.opts.truncate == first.truncate
                    &&& job.opts.normalize == first.normalize
                    &&& job.opts.truncation_direction == first.truncation_direction
                    &&& super::request::option_text(job.opts.prompt_name)
                        == super::request::option_text(first.prompt_name)
                    &&& job.opts.dimensions == first.dimensions
                    &&& job.output_dtype == dtype
                    &&& job.compression == first.compression
                    &&& job.timeout_secs == self.request_timeout_secs
                    &&& job.max_concurrent == clamped(
                        if first.max_concurrent_batches > 0 {
                            first.max_concurrent_batches as int
                        } else {
                            self.stream_max_concurrent_batches as int
                        },
                    )
                },
            },
    {
        let output_dtype = match self.output_dtype(first.output_dtype) {
            Ok(d) => d,
            Err(s) => {
                return Err(s);
            },
        };
        Ok(
            ArrowStreamJob {
                routing: plan.routing,
                noop: first.noop,
                opts: EmbedArrowOptions::from_request(first),
                output_dtype,
                compression: first.compression,
                timeout_secs: self.request_timeout_secs,
                max_concurrent: self.effective_stream_concurrency(first.max_concurrent_batches),
            },
        )
    }

    /// The instance that the next batch of a stream goes to.
    pub fn batch_instance(&mut self, job: &ArrowStreamJob, instances: &Vec<InstanceSummary>) -> (r:
        Result<String, Status>)
        ensures
            match job.routing {
                StreamRouting::Instance { name } => r matches Ok(n) && n@ == name@ && *final(self)
                    == *old(self),
                StreamRouting::Model { model_id } => {
                    &&& name_view(r) == picked(instances@, model_id@, old(self).route_counter)
                    &&& *final(self) == (TeiMultiplexerService {
                        route_counter: if r is Ok {
                            old(self).route_counter.wrapping_add(1)
                        } else {
                            old(self).route_counter
                        },
                        ..*old(self)
                    })
                },
            },
    {
        match &job.routing {
            StreamRouting::Instance { name } => Ok(name.clone()),
            StreamRouting::Model { model_id } => self.pick_running_instance(
                model_id.as_str(),
                instances,
            ),
        }
    }

    /// Read a batch request: its rows and the element type of the answer. Bad
    /// rows are reported before a bad element type.
    pub fn read_embed_arrow(&self, req: &EmbedArrowRequest) -> (r: Result<
        (Vec<Option<String>>, ArrowOutputDtype),
        Status,
    >)
        ensures
            match stream_rows(req.arrow_ipc@) {
                Err(e) => r matches Err(s) && s@ == e,
                Ok(rows) => match dtype_of(req.output_dtype, self.default_output_dtype) {
                    None => r matches Err(s) && s@ == unknown_dtype(req.output_dtype),
                    Some(dtype) => r matches Ok(p) && texts_view(p.0@) == rows && p.1 == dtype,
                },
            },
    {
        let rows = match parse_text_rows(req.arrow_ipc.as_slice()) {
            Ok(rows) => rows,
            Err(s) => {
                return Err(s);
            },
        };
        match self.output_dtype(req.output_dtype) {
            Ok(dtype) => Ok((rows, dtype)),
            Err(s) => Err(s),
        }
    }

    /// Look at a batch request: where it goes, its rows and the element type of
    /// the answer, in this order. `metrics` learns the instance as soon as it is
    /// known.
    pub fn plan_embed_arrow(
        &mut self,
        req: &EmbedArrowRequest,
        instances: &Vec<InstanceSummary>,
        metrics: &mut MuxRequestMetrics,
    ) -> (r: Result<BatchPlan, Status>)
        ensures
            match resolved(target_view(req.target), instances@, old(self).route_counter) {
                Err(e) => r matches Err(s) && s@ == e,
                Ok(name) => match stream_rows(req.arrow_ipc@) {
                    Err(e) => r matches Err(s) && s@ == e,
                    Ok(_) => match dtype_of(req.output_dtype, old(self).default_output_dtype) {
                        None => r matches Err(s) && s@ == unknown_dtype(req.output_dtype),
                        Some(_) => r matches Ok(plan) && plan.instance@ == name && plan.serves(
                            *req,
                            old(self).default_output_dtype,
                        ),
                    },
                },
            },
            learned(
                *old(metrics),
                *final(metrics),
                resolved(target_view(req.target), instances@, old(self).route_counter),
            ),
            *final(self) == old(self).after_resolving(target_view(req.target), instances@),
    {
        let instance = match self.resolve_target(clone_target(&req.target), instances) {
            Ok(name) => name,
            Err(s) => {
                return Err(s);
            },
        };
        metrics.set_instance(instance.as_str());
        match self.read_embed_arrow(req) {
            Ok((rows, output_dtype)) => Ok(
                BatchPlan { instance, rows, output_dtype, dial: !req.noop },
            ),
            Err(s) => Err(s),
        }
    }

    /// Look at a sparse batch request: where it goes and its rows, in this order.
    /// `metrics` learns the instance as soon as it is known.
    pub fn plan_embed_sparse_arrow(
        &mut self,
        req: &EmbedSparseArrowRequest,
        instances: &Vec<InstanceSummary>,
        metrics: &mut MuxRequestMetrics,
    ) -> (r: Result<SparseBatchPlan, Status>)
        ensures
            match resolved(target_view(req.target), instances@, old(self).route_counter) {
                Err(e) => r matches Err(s) && s@ == e,
                Ok(name) => match stream_rows(req.arrow_ipc@) {
                    Err(e) => r matches Err(s) && s@ == e,
                    Ok(rows) => r matches Ok(plan) && {
                        &&& plan.instance@ == name
                        &&& texts_view(plan.rows@) == rows
                        &&& plan.dial == !req.noop
                    },
                },
            },
            learned(
                *old(metrics),
                *final(metrics),
                resolved(target_view(req.target), instances@, old(self).route_counter),
            ),
            *final(self) == old(self).after_resolving(target_view(req.target), instances@),
    {
        let instance = match self.resolve_target(clone_target(&req.target), instances) {
            Ok(name) => name,
            Err(s) => {
                return Err(s);
            },
        };
        metrics.set_instance(instance.as_str());
        match parse_text_rows(req.arrow_ipc.as_slice()) {
            Ok(rows) => Ok(SparseBatchPlan { instance, rows, dial: !req.noop }),
            Err(s) => Err(s),
        }
    }
}

/// A copy of an optional target.
pub fn clone_target(t: &Option<Target>) -> (r: Option<Target>)
    ensures
        target_view(r) == target_view(*t),
{
    match t {
        None => None,
        Some(t) => Some(
            Target {
                routing: match &t.routing {
                    None => None,
                    Some(Routing::InstanceName(s)) => Some(Routing::InstanceName(s.clone())),
                    Some(Routing::ModelId(s)) => Some(Routing::ModelId(s.clone())),
                    Some(Routing::InstanceIndex(i)) => Some(Routing::InstanceIndex(*i)),
                },
            },
        ),
    }
}

/// What becomes of a request that arrived on a stream of plain requests.
#[derive(Debug)]
pub enum Forward<R> {
    /// It goes on to the backend.
    Send(R),
    /// It carried nothing to send.
    Skip,
    /// Nothing more is sent.
    End,
}

/// What becomes of what arrived next on a stream: nothing more when it has ended
/// or a request did not arrive whole.
pub fn forward<R>(received: Option<Result<Option<R>, String>>) -> (f: Forward<R>)
    ensures
        f == (match received {
            Some(Ok(Some(r))) => Forward::Send(r),
            Some(Ok(None)) => Forward::Skip,
            _ => Forward::End,
        }),
{
    match received {
        Some(Ok(Some(r))) => Forward::Send(r),
        Some(Ok(None)) => Forward::Skip,
        _ => Forward::End,
    }
}

/// What is sent on of what arrives: step by step, up to the end.
pub open spec fn sent_on<R>(received: Seq<Result<Option<R>, String>>) -> Seq<R>
    decreases received.len(),
{
    if received.len() == 0 {
        Seq::empty()
    } else {
        match received[0] {
            Ok(Some(r)) => seq![r] + sent_on(received.drop_first()),
            Ok(None) => sent_on(received.drop_first()),
            Err(_) => Seq::empty(),
        }
    }
}

/// Whatever arrived whole before the first failure is sent on, and nothing after
/// it.
pub proof fn law_requests_are_sent_on_up_to_the_first_failure<R>(
    before: Seq<Result<Option<R>, String>>,
    failure: String,
    after: Seq<Result<Option<R>, String>>,
)
    requires
        forall|i: int| 0 <= i < before.len() ==> #[trigger] before[i] is Ok,
    ensures
        sent_on(before.push(Err(failure)) + after) == sent_on(before),
    decreases before.len(),
{
    let all = before.push(Err(failure)) + after;
    if before.len() > 0 {
        assert(before[0] is Ok);
        assert(all[0] == before[0]);
        let rest = before.drop_first();
        assert(all.drop_first() =~= rest.push(Err(failure)) + after);
        assert forall|i: int| 0 <= i < rest.len() implies #[trigger] rest[i] is Ok by {
            assert(rest[i] == before[i + 1]);
        }
        law_requests_are_sent_on_up_to_the_first_failure(rest, failure, after);
    } else {
        assert(all[0] == Err::<Option<R>, String>(failure));
    }
}

/// The payload of a dense response: one row for each input row and in the same
/// order, as the receiving side reads it.
pub fn dense_payload(
    outcome: &RowOutcomes<Vec<u32>>,
    dtype: ArrowOutputDtype,
    compression: i32,
) -> (r: Result<Vec<u8>, Status>)
    requires
        dense_dim(outcome@) <= u32::MAX,
        row_bytes(error_texts(outcome@)) <= i32::MAX,
    ensures
        odd_dim(outcome@, dense_dim(outcome@)) matches Some(n) ==> (r matches Err(s) && s@
            == status(
            Code::Internal,
            "inconsistent embedding dimensions: "@ + decimal(n) + " vs "@ + decimal(
                dense_dim(outcome@),
            ),
        )),
        odd_dim(outcome@, dense_dim(outcome@)) is None && dense_dim(outcome@) > i32::MAX ==> (
        r matches Err(s) && exists|e: Seq<char>|
            s@ == status(Code::Internal, #[trigger] dense_failure(e, true))),
        odd_dim(outcome@, dense_dim(outcome@)) is None && dense_dim(outcome@) == 0 && all_succeeded(
            outcome@,
        ) && outcome@.len() > 0 ==> (r matches Err(s) && exists|e: Seq<char>|
            s@ == status(Code::Internal, #[trigger] dense_failure(e, false))),
        odd_dim(outcome@, dense_dim(outcome@)) is None && dense_dim(outcome@) <= i32::MAX && (
        dense_dim(outcome@) > 0 || !all_succeeded(outcome@) || outcome@.len() == 0) ==> (
        match compression_of(compression) {
            None => r matches Err(s) && s@ == status(
                Code::InvalidArgument,
                "unknown compression value "@ + signed_decimal(compression as int),
            ),
            Some(lz4) => r matches Ok(bytes) && {
                &&& readable(bytes@)
                &&& first_batch(bytes@) == Ok::<_, ReadFaultView>(dense_response(outcome@, dtype))
                &&& lz4_frames(bytes@) == lz4
                &&& bytes@ == written(dense_response(outcome@, dtype), lz4)
            },
        }),
{
    match dense_batch(outcome, dtype) {
        Ok(batch) => {
            proof {
                let columns = dense_response(outcome@, dtype);
                assert(columns[0].1 is Vectors && columns[1].1 is Utf8);
                assert(survives(columns));
            }
            serialize(&batch, compression)
        },
        Err(s) => Err(s),
    }
}

/// The payload of a sparse response: one row for each input row and in the same
/// order, as the receiving side reads it.
pub fn sparse_payload(outcome: &RowOutcomes<Vec<(u32, u32)>>, compression: i32) -> (r: Result<
    Vec<u8>,
    Status,
>)
    requires
        sparse_entries(outcome@).len() <= i32::MAX,
        row_bytes(error_texts(outcome@)) <= i32::MAX,
    ensures
        compression_of(compression) matches Some(lz4) ==> (r matches Ok(bytes) && {
            &&& readable(bytes@)
            &&& first_batch(bytes@) == Ok::<_, ReadFaultView>(sparse_response(outcome@))
            &&& lz4_frames(bytes@) == lz4
            &&& bytes@ == written(sparse_response(outcome@), lz4)
        }),
        compression_of(compression) is None ==> (r matches Err(s) && s@ == status(
            Code::InvalidArgument,
            "unknown compression value "@ + signed_decimal(compression as int),
        )),
{
    match sparse_batch(outcome) {
        Ok(batch) => {
            proof {
                lemma_sparse_offsets(outcome@);
                let columns = sparse_response(outcome@);
                assert(columns[0].1 is Weights && columns[1].1 is Utf8);
                assert(survives(columns));
            }
            serialize(&batch, compression)
        },
        Err(s) => Err(s),
    }
}

/// Which instance gets a pick does not depend on the order in which instances
/// are listed.
pub proof fn law_picks_do_not_depend_on_listing_order(
    a: Seq<InstanceSummary>,
    b: Seq<InstanceSummary>,
    model: Seq<char>,
    counter: usize,
)
    requires
        serving(a, model).to_multiset() == serving(b, model).to_multiset(),
    ensures
        picked(a, model, counter) == picked(b, model, counter),
{
    lemma_sorted_same(serving(a, model), serving(b, model));
    lemma_sorted(serving(a, model));
    lemma_sorted(serving(b, model));
}

/// A pick goes to an instance that runs and serves the model asked for.
pub proof fn law_picks_run_and_serve_the_model(
    instances: Seq<InstanceSummary>,
    model: Seq<char>,
    counter: usize,
)
    requires
        serving(instances, model).len() > 0,
    ensures
        picked(instances, model, counter) matches Ok(name) && exists|i: int|
            0 <= i < instances.len() && (#[trigger] instances[i]).name@ == name
                && instances[i].model_id@ == model && instances[i].status
                == InstanceStatus::Running,
{
    let names = sorted(serving(instances, model));
    lemma_sorted(serving(instances, model));
    let at = counter as int % names.len() as int;
    vstd::arithmetic::div_mod::lemma_mod_bound(counter as int, names.len() as int);
    assert(names.contains(names[at]));
    lemma_serving(instances, model, names[at]);
}

/// Whether an instance runs and serves a model.
pub open spec fn runs_and_serves(model: Seq<char>) -> spec_fn(InstanceSummary) -> bool {
    |x: InstanceSummary| x.model_id@ == model && x.status == InstanceStatus::Running
}

/// Those that take turns are all the instances that run and serve the model and no
/// others, each as often as it is listed, and in the order of their names. So
/// nothing is found only when no listed instance runs and serves the model.
pub proof fn law_whoever_runs_and_serves_takes_turns(
    instances: Seq<InstanceSummary>,
    model: Seq<char>,
)
    ensures
        serving(instances, model) == instances.filter(runs_and_serves(model)).map_values(
            |x: InstanceSummary| x.name@,
        ),
        forall|i: int|
            0 <= i < instances.len() && (#[trigger] instances[i]).status == InstanceStatus::Running
                && instances[i].model_id@ == model ==> sorted(serving(instances, model)).contains(
                instances[i].name@,
            ),
        forall|name: Seq<char>| #[trigger]
            sorted(serving(instances, model)).contains(name) ==> exists|i: int|
                0 <= i < instances.len() && (#[trigger] instances[i]).name@ == name
                    && instances[i].model_id@ == model && instances[i].status
                    == InstanceStatus::Running,
        sorted(serving(instances, model)).to_multiset() == instances.filter(
            runs_and_serves(model),
        ).map_values(|x: InstanceSummary| x.name@).to_multiset(),
        forall|counter: usize|
            (#[trigger] picked(instances, model, counter)) is Err <==> forall|i: int|
                0 <= i < instances.len() && (#[trigger] instances[i]).model_id@ == model
                    ==> instances[i].status != InstanceStatus::Running,
        forall|counter: usize|
            (#[trigger] picked(instances, model, counter)) matches Err(s) ==> s.code
                == Code::NotFound,
{
    broadcast use vstd::seq_lib::group_to_multiset_ensures;

    let names = serving(instances, model);
    lemma_sorted(names);
    lemma_serving_is_filtered(instances, model);
    assert forall|i: int|
        0 <= i < instances.len() && (#[trigger] instances[i]).status == InstanceStatus::Running
            && instances[i].model_id@ == model implies sorted(names).contains(
        instances[i].name@,
    ) by {
        lemma_serving_all(instances, model, i);
        assert(names.to_multiset().count(instances[i].name@) > 0);
        assert(sorted(names).to_multiset().count(instances[i].name@) > 0);
    }
    assert forall|name: Seq<char>| #[trigger] sorted(names).contains(name) implies exists|i: int|
        0 <= i < instances.len() && (#[trigger] instances[i]).name@ == name
            && instances[i].model_id@ == model && instances[i].status
            == InstanceStatus::Running by {
        lemma_serving(instances, model, name);
    }
    if names.len() > 0 {
        assert(names.contains(names[0]));
        lemma_serving(instances, model, names[0]);
    }
}

/// What serves a model are the names of those that run and serve it, in order.
proof fn lemma_serving_is_filtered(instances: Seq<InstanceSummary>, model: Seq<char>)
    ensures
        serving(instances, model) == instances.filter(runs_and_serves(model)).map_values(
            |x: InstanceSummary| x.name@,
        ),
    decreases instances.len(),
{
    reveal(Seq::filter);
    let picks = |x: InstanceSummary| x.name@;
    if instances.len() == 0 {
        assert(serving(instances, model) =~= instances.filter(runs_and_serves(model)).map_values(
            picks,
        ));
    } else {
        let init = instances.drop_last();
        lemma_serving_is_filtered(init, model);
        assert(serving(instances, model) =~= instances.filter(runs_and_serves(model)).map_values(
            picks,
        ));
    }
}

/// Whoever runs and serves a model serves it.
proof fn lemma_serving_all(instances: Seq<InstanceSummary>, model: Seq<char>, i: int)
    requires
        0 <= i < instances.len(),
        instances[i].status == InstanceStatus::Running,
        instances[i].model_id@ == model,
    ensures
        serving(instances, model).contains(instances[i].name@),
    decreases instances.len(),
{
    let init = instances.drop_last();
    if i < init.len() {
        lemma_serving_all(init, model, i);
        let k = choose|k: int|
            0 <= k < serving(init, model).len() && serving(init, model)[k] == init[i].name@;
        assert(serving(instances, model)[k] == instances[i].name@);
    } else {
        assert(serving(instances, model).last() == instances[i].name@);
    }
}

/// What serves a model is listed, runs and serves it.
proof fn lemma_serving(instances: Seq<InstanceSummary>, model: Seq<char>, name: Seq<char>)
    requires
        serving(instances, model).contains(name),
    ensures
        exists|i: int|
            0 <= i < instances.len() && (#[trigger] instances[i]).name@ == name
                && instances[i].model_id@ == model && instances[i].status
                == InstanceStatus::Running,
    decreases instances.len(),
{
    if instances.len() > 0 {
        let init = instances.drop_last();
        let x = instances.last();
        if x.model_id@ == model && x.status == InstanceStatus::Running && x.name@ == name {
            assert(instances[instances.len() - 1].name@ == name);
        } else {
            let k = choose|k: int|
                0 <= k < serving(instances, model).len() && serving(instances, model)[k] == name;
            assert(serving(init, model)[k] == name);
            assert(serving(init, model).contains(name));
            lemma_serving(init, model, name);
            let i = choose|i: int|
                0 <= i < init.len() && (#[trigger] init[i]).name@ == name && init[i].model_id@
                    == model && init[i].status == InstanceStatus::Running;
            assert(instances[i] == init[i]);
        }
    }
}

/// Turns are taken: while the same instances serve a model, as many picks in a
/// row as there are instances go to each of them once. Picks are numbered
/// without wrapping around.
pub proof fn law_picks_take_turns(
    instances: Seq<InstanceSummary>,
    model: Seq<char>,
    counter: usize,
    which: int,
)
    requires
        0 <= which < serving(instances, model).len(),
        counter + serving(instances, model).len() <= usize::MAX,
    ensures
        exists|turn: int|
            0 <= turn < serving(instances, model).len() && #[trigger] picked(
                instances,
                model,
                (counter + turn) as usize,
            ) == Ok::<_, StatusView>(sorted(serving(instances, model))[which]),
{
    let n = serving(instances, model).len() as int;
    lemma_sorted(serving(instances, model));
    let turn = (which - counter) % n;
    vstd::arithmetic::div_mod::lemma_mod_bound(which - counter, n);
    vstd::arithmetic::div_mod::lemma_add_mod_noop_right(counter as int, which - counter, n);
    vstd::arithmetic::div_mod::lemma_small_mod(which as nat, n as nat);
    assert((counter + turn) % n == which);
    assert(picked(instances, model, (counter + turn) as usize) == Ok::<_, StatusView>(
        sorted(serving(instances, model))[which],
    ));
}

/// A target is fit exactly when it names an instance or a model: what is missing or
/// empty is a bad request, and there is no routing by index.
pub proof fn law_targets_name_an_instance_or_a_model(target: Option<Option<RoutingView>>)
    ensures
        target_fault(target) is None <==> match target {
            Some(Some(RoutingView::InstanceName(name))) => name.len() > 0,
            Some(Some(RoutingView::ModelId(model))) => model.len() > 0,
            _ => false,
        },
        target_fault(target) matches Some(s) ==> s.code == (match target {
            Some(Some(RoutingView::InstanceIndex(_))) => Code::Unimplemented,
            _ => Code::InvalidArgument,
        }) && s.message == (match target {
            None => "Missing target"@,
            Some(None) => "No routing specified"@,
            Some(Some(RoutingView::InstanceName(_))) => "Instance name cannot be empty"@,
            Some(Some(RoutingView::ModelId(_))) => "Model id cannot be empty"@,
            Some(Some(RoutingView::InstanceIndex(_))) => "Index-based routing not yet implemented"@,
        }),
{
}

/// A request goes to the instance that it names, whichever there are, and takes no
/// turn; or to one of those that run and serve the model that it names, and takes
/// one turn; or nowhere, and takes none.
pub proof fn law_requests_go_where_they_ask_to(
    target: Option<Option<RoutingView>>,
    instances: Seq<InstanceSummary>,
    counter: usize,
    service: TeiMultiplexerService,
)
    ensures
        target matches Some(Some(RoutingView::InstanceName(name))) ==> (name.len() > 0 ==> resolved(
            target,
            instances,
            counter,
        ) == Ok::<_, StatusView>(name)) && !takes_a_pick(target, instances),
        target matches Some(Some(RoutingView::ModelId(model))) ==> (resolved(
            target,
            instances,
            counter,
        ) matches Ok(name) ==> exists|i: int|
            0 <= i < instances.len() && (#[trigger] instances[i]).name@ == name
                && instances[i].model_id@ == model && instances[i].status
                == InstanceStatus::Running),
        target matches Some(Some(RoutingView::ModelId(model))) ==> model.len() > 0 ==> (resolved(
            target,
            instances,
            counter,
        ) is Err <==> forall|i: int|
            0 <= i < instances.len() && (#[trigger] instances[i]).model_id@ == model
                ==> instances[i].status != InstanceStatus::Running),
        takes_a_pick(target, instances) <==> (target matches Some(Some(RoutingView::ModelId(_))))
            && resolved(target, instances, counter) is Ok,
        target_fault(target) is Some ==> resolved(target, instances, counter) == Err::<
            Seq<char>,
            StatusView,
        >(target_fault(target)->0),
        service.after_resolving(target, instances).route_counter == (if takes_a_pick(
            target,
            instances,
        ) {
            service.route_counter.wrapping_add(1)
        } else {
            service.route_counter
        }),
{
    if let Some(Some(RoutingView::ModelId(model))) = target {
        law_whoever_runs_and_serves_takes_turns(instances, model);
        assert(picked(instances, model, counter) is Err <==> forall|i: int|
            0 <= i < instances.len() && (#[trigger] instances[i]).model_id@ == model
                ==> instances[i].status != InstanceStatus::Running);
        if serving(instances, model).len() > 0 {
            law_picks_run_and_serve_the_model(instances, model, counter);
        }
    }
}

/// A stream can be opened exactly when its first request names an instance, or a
/// model that some instance runs and serves. It then goes there: to the instance,
/// which is connected to unless rows are made up, or to the model, for which nobody
/// is connected to yet.
pub proof fn law_streams_open_where_there_is_someone(
    target: Option<Option<RoutingView>>,
    instances: Seq<InstanceSummary>,
    plan: StreamPlan,
    noop: bool,
)
    ensures
        open_fault(target, instances) is None <==> match target {
            Some(Some(RoutingView::InstanceName(name))) => name.len() > 0,
            Some(Some(RoutingView::ModelId(model))) => model.len() > 0 && exists|i: int|
                0 <= i < instances.len() && (#[trigger] instances[i]).model_id@ == model
                    && instances[i].status == InstanceStatus::Running,
            _ => false,
        },
        open_fault(target, instances) matches Some(s) ==> (target_fault(target) is None ==> s.code
            == Code::NotFound),
        plans(plan, target, noop) ==> match target {
            Some(Some(RoutingView::InstanceName(name))) => {
                &&& plan.routing matches StreamRouting::Instance { name: n } && n@ == name
                &&& noop ==> plan.dial is None
                &&& !noop ==> (plan.dial matches Some(d) && d@ == name)
            },
            Some(Some(RoutingView::ModelId(model))) => plan.dial is None && (
            plan.routing matches StreamRouting::Model { model_id: m } && m@ == model),
            _ => false,
        },
{
    if let Some(Some(RoutingView::ModelId(model))) = target {
        law_whoever_runs_and_serves_takes_turns(instances, model);
        assert(picked(instances, model, 0) is Err <==> serving(instances, model).len() == 0);
    }
}

/// As many batches are under way as are asked for, but at least one and at most 64.
pub proof fn law_concurrency_is_kept_within_bounds(k: int)
    ensures
        1 <= clamped(k) <= 64,
        1 <= k <= 64 ==> clamped(k) == k,
        k < 1 ==> clamped(k) == 1,
        k > 64 ==> clamped(k) == 64,
{
}

/// A request gets single precision for 1, half precision for 2, the server's own
/// for 0, and is refused for anything else.
pub proof fn law_element_types_are_asked_for_by_number(requested: i32, default: ArrowOutputDtype)
    ensures
        dtype_of(0, default) == Some(default),
        dtype_of(1, default) == Some(ArrowOutputDtype::F32),
        dtype_of(2, default) == Some(ArrowOutputDtype::F16),
        dtype_of(requested, default) is None <==> requested < 0 || requested > 2,
        unknown_dtype(requested).code == Code::InvalidArgument,
{
}

/// A call that is found to go to an instance is recorded for it, and nothing else is
/// learned of it; a call that goes nowhere stays as it was.
pub proof fn law_calls_are_recorded_for_their_instance(
    before: MuxRequestMetrics,
    after: MuxRequestMetrics,
    name: Result<Seq<char>, StatusView>,
)
    requires
        learned(before, after, name),
    ensures
        name matches Ok(n) ==> (after.instance matches Some(s) && s@ == n),
        name is Err ==> after == before,
        after.method@ == before.method@ && after.record_duration == before.record_duration,
        after.ok == before.ok,
{
}

/// Picks go through the names in order: the first goes to the name that comes first,
/// each of the next to the one that follows, and after the last name the first has
/// its turn again.
pub proof fn law_picks_go_through_the_names_in_order(
    instances: Seq<InstanceSummary>,
    model: Seq<char>,
    counter: usize,
    i: int,
)
    requires
        0 <= i < serving(instances, model).len(),
    ensures
        ({
            let n = serving(instances, model).len();
            let at = |c: usize| picked(instances, model, c)->Ok_0;
            &&& crate::sorting::text_le(at(0), serving(instances, model)[i])
            &&& counter as int % n as int + 1 < n && counter < usize::MAX ==> crate::sorting::text_le(
                at(counter),
                at((counter + 1) as usize),
            )
            &&& counter + n <= usize::MAX ==> at((counter + n) as usize) == at(counter)
        }),
{
    let items = serving(instances, model);
    let names = sorted(items);
    let n = items.len() as int;
    lemma_sorted(items);
    broadcast use vstd::seq_lib::group_to_multiset_ensures;

    assert(items.to_multiset().count(items[i]) > 0) by {
        assert(items.contains(items[i]));
    }
    assert(names.contains(items[i]));
    let k = choose|k: int| 0 <= k < names.len() && names[k] == items[i];
    assert(0int % n == 0) by {
        vstd::arithmetic::div_mod::lemma_small_mod(0, n as nat);
    }
    crate::sorting::lemma_text_order();
    let order = crate::sorting::text_order();
    if k > 0 {
        assert(order(names[0], names[k]));
    } else {
        assert(order(names[0], names[0]));
    }
    let c = counter as int;
    vstd::arithmetic::div_mod::lemma_mod_bound(c, n);
    if c % n + 1 < n {
        vstd::arithmetic::div_mod::lemma_add_mod_noop(c, 1, n);
        vstd::arithmetic::div_mod::lemma_small_mod(1, n as nat);
        vstd::arithmetic::div_mod::lemma_small_mod((c % n + 1) as nat, n as nat);
        assert((c + 1) % n == c % n + 1);
        assert(order(names[c % n], names[c % n + 1]));
    }
    vstd::arithmetic::div_mod::lemma_mod_add_multiples_vanish(c, n);
}

/// A model that nothing serves is told by its name.
pub proof fn law_models_that_nothing_serves_are_named(model: Seq<char>)
    ensures
        nothing_serves(model).code == Code::NotFound,
        nothing_serves(model).message == "No running instance for model '"@ + model + "'"@,
{
}

/// Calls go by the names of their methods.
pub proof fn law_methods_go_by_their_names()
    ensures
        Method::Info.spelled() == "info"@ && Method::Embed.spelled() == "embed"@,
        Method::EmbedSparse.spelled() == "embed_sparse"@ && Method::EmbedAll.spelled()
            == "embed_all"@,
        Method::Predict.spelled() == "predict"@ && Method::PredictPair.spelled() == "predict_pair"@,
        Method::Rerank.spelled() == "rerank"@ && Method::Tokenize.spelled() == "tokenize"@,
        Method::Decode.spelled() == "decode"@,
{
}

/// A plan for a request holds the texts that were sent, in the element type asked
/// for, and connects to the instance exactly when the answer is not to be made up.
pub proof fn law_plans_do_what_was_asked(
    plan: BatchPlan,
    req: EmbedArrowRequest,
    default: ArrowOutputDtype,
)
    requires
        plan.serves(req, default),
    ensures
        plan.dial <==> !req.noop,
        stream_rows(req.arrow_ipc@) matches Ok(texts) && texts.len() == plan.rows@.len(),
        req.output_dtype == 1 ==> plan.output_dtype == ArrowOutputDtype::F32,
        req.output_dtype == 2 ==> plan.output_dtype == ArrowOutputDtype::F16,
        req.output_dtype == 0 ==> plan.output_dtype == default,
{
}

} // verus!
