//! One backend instance: how its process is started, what its log says, and the
//! states it goes through.

use vstd::prelude::*;

use crate::config::{InstanceConfig, UnixNanos};
use crate::grpc::request::{clone_text, option_text};
use crate::text::{
    after_prefix, contains, contains_text, decimal, decimal_string, lines, lines_of, list_contains,
    pieces_view, signed_decimal, signed_decimal_string, text_of, texts, trim, trimmed,
};

verus! {

/// Seconds that a process gets to stop before it is killed.
pub const STOP_TIMEOUT_SECS: u64 = 30;

/// Seconds between stopping and starting in a restart.
pub const RESTART_PAUSE_SECS: u64 = 2;

/// Bytes at the end of a log that are searched for an error.
pub const LOG_TAIL_BYTES: u64 = 16384;

/// Bytes at the start of a log that are searched for a fallback to the CPU.
pub const LOG_HEAD_BYTES: u64 = 65536;

/// What a backend process is started with.
#[derive(Debug, Clone)]
pub struct SpawnConfig {
    pub instance_name: String,
    pub binary_path: String,
    pub model_id: String,
    pub port: u16,
    pub max_batch_tokens: u32,
    pub max_concurrent_requests: u32,
    pub pooling: Option<String>,
    pub gpu_id: Option<u32>,
    pub prometheus_port: Option<u16>,
    pub extra_args: Vec<String>,
    /// What the process logs.
    pub log_level: String,
}

/// Stands for a started process.
#[derive(Debug, Clone, PartialEq, Eq)]
pub struct ProcessHandle {
    pub id: String,
}

/// How a process ended, with the most telling line of its log.
#[derive(Debug, Clone, PartialEq, Eq)]
pub struct ProcessExit {
    /// The exit code, if it exited by itself.
    pub code: Option<i32>,
    /// The signal, if one killed it.
    pub signal: Option<i32>,
    pub last_log_error: Option<String>,
}

/// The state that an instance is in.
#[derive(Debug, Clone, Copy, PartialEq, Eq, Structural)]
pub enum InstanceStatus {
    Starting,
    Running,
    Stopping,
    Stopped,
    Failed,
}

/// What is counted and noted of an instance.
#[derive(Debug, Clone)]
pub struct InstanceStats {
    pub started_at: Option<UnixNanos>,
    /// Restarts in all, by hand or automatic.
    pub restarts: u32,
    pub last_health_check: Option<UnixNanos>,
    pub health_check_failures: u32,
    /// Why the instance failed last.
    pub last_error: Option<String>,
    /// When the last automatic restart was tried.
    pub last_restart_at: Option<UnixNanos>,
    /// Automatic restarts in a row since the instance was last healthy or
    /// restarted by hand.
    pub backoff_restarts: u32,
}

impl Default for InstanceStats {
    fn default() -> (s: Self)
        ensures
            s.started_at is None,
            s.restarts == 0,
            s.last_health_check is None,
            s.health_check_failures == 0,
            s.last_error is None,
            s.last_restart_at is None,
            s.backoff_restarts == 0,
    {
        InstanceStats {
            started_at: None,
            restarts: 0,
            last_health_check: None,
            health_check_failures: 0,
            last_error: None,
            last_restart_at: None,
            backoff_restarts: 0,
        }
    }
}

impl ProcessExit {
    /// What `to_string` says.
    pub open spec fn text(self) -> Seq<char> {
        let how = match (self.code, self.signal) {
            (Some(code), _) => "process exited with code "@ + signed_decimal(code as int),
            (None, Some(signal)) => "process killed by signal "@ + signed_decimal(signal as int),
            (None, None) => "process exited"@,
        };
        match self.last_log_error {
            Some(line) => how + ": "@ + line@,
            None => how,
        }
    }

    /// How the process ended, in words.
    pub fn to_string(&self) -> (s: String)
        ensures
            s@ == self.text(),
    {
        let how = match (self.code, self.signal) {
            (Some(code), _) => "process exited with code ".to_owned().concat(
                signed_decimal_string(code as i64).as_str(),
            ),
            (None, Some(signal)) => "process killed by signal ".to_owned().concat(
                signed_decimal_string(signal as i64).as_str(),
            ),
            (None, None) => "process exited".to_owned(),
        };
        match &self.last_log_error {
            Some(line) => how.concat(": ").concat(line.as_str()),
            None => how,
        }
    }
}

/// The arguments that every backend gets.
pub open spec fn base_args(c: SpawnConfig) -> Seq<Seq<char>> {
    seq![
        "--model-id"@,
        c.model_id@,
        "--port"@,
        decimal(c.port as nat),
        "--max-batch-tokens"@,
        decimal(c.max_batch_tokens as nat),
        "--max-concurrent-requests"@,
        decimal(c.max_concurrent_requests as nat),
        "--json-output"@,
    ]
}

/// The arguments for pooling, if it is set.
pub open spec fn pooling_args(c: SpawnConfig) -> Seq<Seq<char>> {
    match c.pooling {
        Some(p) => seq!["--pooling"@, p@],
        None => Seq::empty(),
    }
}

/// Whether the further arguments set the metrics port themselves.
pub open spec fn sets_prometheus_port(args: Seq<String>) -> bool {
    exists|i: int| 0 <= i < args.len() && (#[trigger] args[i])@ == "--prometheus-port"@
}

/// The arguments for the metrics port, if it is set and not set again among the
/// further arguments.
pub open spec fn prometheus_args(c: SpawnConfig) -> Seq<Seq<char>> {
    match c.prometheus_port {
        Some(p) => if sets_prometheus_port(c.extra_args@) {
            Seq::empty()
        } else {
            seq!["--prometheus-port"@, decimal(p as nat)]
        },
        None => Seq::empty(),
    }
}

/// The whole command line, without the program.
pub open spec fn command_args(c: SpawnConfig) -> Seq<Seq<char>> {
    base_args(c) + pooling_args(c) + prometheus_args(c) + texts(c.extra_args@)
}

impl SpawnConfig {
    /// The command line, without the program.
    pub fn args(&self) -> (args: Vec<String>)
        ensures
            texts(args@) == command_args(*self),
            texts(args@).take(2) == seq!["--model-id"@, self.model_id@],
            texts(args@).subrange(2, 4) == seq!["--port"@, decimal(self.port as nat)],
            texts(args@).skip(args@.len() - self.extra_args@.len()) == texts(self.extra_args@),
    {
        let mut args: Vec<String> = Vec::new();
        args.push("--model-id".to_owned());
        args.push(self.model_id.clone());
        args.push("--port".to_owned());
        args.push(decimal_string(self.port as u64));
        args.push("--max-batch-tokens".to_owned());
        args.push(decimal_string(self.max_batch_tokens as u64));
        args.push("--max-concurrent-requests".to_owned());
        args.push(decimal_string(self.max_concurrent_requests as u64));
        args.push("--json-output".to_owned());
        assert(texts(args@) =~= base_args(*self));
        if let Some(p) = &self.pooling {
            args.push("--pooling".to_owned());
            args.push(p.clone());
        }
        assert(texts(args@) =~= base_args(*self) + pooling_args(*self));
        let set_already: bool = list_contains(&self.extra_args, "--prometheus-port");
        if let Some(p) = self.prometheus_port {
            if !set_already {
                args.push("--prometheus-port".to_owned());
                args.push(decimal_string(p as u64));
            }
        }
        let ghost own = base_args(*self) + pooling_args(*self) + prometheus_args(*self);
        assert(texts(args@) =~= own);
        let mut i: usize = 0;
        assert(texts(self.extra_args@).take(0) =~= Seq::<Seq<char>>::empty());
        while i < self.extra_args.len()
            invariant
                i <= self.extra_args@.len(),
                texts(args@) == own + texts(self.extra_args@).take(i as int),
            decreases self.extra_args@.len() - i,
        {
            let ghost before = texts(args@);
            args.push(self.extra_args[i].clone());
            assert(texts(args@) =~= before.push(self.extra_args@[i as int]@));
            i = i + 1;
            assert(texts(args@) =~= own + texts(self.extra_args@).take(i as int));
        }
        assert(texts(self.extra_args@).take(i as int) =~= texts(self.extra_args@));
        proof {
            law_backends_are_told_their_settings(*self);
            assert(texts(args@).len() == args@.len());
        }
        args
    }

    /// The environment that the process gets on top of the manager's: what it
    /// logs, and the GPU it may see when it is bound to one.
    pub fn env(&self) -> (vars: Vec<(String, String)>)
        ensures
            vars@.len() == (if self.gpu_id is Some {
                2int
            } else {
                1int
            }),
            vars@[0].0@ == "RUST_LOG"@,
            vars@[0].1@ == self.log_level@,
            self.gpu_id matches Some(gpu) ==> vars@[1].0@ == "CUDA_VISIBLE_DEVICES"@
                && vars@[1].1@ == decimal(gpu as nat),
    {
        let mut vars: Vec<(String, String)> = Vec::new();
        vars.push(("RUST_LOG".to_owned(), self.log_level.clone()));
        if let Some(gpu) = self.gpu_id {
            vars.push(("CUDA_VISIBLE_DEVICES".to_owned(), decimal_string(gpu as u64)));
        }
        vars
    }

    /// The name of the file that the process logs to.
    pub fn log_file_name(&self) -> (s: String)
        ensures
            s@ == self.instance_name@ + ".log"@,
    {
        log_file_name(self.instance_name.as_str())
    }
}

/// The name of the file that an instance logs to.
pub fn log_file_name(instance_name: &str) -> (s: String)
    ensures
        s@ == instance_name@ + ".log"@,
{
    instance_name.to_owned().concat(".log")
}

/// The directory for logs: the one set, else the usual one.
pub fn log_dir(set: Option<String>) -> (s: String)
    ensures
        s@ == (match set {
            Some(dir) => dir@,
            None => "/data/logs"@,
        }),
{
    match set {
        Some(dir) => dir,
        None => "/data/logs".to_owned(),
    }
}

/// The directory for logs when the first choice cannot be created.
pub fn fallback_log_dir() -> (s: String)
    ensures
        s@ == "/tmp/tei-manager/logs"@,
{
    "/tmp/tei-manager/logs".to_owned()
}

/// The handle of the process with this id.
pub fn handle_for_pid(pid: u32) -> (h: ProcessHandle)
    ensures
        h.id@ == "process_"@ + decimal(pid as nat),
{
    ProcessHandle { id: "process_".to_owned().concat(decimal_string(pid as u64).as_str()) }
}

/// The string under `key` in the object that a line of JSON holds, if it is one
/// and has it.
pub uninterp spec fn json_text(line: Seq<char>, key: Seq<char>) -> Option<Seq<char>>;

/// `serde_json::from_str` to a `Value`, then `Value::get` and `Value::as_str`:
/// what a line of JSON holds under a key. It depends on the line and the key
/// alone and is named, not described.
#[verifier::external_body]
fn text_field(line: &str, key: &str) -> (r: Option<String>)
    ensures
        option_text(r) == json_text(line@, key@),
{
    let value: serde_json::Value = serde_json::from_str(line).ok()?;
    value.get(key)?.as_str().map(str::to_string)
}

/// What marks a line that reports an error.
pub open spec fn marks_error(line: Seq<char>) -> bool {
    contains(line, "\"level\":\"ERROR\""@)
}

/// The last of `items` that is there.
pub open spec fn last_some(items: Seq<Option<Seq<char>>>) -> Option<Seq<char>>
    decreases items.len(),
{
    if items.len() == 0 {
        None
    } else if items.last() is Some {
        items.last()
    } else {
        last_some(items.drop_last())
    }
}

/// The last line that begins with `Error:`, without white space at its ends.
pub open spec fn last_plain_error(ls: Seq<Seq<char>>) -> Option<Seq<char>>
    decreases ls.len(),
{
    if ls.len() == 0 {
        None
    } else if "Error:"@.is_prefix_of(ls.last()) {
        Some(trimmed(ls.last()))
    } else {
        last_plain_error(ls.drop_last())
    }
}

/// The error that a log reports: the last of the messages that its error lines
/// carry, or else the last plain error line.
pub open spec fn picked_error(ls: Seq<Seq<char>>, messages: Seq<Option<Seq<char>>>) -> Option<
    Seq<char>,
> {
    match last_some(messages) {
        Some(m) => Some(m),
        None => last_plain_error(ls),
    }
}

/// The messages that the error lines of a log carry.
pub open spec fn error_messages(ls: Seq<Seq<char>>) -> Seq<Option<Seq<char>>> {
    Seq::new(
        ls.len(),
        |i: int|
            if marks_error(ls[i]) {
                json_text(ls[i], "message"@)
            } else {
                None
            },
    )
}

/// Optional texts as sequences.
pub open spec fn options_view(items: Seq<Option<String>>) -> Seq<Option<Seq<char>>> {
    Seq::new(items.len(), |i: int| option_text(items[i]))
}

/// The error that the lines of a log report, given the messages of those that
/// carry one.
pub fn pick_log_error(ls: &Vec<Vec<char>>, messages: &Vec<Option<String>>) -> (r: Option<String>)
    ensures
        option_text(r) == picked_error(pieces_view(ls@), options_view(messages@)),
{
    let mut n: usize = messages.len();
    assert(options_view(messages@).take(n as int) =~= options_view(messages@));
    while n > 0
        invariant
            n <= messages@.len(),
            last_some(options_view(messages@)) == last_some(
                options_view(messages@).take(n as int),
            ),
        decreases n,
    {
        let ghost upto = options_view(messages@).take(n as int);
        assert(upto.last() == option_text(messages@[n - 1]));
        assert(upto.drop_last() =~= options_view(messages@).take(n - 1));
        if let Some(m) = &messages[n - 1] {
            return Some(m.clone());
        }
        n = n - 1;
    }
    let mut k: usize = ls.len();
    assert(pieces_view(ls@).take(k as int) =~= pieces_view(ls@));
    while k > 0
        invariant
            k <= ls@.len(),
            last_some(options_view(messages@)) is None,
            last_plain_error(pieces_view(ls@)) == last_plain_error(
                pieces_view(ls@).take(k as int),
            ),
        decreases k,
    {
        let ghost upto = pieces_view(ls@).take(k as int);
        assert(upto.last() == ls@[k - 1]@);
        assert(upto.drop_last() =~= pieces_view(ls@).take(k - 1));
        if let Some(_) = after_prefix(&ls[k - 1], "Error:") {
            let t = trim(&ls[k - 1]);
            let s = text_of(&t, 0, t.len());
            assert(s@ =~= t@);
            return Some(s);
        }
        k = k - 1;
    }
    None
}

/// The most telling error line of a log, given its last part.
pub fn last_log_error(tail: &str) -> (r: Option<String>)
    ensures
        option_text(r) == picked_error(lines(tail@), error_messages(lines(tail@))),
{
    let ls = lines_of(tail);
    let mut messages: Vec<Option<String>> = Vec::new();
    let mut i: usize = 0;
    while i < ls.len()
        invariant
            i <= ls@.len(),
            messages@.len() == i,
            forall|k: int|
                0 <= k < i ==> option_text(#[trigger] messages@[k]) == error_messages(
                    pieces_view(ls@),
                )[k],
        decreases ls@.len() - i,
    {
        assert(pieces_view(ls@)[i as int] == ls@[i as int]@);
        if contains_text(&ls[i], "\"level\":\"ERROR\"") {
            let line = text_of(&ls[i], 0, ls[i].len());
            assert(line@ =~= ls@[i as int]@);
            messages.push(text_field(line.as_str(), "message"));
        } else {
            messages.push(None);
        }
        i = i + 1;
    }
    assert(options_view(messages@) =~= error_messages(pieces_view(ls@)));
    pick_log_error(&ls, &messages)
}

/// What marks a line that says the model runs on a GPU.
pub open spec fn marks_gpu(line: Seq<char>) -> bool {
    contains(line, "on Cuda("@)
}

/// What marks a line that says the model runs on the CPU instead.
pub open spec fn marks_fallback(line: Seq<char>) -> bool {
    contains(line, "Using CPU instead"@) || contains(line, "Could not create backend"@)
}

/// The last evidence of a fallback, given the messages that lines carry. A
/// later line about a GPU clears it: the log spans restarts, and the last run
/// counts.
pub open spec fn evidence(ls: Seq<Seq<char>>, messages: Seq<Option<Seq<char>>>) -> Option<Seq<char>>
    decreases ls.len(),
{
    if ls.len() == 0 {
        None
    } else {
        let line = ls.last();
        if marks_gpu(line) {
            None
        } else if marks_fallback(line) {
            match messages[ls.len() - 1] {
                Some(m) => Some(m),
                None => Some(trimmed(line)),
            }
        } else {
            evidence(ls.drop_last(), messages)
        }
    }
}

/// The messages that the fallback lines of a log carry.
pub open spec fn fallback_messages(ls: Seq<Seq<char>>) -> Seq<Option<Seq<char>>> {
    Seq::new(
        ls.len(),
        |i: int|
            if !marks_gpu(ls[i]) && marks_fallback(ls[i]) {
                json_text(ls[i], "message"@)
            } else {
                None
            },
    )
}

/// The evidence of a fallback in the lines of a log, given the messages of those
/// that carry one.
pub fn pick_evidence(ls: &Vec<Vec<char>>, messages: &Vec<Option<String>>) -> (r: Option<String>)
    requires
        messages@.len() == ls@.len(),
    ensures
        option_text(r) == evidence(pieces_view(ls@), options_view(messages@)),
{
    let mut found: Option<String> = None;
    let mut i: usize = 0;
    assert(pieces_view(ls@).take(0) =~= Seq::<Seq<char>>::empty());
    while i < ls.len()
        invariant
            i <= ls@.len(),
            messages@.len() == ls@.len(),
            option_text(found) == evidence(
                pieces_view(ls@).take(i as int),
                options_view(messages@),
            ),
        decreases ls@.len() - i,
    {
        let ghost upto = pieces_view(ls@).take(i + 1);
        assert(upto.last() == ls@[i as int]@);
        assert(upto.drop_last() =~= pieces_view(ls@).take(i as int));
        assert(options_view(messages@)[i as int] == option_text(messages@[i as int]));
        if contains_text(&ls[i], "on Cuda(") {
            found = None;
        } else if contains_text(&ls[i], "Using CPU instead") || contains_text(
            &ls[i],
            "Could not create backend",
        ) {
            found = match &messages[i] {
                Some(m) => Some(m.clone()),
                None => {
                    let t = trim(&ls[i]);
                    let s = text_of(&t, 0, t.len());
                    assert(s@ =~= t@);
                    Some(s)
                },
            };
        }
        i = i + 1;
    }
    assert(pieces_view(ls@).take(i as int) =~= pieces_view(ls@));
    found
}

/// Evidence in a log, given its first part, that the model fell back to the CPU.
pub fn gpu_fallback_evidence(head: &str) -> (r: Option<String>)
    ensures
        option_text(r) == evidence(lines(head@), fallback_messages(lines(head@))),
{
    let ls = lines_of(head);
    let mut messages: Vec<Option<String>> = Vec::new();
    let mut i: usize = 0;
    while i < ls.len()
        invariant
            i <= ls@.len(),
            messages@.len() == i,
            forall|k: int|
                0 <= k < i ==> option_text(#[trigger] messages@[k]) == fallback_messages(
                    pieces_view(ls@),
                )[k],
        decreases ls@.len() - i,
    {
        assert(pieces_view(ls@)[i as int] == ls@[i as int]@);
        if !contains_text(&ls[i], "on Cuda(") && (contains_text(&ls[i], "Using CPU instead")
            || contains_text(&ls[i], "Could not create backend")) {
            let line = text_of(&ls[i], 0, ls[i].len());
            assert(line@ =~= ls@[i as int]@);
            messages.push(text_field(line.as_str(), "message"));
        } else {
            messages.push(None);
        }
        i = i + 1;
    }
    assert(options_view(messages@) =~= fallback_messages(pieces_view(ls@)));
    pick_evidence(&ls, &messages)
}

/// A line about a GPU clears whatever evidence stands before it, and a line
/// about nothing of the kind leaves it as it was.
pub proof fn law_last_backend_choice_counts(
    ls: Seq<Seq<char>>,
    messages: Seq<Option<Seq<char>>>,
    line: Seq<char>,
)
    ensures
        marks_gpu(line) ==> evidence(ls.push(line), messages) is None,
        !marks_gpu(line) && marks_fallback(line) ==> evidence(ls.push(line), messages) is Some,
        !marks_gpu(line) && !marks_fallback(line) ==> evidence(ls.push(line), messages) == evidence(
            ls,
            messages,
        ),
{
    assert(ls.push(line).drop_last() =~= ls);
}

/// What asking after a process gave.
#[derive(Debug)]
pub enum WaitOutcome {
    /// It ended, by itself or by a signal.
    Exited { code: Option<i32>, signal: Option<i32> },
    /// It still runs.
    Running,
    /// It could not be told.
    Unknown,
}

/// How a process that was asked after ended, if it did, given the last part of
/// its log. One of which nothing could be told counts as running.
pub fn reap(outcome: WaitOutcome, log_tail: Option<&str>) -> (r: Option<ProcessExit>)
    ensures
        match outcome {
            WaitOutcome::Exited { code, signal } => r matches Some(exit) && exit.code == code
                && exit.signal == signal && option_text(exit.last_log_error) == (match log_tail {
                Some(tail) => picked_error(lines(tail@), error_messages(lines(tail@))),
                None => None,
            }),
            _ => r is None,
        },
{
    match outcome {
        WaitOutcome::Exited { code, signal } => {
            let found = match log_tail {
                Some(tail) => last_log_error(tail),
                None => None,
            };
            Some(ProcessExit { code, signal, last_log_error: found })
        },
        _ => None,
    }
}

/// An instance: its settings, its process if it has one, and its state.
#[derive(Debug, Clone)]
pub struct TeiInstance {
    pub config: InstanceConfig,
    pub process: Option<ProcessHandle>,
    pub status: InstanceStatus,
    pub stats: InstanceStats,
}

/// A copy of `items`.
pub(crate) fn clone_texts(items: &Vec<String>) -> (r: Vec<String>)
    ensures
        r@ == items@,
{
    let mut r: Vec<String> = Vec::new();
    let mut i: usize = 0;
    while i < items.len()
        invariant
            i <= items@.len(),
            r@ == items@.take(i as int),
        decreases items@.len() - i,
    {
        r.push(items[i].clone());
        i = i + 1;
        assert(r@ =~= items@.take(i as int));
    }
    assert(r@ =~= items@);
    r
}

impl TeiInstance {
    /// A stopped instance.
    pub fn new(config: InstanceConfig) -> (i: Self)
        ensures
            i.config == config,
            i.process is None,
            i.status == InstanceStatus::Stopped,
            i.stats.started_at is None,
            i.stats.restarts == 0,
            i.stats.last_health_check is None,
            i.stats.health_check_failures == 0,
            i.stats.last_error is None,
            i.stats.last_restart_at is None,
            i.stats.backoff_restarts == 0,
    {
        TeiInstance {
            config,
            process: None,
            status: InstanceStatus::Stopped,
            stats: InstanceStats::default(),
        }
    }

    /// What the process of this instance is started with.
    pub fn spawn_config(&self, tei_binary_path: &str, log_level: &str) -> (c: SpawnConfig)
        ensures
            c.instance_name@ == self.config.name@,
            c.binary_path@ == tei_binary_path@,
            c.model_id@ == self.config.model_id@,
            c.port == self.config.port,
            c.max_batch_tokens == self.config.max_batch_tokens,
            c.max_concurrent_requests == self.config.max_concurrent_requests,
            option_text(c.pooling) == option_text(self.config.pooling),
            c.gpu_id == self.config.gpu_id,
            c.prometheus_port == self.config.prometheus_port,
            c.extra_args@ == self.config.extra_args@,
            c.log_level@ == log_level@,
    {
        SpawnConfig {
            instance_name: self.config.name.clone(),
            binary_path: tei_binary_path.to_owned(),
            model_id: self.config.model_id.clone(),
            port: self.config.port,
            max_batch_tokens: self.config.max_batch_tokens,
            max_concurrent_requests: self.config.max_concurrent_requests,
            pooling: clone_text(&self.config.pooling),
            gpu_id: self.config.gpu_id,
            prometheus_port: self.config.prometheus_port,
            extra_args: clone_texts(&self.config.extra_args),
            log_level: log_level.to_owned(),
        }
    }

    /// The instance after its process was started.
    pub open spec fn after_start(self, process: ProcessHandle, now: UnixNanos) -> Self {
        TeiInstance {
            process: Some(process),
            status: InstanceStatus::Starting,
            stats: InstanceStats { started_at: Some(now), last_error: None, ..self.stats },
            ..self
        }
    }

    /// The instance once its process is being stopped.
    pub open spec fn while_stopping(self) -> Self {
        TeiInstance { process: None, status: InstanceStatus::Stopping, ..self }
    }

    /// The instance after its process was stopped.
    pub open spec fn after_stop(self) -> Self {
        TeiInstance { status: InstanceStatus::Stopped, ..self }
    }

    /// The instance after a restart was completed.
    pub open spec fn after_restart(self) -> Self {
        TeiInstance {
            stats: InstanceStats { restarts: (self.stats.restarts + 1) as u32, ..self.stats },
            ..self
        }
    }

    /// The process was started.
    pub fn started(&mut self, process: ProcessHandle, now: UnixNanos)
        ensures
            *final(self) == old(self).after_start(process, now),
    {
        self.process = Some(process);
        self.status = InstanceStatus::Starting;
        self.stats.started_at = Some(now);
        self.stats.last_error = None;
    }

    /// Begin to stop: the process to stop, if there is one.
    pub fn begin_stop(&mut self) -> (process: Option<ProcessHandle>)
        ensures
            process == old(self).process,
            *final(self) == old(self).while_stopping(),
    {
        self.status = InstanceStatus::Stopping;
        self.process.take()
    }

    /// The process was stopped, or there was none.
    pub fn stopped(&mut self)
        ensures
            *final(self) == old(self).after_stop(),
    {
        self.status = InstanceStatus::Stopped;
    }

    /// A restart was completed: the instance was stopped and started again.
    pub fn restarted(&mut self)
        requires
            old(self).stats.restarts < u32::MAX,
        ensures
            *final(self) == old(self).after_restart(),
    {
        self.stats.restarts = self.stats.restarts + 1;
    }

    /// Forget automatic restarts, as after a start or restart by hand.
    pub fn reset_restart_backoff(&mut self)
        ensures
            *final(self) == (TeiInstance {
                stats: InstanceStats {
                    backoff_restarts: 0,
                    last_restart_at: None,
                    ..old(self).stats
                },
                ..*old(self)
            }),
    {
        self.stats.backoff_restarts = 0;
        self.stats.last_restart_at = None;
    }

    /// The instance after it failed.
    pub open spec fn after_failure(self, reason: String) -> Self {
        TeiInstance {
            status: InstanceStatus::Failed,
            stats: InstanceStats { last_error: Some(reason), ..self.stats },
            ..self
        }
    }

    /// The instance failed, for this reason.
    pub fn mark_failed(&mut self, reason: String)
        ensures
            *final(self) == old(self).after_failure(reason),
    {
        self.stats.last_error = Some(reason);
        self.status = InstanceStatus::Failed;
    }
}

/// What happens while a process is being stopped.
#[derive(Debug, Clone, Copy, PartialEq, Eq, Structural)]
pub enum StopEvent {
    /// It is to be stopped.
    Begun,
    /// It has ended.
    Exited,
    /// It has not ended in the time that it had.
    TimedOut,
}

/// What is done to stop a process.
#[derive(Debug, Clone, Copy, PartialEq, Eq, Structural)]
pub enum StopAction {
    /// Ask it to end, and give it some time.
    Terminate,
    /// End it, and wait.
    Kill,
    /// Nothing more.
    Done,
}

/// How a process is stopped: it is asked to end, and made to when it does not.
pub fn stop_action(event: StopEvent) -> (a: StopAction)
    ensures
        a == (match event {
            StopEvent::Begun => StopAction::Terminate,
            StopEvent::TimedOut => StopAction::Kill,
            StopEvent::Exited => StopAction::Done,
        }),
{
    match event {
        StopEvent::Begun => StopAction::Terminate,
        StopEvent::TimedOut => StopAction::Kill,
        StopEvent::Exited => StopAction::Done,
    }
}

/// A restart keeps the settings, ends in `Starting` with the new process and
/// start time and without an error, and counts one restart more.
pub proof fn law_restart(i: TeiInstance, process: ProcessHandle, now: UnixNanos)
    requires
        i.stats.restarts < u32::MAX,
    ensures
        ({
            let r = i.while_stopping().after_stop().after_start(process, now).after_restart();
            &&& r.config == i.config
            &&& r.process == Some(process)
            &&& r.status == InstanceStatus::Starting
            &&& r.stats == (InstanceStats {
                started_at: Some(now),
                last_error: None,
                restarts: (i.stats.restarts + 1) as u32,
                ..i.stats
            })
            &&& r.stats.restarts == i.stats.restarts + 1
        }),
{
}

/// A backend is told its model, its port, how many tokens and requests it may take,
/// to log in JSON, its pooling where that is set, and its port for metrics where
/// that is set and the further arguments do not set it; the further arguments come
/// last, as they are, and nothing else is said.
pub proof fn law_backends_are_told_their_settings(c: SpawnConfig)
    ensures
        ({
            let args = command_args(c);
            let own = args.len() - c.extra_args@.len();
            let set_there = exists|i: int|
                0 <= i < c.extra_args@.len() && (#[trigger] c.extra_args@[i])@
                    == "--prometheus-port"@;
            let metrics = c.prometheus_port is Some && !set_there;
            &&& own == 9 + (if c.pooling is Some {
                2int
            } else {
                0int
            }) + (if metrics {
                2int
            } else {
                0int
            })
            &&& args.skip(own) == texts(c.extra_args@)
            &&& args.take(2) == seq!["--model-id"@, c.model_id@]
            &&& args.subrange(2, 4) == seq!["--port"@, decimal(c.port as nat)]
            &&& args.subrange(4, 6) == seq![
                "--max-batch-tokens"@,
                decimal(c.max_batch_tokens as nat),
            ]
            &&& args.subrange(6, 8) == seq![
                "--max-concurrent-requests"@,
                decimal(c.max_concurrent_requests as nat),
            ]
            &&& args[8] == "--json-output"@
            &&& c.pooling matches Some(p) ==> args.subrange(9, 11) == seq!["--pooling"@, p@]
            &&& c.prometheus_port matches Some(p) ==> metrics ==> args.subrange(own - 2, own)
                == seq!["--prometheus-port"@, decimal(p as nat)]
        }),
{
    let args = command_args(c);
    assert(args.skip(args.len() - c.extra_args@.len()) =~= texts(c.extra_args@));
    assert(args.take(2) =~= seq!["--model-id"@, c.model_id@]);
    assert(args.subrange(2, 4) =~= seq!["--port"@, decimal(c.port as nat)]);
    assert(args.subrange(4, 6) =~= seq!["--max-batch-tokens"@, decimal(c.max_batch_tokens as nat)]);
    assert(args.subrange(6, 8) =~= seq![
        "--max-concurrent-requests"@,
        decimal(c.max_concurrent_requests as nat),
    ]);
    if let Some(p) = c.pooling {
        assert(args.subrange(9, 11) =~= seq!["--pooling"@, p@]);
    }
    if let Some(p) = c.prometheus_port {
        let own = args.len() - c.extra_args@.len();
        if !sets_prometheus_port(c.extra_args@) {
            assert(args.subrange(own - 2, own) =~= seq!["--prometheus-port"@, decimal(p as nat)]);
        }
    }
}

/// How a process ended is told by its exit code, or else by the signal that killed
/// it, and the last error of its log comes behind.
pub proof fn law_exits_are_told(exit: ProcessExit)
    ensures
        ({
            let how = if exit.code is Some {
                "process exited with code "@ + signed_decimal(exit.code->0 as int)
            } else if exit.signal is Some {
                "process killed by signal "@ + signed_decimal(exit.signal->0 as int)
            } else {
                "process exited"@
            };
            &&& exit.last_log_error is None ==> exit.text() == how
            &&& exit.last_log_error matches Some(line) ==> exit.text() == how + ": "@ + line@
        }),
{
}

/// The error that a log reports is the last message that an error line carries; only
/// where no error line carries one is it the last line that begins with `Error:`,
/// and only where there is none of these is there no error.
pub proof fn law_the_last_error_is_reported(
    ls: Seq<Seq<char>>,
    messages: Seq<Option<Seq<char>>>,
)
    ensures
        forall|i: int|
            0 <= i < messages.len() && #[trigger] messages[i] is Some && (forall|j: int|
                i < j < messages.len() ==> #[trigger] messages[j] is None) ==> picked_error(
                ls,
                messages,
            ) == messages[i],
        (forall|i: int| 0 <= i < messages.len() ==> #[trigger] messages[i] is None) ==> {
            &&& forall|i: int|
                0 <= i < ls.len() && "Error:"@.is_prefix_of(#[trigger] ls[i]) && (forall|j: int|
                    i < j < ls.len() ==> !"Error:"@.is_prefix_of(#[trigger] ls[j]))
                    ==> picked_error(ls, messages) == Some(trimmed(ls[i]))
            &&& (forall|i: int| 0 <= i < ls.len() ==> !"Error:"@.is_prefix_of(#[trigger] ls[i]))
                ==> picked_error(ls, messages) is None
        },
{
    assert forall|i: int|
        0 <= i < messages.len() && #[trigger] messages[i] is Some && (forall|j: int|
            i < j < messages.len() ==> #[trigger] messages[j] is None) implies picked_error(
        ls,
        messages,
    ) == messages[i] by {
        lemma_last_some(messages, i);
    }
    if forall|i: int| 0 <= i < messages.len() ==> #[trigger] messages[i] is None {
        lemma_no_some(messages);
        assert forall|i: int|
            0 <= i < ls.len() && "Error:"@.is_prefix_of(#[trigger] ls[i]) && (forall|j: int|
                i < j < ls.len() ==> !"Error:"@.is_prefix_of(#[trigger] ls[j])) implies picked_error(
            ls,
            messages,
        ) == Some(trimmed(ls[i])) by {
            lemma_last_plain(ls, i);
        }
        if forall|i: int| 0 <= i < ls.len() ==> !"Error:"@.is_prefix_of(#[trigger] ls[i]) {
            lemma_no_plain(ls);
        }
    }
}

proof fn lemma_last_some(items: Seq<Option<Seq<char>>>, i: int)
    requires
        0 <= i < items.len(),
        items[i] is Some,
        forall|j: int| i < j < items.len() ==> #[trigger] items[j] is None,
    ensures
        last_some(items) == items[i],
    decreases items.len(),
{
    if i < items.len() - 1 {
        assert(items[items.len() - 1] is None);
        lemma_last_some(items.drop_last(), i);
    }
}

proof fn lemma_no_some(items: Seq<Option<Seq<char>>>)
    requires
        forall|j: int| 0 <= j < items.len() ==> #[trigger] items[j] is None,
    ensures
        last_some(items) is None,
    decreases items.len(),
{
    if items.len() > 0 {
        assert(items[items.len() - 1] is None);
        lemma_no_some(items.drop_last());
    }
}

proof fn lemma_last_plain(ls: Seq<Seq<char>>, i: int)
    requires
        0 <= i < ls.len(),
        "Error:"@.is_prefix_of(ls[i]),
        forall|j: int| i < j < ls.len() ==> !"Error:"@.is_prefix_of(#[trigger] ls[j]),
    ensures
        last_plain_error(ls) == Some(trimmed(ls[i])),
    decreases ls.len(),
{
    if i < ls.len() - 1 {
        assert(!"Error:"@.is_prefix_of(ls[ls.len() - 1]));
        lemma_last_plain(ls.drop_last(), i);
    }
}

proof fn lemma_no_plain(ls: Seq<Seq<char>>)
    requires
        forall|j: int| 0 <= j < ls.len() ==> !"Error:"@.is_prefix_of(#[trigger] ls[j]),
    ensures
        last_plain_error(ls) is None,
    decreases ls.len(),
{
    if ls.len() > 0 {
        assert(!"Error:"@.is_prefix_of(ls[ls.len() - 1]));
        lemma_no_plain(ls.drop_last());
    }
}

/// The messages looked at are those of the lines that say that their level is an
/// error, and for the fallback those of the lines that say that the CPU is used
/// instead or that no backend could be made, and not that a GPU is used.
pub proof fn law_lines_are_marked_by_what_they_say(ls: Seq<Seq<char>>, i: int)
    requires
        0 <= i < ls.len(),
    ensures
        error_messages(ls).len() == ls.len() && fallback_messages(ls).len() == ls.len(),
        error_messages(ls)[i] == (if contains(ls[i], "\"level\":\"ERROR\""@) {
            json_text(ls[i], "message"@)
        } else {
            None
        }),
        fallback_messages(ls)[i] == (if !contains(ls[i], "on Cuda("@) && (contains(
            ls[i],
            "Using CPU instead"@,
        ) || contains(ls[i], "Could not create backend"@)) {
            json_text(ls[i], "message"@)
        } else {
            None
        }),
{
}

/// Evidence of a fallback is the last line that says so, unless a later line says
/// that a GPU is used: its message, or the line itself where it carries none.
pub proof fn law_fallbacks_count_until_a_gpu_is_used(
    ls: Seq<Seq<char>>,
    messages: Seq<Option<Seq<char>>>,
    i: int,
)
    requires
        messages.len() == ls.len(),
        0 <= i < ls.len(),
        forall|j: int|
            i < j < ls.len() ==> !contains(#[trigger] ls[j], "on Cuda("@) && !contains(
                ls[j],
                "Using CPU instead"@,
            ) && !contains(ls[j], "Could not create backend"@),
    ensures
        contains(ls[i], "on Cuda("@) ==> evidence(ls, messages) is None,
        !contains(ls[i], "on Cuda("@) && (contains(ls[i], "Using CPU instead"@) || contains(
            ls[i],
            "Could not create backend"@,
        )) ==> evidence(ls, messages) == Some(
            (match messages[i] {
                Some(m) => m,
                None => trimmed(ls[i]),
            }),
        ),
    decreases ls.len(),
{
    if i < ls.len() - 1 {
        let init = ls.drop_last();
        assert(!contains(ls[ls.len() - 1], "on Cuda("@));
        lemma_evidence_shorter(init, messages, messages.drop_last());
        assert forall|j: int| i < j < init.len() implies !contains(#[trigger] init[j], "on Cuda("@)
            && !contains(init[j], "Using CPU instead"@) && !contains(
            init[j],
            "Could not create backend"@,
        ) by {
            assert(init[j] == ls[j]);
        }
        law_fallbacks_count_until_a_gpu_is_used(init, messages.drop_last(), i);
    }
}

/// Messages of later lines do not matter.
proof fn lemma_evidence_shorter(
    ls: Seq<Seq<char>>,
    a: Seq<Option<Seq<char>>>,
    b: Seq<Option<Seq<char>>>,
)
    requires
        ls.len() <= a.len(),
        ls.len() <= b.len(),
        forall|i: int| 0 <= i < ls.len() ==> a[i] == b[i],
    ensures
        evidence(ls, a) == evidence(ls, b),
    decreases ls.len(),
{
    if ls.len() > 0 {
        lemma_evidence_shorter(ls.drop_last(), a, b);
    }
}

/// Starting, stopping and failing change the state, and of the rest only what goes
/// with it: a start sets the process and the time and clears the error, a stop takes
/// the process away, and a failure keeps the process and notes why.
pub proof fn law_states_follow_what_happens(
    i: TeiInstance,
    process: ProcessHandle,
    now: UnixNanos,
    reason: String,
)
    ensures
        ({
            let started = i.after_start(process, now);
            let stopping = i.while_stopping();
            let stopped = i.after_stop();
            let failed = i.after_failure(reason);
            &&& started.status == InstanceStatus::Starting && started.process == Some(process)
            &&& started.stats.started_at == Some(now) && started.stats.last_error is None
            &&& started.stats.restarts == i.stats.restarts
            &&& started.stats.health_check_failures == i.stats.health_check_failures
            &&& stopping.status == InstanceStatus::Stopping && stopping.process is None
            &&& stopping.stats == i.stats
            &&& stopped.status == InstanceStatus::Stopped && stopped.process == i.process
            &&& stopped.stats == i.stats
            &&& failed.status == InstanceStatus::Failed && failed.process == i.process
            &&& failed.stats.last_error == Some(reason)
            &&& failed.stats.started_at == i.stats.started_at
            &&& failed.stats.restarts == i.stats.restarts
            &&& started.config == i.config && stopping.config == i.config && stopped.config
                == i.config && failed.config == i.config
        }),
{
}

} // verus!
