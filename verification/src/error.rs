//! Errors of the manager, and what they are over HTTP and gRPC.

use vstd::prelude::*;

use crate::grpc::status::{status, Code, Status};
use crate::text::{decimal, decimal_string};

verus! {

/// The operating system's and the standard library's I/O error.
#[verifier::external_type_specification]
#[verifier::external_body]
pub struct ExIoError(std::io::Error);

/// The HTTP status codes that errors map to.
#[derive(Debug, Clone, Copy, PartialEq, Eq, Structural)]
pub enum StatusCode {
    Success,
    BadRequest,
    Unauthorized,
    Forbidden,
    NotFound,
    Conflict,
    UnprocessableEntity,
    InternalServerError,
    ServiceUnavailable,
    GatewayTimeout,
}

impl StatusCode {
    /// The number of the code.
    pub open spec fn number(self) -> u16 {
        match self {
            StatusCode::Success => 200,
            StatusCode::BadRequest => 400,
            StatusCode::Unauthorized => 401,
            StatusCode::Forbidden => 403,
            StatusCode::NotFound => 404,
            StatusCode::Conflict => 409,
            StatusCode::UnprocessableEntity => 422,
            StatusCode::InternalServerError => 500,
            StatusCode::ServiceUnavailable => 503,
            StatusCode::GatewayTimeout => 504,
        }
    }

    /// The number of the code.
    pub fn as_u16(&self) -> (n: u16)
        ensures
            n == self.number(),
    {
        match self {
            StatusCode::Success => 200,
            StatusCode::BadRequest => 400,
            StatusCode::Unauthorized => 401,
            StatusCode::Forbidden => 403,
            StatusCode::NotFound => 404,
            StatusCode::Conflict => 409,
            StatusCode::UnprocessableEntity => 422,
            StatusCode::InternalServerError => 500,
            StatusCode::ServiceUnavailable => 503,
            StatusCode::GatewayTimeout => 504,
        }
    }

    /// Whether the code blames the client: 400 to 499.
    pub fn is_client_error(&self) -> (r: bool)
        ensures
            r == (400 <= self.number() < 500),
    {
        let n: u16 = self.as_u16();
        400 <= n && n < 500
    }

    /// Whether the code blames the server: 500 to 599.
    pub fn is_server_error(&self) -> (r: bool)
        ensures
            r == (500 <= self.number() < 600),
    {
        let n: u16 = self.as_u16();
        500 <= n && n < 600
    }
}

/// What can go wrong in the manager.
#[derive(Debug)]
pub enum TeiError {
    /// There is no instance of this name.
    InstanceNotFound { name: String },
    /// There is an instance of this name already.
    InstanceExists { name: String },
    /// Another instance uses the port.
    PortConflict { port: u16, instance: String },
    /// There are as many instances as there may be.
    MaxInstancesReached { max: usize },
    /// The instance is not in a state for this.
    InvalidInstanceState { name: String, current_state: String, expected_state: String },
    /// The instance was to be started and runs already.
    AlreadyRunning { name: String },
    /// The instance was to be stopped and does not run.
    NotRunning { name: String },
    InvalidConfig { message: String },
    InvalidPort { port: u16, reason: String },
    InvalidGpuId { id: u32, reason: String },
    InvalidInstanceName { name: String, reason: String },
    /// No port could be found for an instance.
    PortAllocationFailed { reason: String },
    /// The caller has to say who it is.
    Unauthenticated { reason: String },
    /// The caller may not do this.
    Forbidden { reason: String },
    ValidationError { message: String },
    MissingField { field: String },
    BackendUnavailable { message: String },
    Timeout { message: String },
    Internal { message: String },
    IoError { message: String },
}

impl TeiError {
    /// What `to_string` says.
    pub open spec fn text(self) -> Seq<char> {
        match self {
            TeiError::InstanceNotFound { name } => "Instance '"@ + name@ + "' not found"@,
            TeiError::InstanceExists { name } => "Instance '"@ + name@ + "' already exists"@,
            TeiError::PortConflict { port, instance } => "Port "@ + decimal(port as nat)
                + " already in use by instance '"@ + instance@ + "'"@,
            TeiError::MaxInstancesReached { max } => "Maximum instance count ("@ + decimal(
                max as nat,
            ) + ") reached"@,
            TeiError::InvalidInstanceState { name, current_state, expected_state } => "Instance '"@
                + name@ + "' is "@ + current_state@ + ", expected "@ + expected_state@,
            TeiError::AlreadyRunning { name } => "Instance '"@ + name@ + "' is already running"@,
            TeiError::NotRunning { name } => "Instance '"@ + name@ + "' is not running"@,
            TeiError::InvalidConfig { message } => "Invalid configuration: "@ + message@,
            TeiError::InvalidPort { port, reason } => "Port "@ + decimal(port as nat)
                + " is invalid: "@ + reason@,
            TeiError::InvalidGpuId { id, reason } => "Invalid GPU ID "@ + decimal(id as nat)
                + ": "@ + reason@,
            TeiError::InvalidInstanceName { name, reason } => "Invalid instance name '"@ + name@
                + "': "@ + reason@,
            TeiError::PortAllocationFailed { reason } => "Failed to allocate port: "@ + reason@,
            TeiError::Unauthenticated { reason } => "Authentication required: "@ + reason@,
            TeiError::Forbidden { reason } => "Access denied: "@ + reason@,
            TeiError::ValidationError { message } => "Validation error: "@ + message@,
            TeiError::MissingField { field } => "Missing required field: "@ + field@,
            TeiError::BackendUnavailable { message } => "Backend unavailable: "@ + message@,
            TeiError::Timeout { message } => "Request timeout: "@ + message@,
            TeiError::Internal { message } => "Internal error: "@ + message@,
            TeiError::IoError { message } => "I/O error: "@ + message@,
        }
    }

    /// The HTTP status that `status_code` gives.
    pub open spec fn http(self) -> StatusCode {
        match self {
            TeiError::InstanceNotFound { .. } => StatusCode::NotFound,
            TeiError::InstanceExists { .. } => StatusCode::Conflict,
            TeiError::PortConflict { .. } => StatusCode::Conflict,
            TeiError::AlreadyRunning { .. } => StatusCode::Conflict,
            TeiError::NotRunning { .. } => StatusCode::Conflict,
            TeiError::InvalidConfig { .. } => StatusCode::BadRequest,
            TeiError::InvalidPort { .. } => StatusCode::BadRequest,
            TeiError::InvalidGpuId { .. } => StatusCode::BadRequest,
            TeiError::InvalidInstanceName { .. } => StatusCode::BadRequest,
            TeiError::ValidationError { .. } => StatusCode::BadRequest,
            TeiError::MissingField { .. } => StatusCode::BadRequest,
            TeiError::InvalidInstanceState { .. } => StatusCode::BadRequest,
            TeiError::Unauthenticated { .. } => StatusCode::Unauthorized,
            TeiError::Forbidden { .. } => StatusCode::Forbidden,
            TeiError::MaxInstancesReached { .. } => StatusCode::UnprocessableEntity,
            TeiError::PortAllocationFailed { .. } => StatusCode::UnprocessableEntity,
            TeiError::BackendUnavailable { .. } => StatusCode::ServiceUnavailable,
            TeiError::Timeout { .. } => StatusCode::GatewayTimeout,
            TeiError::Internal { .. } => StatusCode::InternalServerError,
            TeiError::IoError { .. } => StatusCode::InternalServerError,
        }
    }

    /// The short code that `error_code` gives.
    pub open spec fn short(self) -> Seq<char> {
        match self {
            TeiError::InstanceNotFound { .. } => "INSTANCE_NOT_FOUND"@,
            TeiError::InstanceExists { .. } => "INSTANCE_EXISTS"@,
            TeiError::PortConflict { .. } => "PORT_CONFLICT"@,
            TeiError::MaxInstancesReached { .. } => "MAX_INSTANCES_REACHED"@,
            TeiError::InvalidInstanceState { .. } => "INVALID_INSTANCE_STATE"@,
            TeiError::AlreadyRunning { .. } => "ALREADY_RUNNING"@,
            TeiError::NotRunning { .. } => "NOT_RUNNING"@,
            TeiError::InvalidConfig { .. } => "INVALID_CONFIG"@,
            TeiError::InvalidPort { .. } => "INVALID_PORT"@,
            TeiError::InvalidGpuId { .. } => "INVALID_GPU_ID"@,
            TeiError::InvalidInstanceName { .. } => "INVALID_INSTANCE_NAME"@,
            TeiError::PortAllocationFailed { .. } => "PORT_ALLOCATION_FAILED"@,
            TeiError::Unauthenticated { .. } => "UNAUTHENTICATED"@,
            TeiError::Forbidden { .. } => "FORBIDDEN"@,
            TeiError::ValidationError { .. } => "VALIDATION_ERROR"@,
            TeiError::MissingField { .. } => "MISSING_FIELD"@,
            TeiError::BackendUnavailable { .. } => "BACKEND_UNAVAILABLE"@,
            TeiError::Timeout { .. } => "TIMEOUT"@,
            TeiError::Internal { .. } => "INTERNAL_ERROR"@,
            TeiError::IoError { .. } => "IO_ERROR"@,
        }
    }

    /// The gRPC code that `grpc_status` gives.
    pub open spec fn grpc(self) -> Code {
        match self {
            TeiError::InstanceNotFound { .. } => Code::NotFound,
            TeiError::InstanceExists { .. } => Code::AlreadyExists,
            TeiError::PortConflict { .. } => Code::AlreadyExists,
            TeiError::AlreadyRunning { .. } => Code::FailedPrecondition,
            TeiError::NotRunning { .. } => Code::FailedPrecondition,
            TeiError::InvalidConfig { .. } => Code::InvalidArgument,
            TeiError::InvalidPort { .. } => Code::InvalidArgument,
            TeiError::InvalidGpuId { .. } => Code::InvalidArgument,
            TeiError::InvalidInstanceName { .. } => Code::InvalidArgument,
            TeiError::ValidationError { .. } => Code::InvalidArgument,
            TeiError::MissingField { .. } => Code::InvalidArgument,
            TeiError::InvalidInstanceState { .. } => Code::InvalidArgument,
            TeiError::Unauthenticated { .. } => Code::Unauthenticated,
            TeiError::Forbidden { .. } => Code::PermissionDenied,
            TeiError::MaxInstancesReached { .. } => Code::ResourceExhausted,
            TeiError::PortAllocationFailed { .. } => Code::ResourceExhausted,
            TeiError::BackendUnavailable { .. } => Code::Unavailable,
            TeiError::Timeout { .. } => Code::DeadlineExceeded,
            TeiError::Internal { .. } => Code::Internal,
            TeiError::IoError { .. } => Code::Internal,
        }
    }

    /// The error in words.
    pub fn to_string(&self) -> (s: String)
        ensures
            s@ == self.text(),
    {
        match self {
            TeiError::InstanceNotFound { name } => "Instance '".to_owned().concat(
                name.as_str(),
            ).concat("' not found"),
            TeiError::InstanceExists { name } => "Instance '".to_owned().concat(
                name.as_str(),
            ).concat("' already exists"),
            TeiError::PortConflict { port, instance } => "Port ".to_owned().concat(
                decimal_string(*port as u64).as_str(),
            ).concat(" already in use by instance '").concat(instance.as_str()).concat("'"),
            TeiError::MaxInstancesReached { max } => "Maximum instance count (".to_owned().concat(
                decimal_string(*max as u64).as_str(),
            ).concat(") reached"),
            TeiError::InvalidInstanceState { name, current_state, expected_state } =>
            "Instance '".to_owned().concat(name.as_str()).concat("' is ").concat(
                current_state.as_str(),
            ).concat(", expected ").concat(expected_state.as_str()),
            TeiError::AlreadyRunning { name } => "Instance '".to_owned().concat(
                name.as_str(),
            ).concat("' is already running"),
            TeiError::NotRunning { name } => "Instance '".to_owned().concat(
                name.as_str(),
            ).concat("' is not running"),
            TeiError::InvalidConfig { message } => "Invalid configuration: ".to_owned().concat(
                message.as_str(),
            ),
            TeiError::InvalidPort { port, reason } => "Port ".to_owned().concat(
                decimal_string(*port as u64).as_str(),
            ).concat(" is invalid: ").concat(reason.as_str()),
            TeiError::InvalidGpuId { id, reason } => "Invalid GPU ID ".to_owned().concat(
                decimal_string(*id as u64).as_str(),
            ).concat(": ").concat(reason.as_str()),
            TeiError::InvalidInstanceName { name, reason } =>
            "Invalid instance name '".to_owned().concat(name.as_str()).concat("': ").concat(
                reason.as_str(),
            ),
            TeiError::PortAllocationFailed { reason } =>
            "Failed to allocate port: ".to_owned().concat(reason.as_str()),
            TeiError::Unauthenticated { reason } => "Authentication required: ".to_owned().concat(
                reason.as_str(),
            ),
            TeiError::Forbidden { reason } => "Access denied: ".to_owned().concat(reason.as_str()),
            TeiError::ValidationError { message } => "Validation error: ".to_owned().concat(
                message.as_str(),
            ),
            TeiError::MissingField { field } => "Missing required field: ".to_owned().concat(
                field.as_str(),
            ),
            TeiError::BackendUnavailable { message } => "Backend unavailable: ".to_owned().concat(
                message.as_str(),
            ),
            TeiError::Timeout { message } => "Request timeout: ".to_owned().concat(
                message.as_str(),
            ),
            TeiError::Internal { message } => "Internal error: ".to_owned().concat(
                message.as_str(),
            ),
            TeiError::IoError { message } => "I/O error: ".to_owned().concat(message.as_str()),
        }
    }

    /// The HTTP status for this error.
    pub fn status_code(&self) -> (c: StatusCode)
        ensures
            c == self.http(),
    {
        match self {
            TeiError::InstanceNotFound { .. } => StatusCode::NotFound,
            TeiError::InstanceExists { .. } | TeiError::PortConflict { .. }
            | TeiError::AlreadyRunning { .. } | TeiError::NotRunning { .. } => StatusCode::Conflict,
            TeiError::InvalidConfig { .. } | TeiError::InvalidPort { .. }
            | TeiError::InvalidGpuId { .. } | TeiError::InvalidInstanceName { .. }
            | TeiError::ValidationError { .. } | TeiError::MissingField { .. }
            | TeiError::InvalidInstanceState { .. } => StatusCode::BadRequest,
            TeiError::Unauthenticated { .. } => StatusCode::Unauthorized,
            TeiError::Forbidden { .. } => StatusCode::Forbidden,
            TeiError::MaxInstancesReached { .. } | TeiError::PortAllocationFailed { .. } =>
            StatusCode::UnprocessableEntity,
            TeiError::BackendUnavailable { .. } => StatusCode::ServiceUnavailable,
            TeiError::Timeout { .. } => StatusCode::GatewayTimeout,
            TeiError::Internal { .. } | TeiError::IoError { .. } => StatusCode::InternalServerError,
        }
    }

    /// A short code for this kind of error, for machines.
    pub fn error_code(&self) -> (s: &'static str)
        ensures
            s@ == self.short(),
    {
        match self {
            TeiError::InstanceNotFound { .. } => "INSTANCE_NOT_FOUND",
            TeiError::InstanceExists { .. } => "INSTANCE_EXISTS",
            TeiError::PortConflict { .. } => "PORT_CONFLICT",
            TeiError::MaxInstancesReached { .. } => "MAX_INSTANCES_REACHED",
            TeiError::InvalidInstanceState { .. } => "INVALID_INSTANCE_STATE",
            TeiError::AlreadyRunning { .. } => "ALREADY_RUNNING",
            TeiError::NotRunning { .. } => "NOT_RUNNING",
            TeiError::InvalidConfig { .. } => "INVALID_CONFIG",
            TeiError::InvalidPort { .. } => "INVALID_PORT",
            TeiError::InvalidGpuId { .. } => "INVALID_GPU_ID",
            TeiError::InvalidInstanceName { .. } => "INVALID_INSTANCE_NAME",
            TeiError::PortAllocationFailed { .. } => "PORT_ALLOCATION_FAILED",
            TeiError::Unauthenticated { .. } => "UNAUTHENTICATED",
            TeiError::Forbidden { .. } => "FORBIDDEN",
            TeiError::ValidationError { .. } => "VALIDATION_ERROR",
            TeiError::MissingField { .. } => "MISSING_FIELD",
            TeiError::BackendUnavailable { .. } => "BACKEND_UNAVAILABLE",
            TeiError::Timeout { .. } => "TIMEOUT",
            TeiError::Internal { .. } => "INTERNAL_ERROR",
            TeiError::IoError { .. } => "IO_ERROR",
        }
    }

    /// Whether the client is to blame.
    pub fn is_client_error(&self) -> (r: bool)
        ensures
            r == (400 <= self.http().number() < 500),
    {
        self.status_code().is_client_error()
    }

    /// Whether the server is to blame.
    pub fn is_server_error(&self) -> (r: bool)
        ensures
            r == (500 <= self.http().number() < 600),
    {
        self.status_code().is_server_error()
    }

    /// The gRPC status for this error.
    pub fn grpc_status(&self) -> (s: Status)
        ensures
            s@ == status(self.grpc(), self.text()),
    {
        let code = match self {
            TeiError::InstanceNotFound { .. } => Code::NotFound,
            TeiError::InstanceExists { .. } | TeiError::PortConflict { .. } => Code::AlreadyExists,
            TeiError::AlreadyRunning { .. } | TeiError::NotRunning { .. } =>
            Code::FailedPrecondition,
            TeiError::InvalidConfig { .. } | TeiError::InvalidPort { .. }
            | TeiError::InvalidGpuId { .. } | TeiError::InvalidInstanceName { .. }
            | TeiError::ValidationError { .. } | TeiError::MissingField { .. }
            | TeiError::InvalidInstanceState { .. } => Code::InvalidArgument,
            TeiError::Unauthenticated { .. } => Code::Unauthenticated,
            TeiError::Forbidden { .. } => Code::PermissionDenied,
            TeiError::MaxInstancesReached { .. } | TeiError::PortAllocationFailed { .. } =>
            Code::ResourceExhausted,
            TeiError::BackendUnavailable { .. } => Code::Unavailable,
            TeiError::Timeout { .. } => Code::DeadlineExceeded,
            TeiError::Internal { .. } | TeiError::IoError { .. } => Code::Internal,
        };
        Status::new(code, self.to_string())
    }
}

/// A result whose error is a [`TeiError`].
pub type TeiResult<T> = Result<T, TeiError>;

/// `std::io::Error`'s words, through `to_string`. They come from the operating
/// system or from whoever made the error, so nothing is said of them.
#[verifier::external_body]
fn io_error_text(err: &std::io::Error) -> (s: String) {
    err.to_string()
}

impl From<std::io::Error> for TeiError {
    fn from(err: std::io::Error) -> (e: Self)
        ensures
            e is IoError,
    {
        TeiError::IoError { message: io_error_text(&err) }
    }
}

impl vstd::std_specs::convert::FromSpecImpl<std::io::Error> for TeiError {
    open spec fn obeys_from_spec() -> bool {
        false
    }

    open spec fn from_spec(err: std::io::Error) -> Self {
        arbitrary()
    }
}

impl From<TeiError> for Status {
    fn from(err: TeiError) -> (s: Status)
        ensures
            s@ == status(err.grpc(), err.text()),
    {
        err.grpc_status()
    }
}

impl vstd::std_specs::convert::FromSpecImpl<TeiError> for Status {
    open spec fn obeys_from_spec() -> bool {
        false
    }

    open spec fn from_spec(err: TeiError) -> Self {
        arbitrary()
    }
}

/// What an HTTP error response says besides its status.
#[derive(Debug)]
pub struct ErrorResponse {
    /// The error in words.
    pub error: String,
    /// The short code.
    pub code: &'static str,
    /// When it happened.
    pub timestamp: crate::config::UnixNanos,
}

impl TeiError {
    /// The HTTP response for this error: its status and body.
    pub fn response(&self, now: crate::config::UnixNanos) -> (r: (StatusCode, ErrorResponse))
        ensures
            r.0 == self.http(),
            r.1.error@ == self.text(),
            r.1.code@ == self.short(),
            r.1.timestamp == now,
    {
        (
            self.status_code(),
            ErrorResponse { error: self.to_string(), code: self.error_code(), timestamp: now },
        )
    }
}

/// Every error is either the client's or the server's, never both.
pub proof fn law_errors_have_one_side_to_blame(e: TeiError)
    ensures
        400 <= e.http().number() < 500 <==> !(500 <= e.http().number() < 600),
{
}

/// The gRPC code agrees with the HTTP status on who is to blame: the server
/// exactly for `Unavailable`, `DeadlineExceeded` and `Internal`.
pub proof fn law_http_and_grpc_agree_on_blame(e: TeiError)
    ensures
        500 <= e.http().number() < 600 <==> (e.grpc() == Code::Unavailable || e.grpc()
            == Code::DeadlineExceeded || e.grpc() == Code::Internal),
{
}

/// The HTTP status of each error: 404 where something is not there, 409 where it is
/// in the way, 400 for a bad request, 401 and 403 for a caller that is not let in,
/// 422 where nothing is left to give, 503 and 504 where a backend is not there or
/// too slow, and 500 for the rest.
pub proof fn law_http_statuses_of_errors(e: TeiError)
    ensures
        e.http().number() == 404 <==> e is InstanceNotFound,
        e.http().number() == 409 <==> e is InstanceExists || e is PortConflict || e is AlreadyRunning
            || e is NotRunning,
        e.http().number() == 400 <==> e is InvalidConfig || e is InvalidPort || e is InvalidGpuId
            || e is InvalidInstanceName || e is ValidationError || e is MissingField
            || e is InvalidInstanceState,
        e.http().number() == 401 <==> e is Unauthenticated,
        e.http().number() == 403 <==> e is Forbidden,
        e.http().number() == 422 <==> e is MaxInstancesReached || e is PortAllocationFailed,
        e.http().number() == 503 <==> e is BackendUnavailable,
        e.http().number() == 504 <==> e is Timeout,
        e.http().number() == 500 <==> e is Internal || e is IoError,
{
}

/// The gRPC code of each error.
pub proof fn law_grpc_codes_of_errors(e: TeiError)
    ensures
        e.grpc() == Code::NotFound <==> e is InstanceNotFound,
        e.grpc() == Code::AlreadyExists <==> e is InstanceExists || e is PortConflict,
        e.grpc() == Code::FailedPrecondition <==> e is AlreadyRunning || e is NotRunning,
        e.grpc() == Code::InvalidArgument <==> e.http().number() == 400,
        e.grpc() == Code::Unauthenticated <==> e is Unauthenticated,
        e.grpc() == Code::PermissionDenied <==> e is Forbidden,
        e.grpc() == Code::ResourceExhausted <==> e is MaxInstancesReached
            || e is PortAllocationFailed,
        e.grpc() == Code::Unavailable <==> e is BackendUnavailable,
        e.grpc() == Code::DeadlineExceeded <==> e is Timeout,
        e.grpc() == Code::Internal <==> e is Internal || e is IoError,
{
}

/// What is said of an error tells what it is about: the name, the port, the limit or
/// the reason is in the words.
pub proof fn law_errors_say_what_they_are_about(e: TeiError)
    ensures
        e matches TeiError::InstanceNotFound { name } ==> e.text() == "Instance '"@ + name@
            + "' not found"@,
        e matches TeiError::InstanceExists { name } ==> e.text() == "Instance '"@ + name@
            + "' already exists"@,
        e matches TeiError::PortConflict { port, instance } ==> e.text() == "Port "@ + decimal(
            port as nat,
        ) + " already in use by instance '"@ + instance@ + "'"@,
        e matches TeiError::MaxInstancesReached { max } ==> e.text() == "Maximum instance count ("@
            + decimal(max as nat) + ") reached"@,
        e matches TeiError::InvalidPort { port, reason } ==> e.text() == "Port "@ + decimal(
            port as nat,
        ) + " is invalid: "@ + reason@,
        e matches TeiError::InvalidGpuId { id, reason } ==> e.text() == "Invalid GPU ID "@ + decimal(
            id as nat,
        ) + ": "@ + reason@,
        e matches TeiError::InvalidInstanceName { name, reason } ==> e.text()
            == "Invalid instance name '"@ + name@ + "': "@ + reason@,
        e matches TeiError::InvalidInstanceState { name, current_state, expected_state } ==> e.text()
            == "Instance '"@ + name@ + "' is "@ + current_state@ + ", expected "@ + expected_state@,
        e matches TeiError::AlreadyRunning { name } ==> e.text() == "Instance '"@ + name@
            + "' is already running"@,
        e matches TeiError::NotRunning { name } ==> e.text() == "Instance '"@ + name@
            + "' is not running"@,
        e matches TeiError::InvalidConfig { message } ==> e.text() == "Invalid configuration: "@
            + message@,
        e matches TeiError::PortAllocationFailed { reason } ==> e.text()
            == "Failed to allocate port: "@ + reason@,
        e matches TeiError::Unauthenticated { reason } ==> e.text() == "Authentication required: "@
            + reason@,
        e matches TeiError::Forbidden { reason } ==> e.text() == "Access denied: "@ + reason@,
        e matches TeiError::ValidationError { message } ==> e.text() == "Validation error: "@
            + message@,
        e matches TeiError::MissingField { field } ==> e.text() == "Missing required field: "@
            + field@,
        e matches TeiError::BackendUnavailable { message } ==> e.text() == "Backend unavailable: "@
            + message@,
        e matches TeiError::Timeout { message } ==> e.text() == "Request timeout: "@ + message@,
        e matches TeiError::Internal { message } ==> e.text() == "Internal error: "@ + message@,
        e matches TeiError::IoError { message } ==> e.text() == "I/O error: "@ + message@,
{
}

/// The short codes that callers tell errors apart by.
pub proof fn law_short_codes_of_errors(a: TeiError)
    ensures
        a is InstanceNotFound ==> a.short() == "INSTANCE_NOT_FOUND"@,
        a is InstanceExists ==> a.short() == "INSTANCE_EXISTS"@,
        a is PortConflict ==> a.short() == "PORT_CONFLICT"@,
        a is MaxInstancesReached ==> a.short() == "MAX_INSTANCES_REACHED"@,
        a is InvalidPort ==> a.short() == "INVALID_PORT"@,
        a is InvalidGpuId ==> a.short() == "INVALID_GPU_ID"@,
        a is InvalidInstanceName ==> a.short() == "INVALID_INSTANCE_NAME"@,
        a is PortAllocationFailed ==> a.short() == "PORT_ALLOCATION_FAILED"@,
        a is InvalidInstanceState ==> a.short() == "INVALID_INSTANCE_STATE"@,
        a is AlreadyRunning ==> a.short() == "ALREADY_RUNNING"@,
        a is NotRunning ==> a.short() == "NOT_RUNNING"@,
        a is InvalidConfig ==> a.short() == "INVALID_CONFIG"@,
        a is Unauthenticated ==> a.short() == "UNAUTHENTICATED"@,
        a is Forbidden ==> a.short() == "FORBIDDEN"@,
        a is ValidationError ==> a.short() == "VALIDATION_ERROR"@,
        a is MissingField ==> a.short() == "MISSING_FIELD"@,
        a is BackendUnavailable ==> a.short() == "BACKEND_UNAVAILABLE"@,
        a is Timeout ==> a.short() == "TIMEOUT"@,
        a is Internal ==> a.short() == "INTERNAL_ERROR"@,
        a is IoError ==> a.short() == "IO_ERROR"@,
{
}

} // verus!
