//! Who may use the manager: errors, requests and results of authentication, and
//! asking several providers in turn.

use vstd::prelude::*;

use crate::config::{uses_mtls, AuthConfig, MtlsConfig};
use crate::error::StatusCode;
use crate::text::list_contains;

pub mod mtls;
pub mod service;

verus! {

/// Why a caller was not let in.
#[derive(Debug, Clone)]
pub enum AuthError {
    MissingClientCert,
    InvalidCert(String),
    CertVerificationFailed(String),
    Unauthorized(String),
    ProviderError(String),
    Internal(String),
}

/// An error as a mathematical value.
pub enum AuthErrorView {
    MissingClientCert,
    InvalidCert(Seq<char>),
    CertVerificationFailed(Seq<char>),
    Unauthorized(Seq<char>),
    ProviderError(Seq<char>),
    Internal(Seq<char>),
}

impl View for AuthError {
    type V = AuthErrorView;

    open spec fn view(&self) -> AuthErrorView {
        match *self {
            AuthError::MissingClientCert => AuthErrorView::MissingClientCert,
            AuthError::InvalidCert(s) => AuthErrorView::InvalidCert(s@),
            AuthError::CertVerificationFailed(s) => AuthErrorView::CertVerificationFailed(s@),
            AuthError::Unauthorized(s) => AuthErrorView::Unauthorized(s@),
            AuthError::ProviderError(s) => AuthErrorView::ProviderError(s@),
            AuthError::Internal(s) => AuthErrorView::Internal(s@),
        }
    }
}

impl AuthError {
    /// What `to_string` says.
    pub open spec fn text(self) -> Seq<char> {
        match self {
            AuthError::MissingClientCert => "Missing client certificate"@,
            AuthError::InvalidCert(s) => "Invalid client certificate: "@ + s@,
            AuthError::CertVerificationFailed(s) => "Certificate verification failed: "@ + s@,
            AuthError::Unauthorized(s) => "Unauthorized: "@ + s@,
            AuthError::ProviderError(s) => "Authentication provider error: "@ + s@,
            AuthError::Internal(s) => "Internal error: "@ + s@,
        }
    }

    /// The error in words.
    pub fn to_string(&self) -> (s: String)
        ensures
            s@ == self.text(),
    {
        match self {
            AuthError::MissingClientCert => "Missing client certificate".to_owned(),
            AuthError::InvalidCert(s) => "Invalid client certificate: ".to_owned().concat(
                s.as_str(),
            ),
            AuthError::CertVerificationFailed(s) =>
            "Certificate verification failed: ".to_owned().concat(s.as_str()),
            AuthError::Unauthorized(s) => "Unauthorized: ".to_owned().concat(s.as_str()),
            AuthError::ProviderError(s) => "Authentication provider error: ".to_owned().concat(
                s.as_str(),
            ),
            AuthError::Internal(s) => "Internal error: ".to_owned().concat(s.as_str()),
        }
    }

    /// The status and the body of the HTTP response: no more than what kind of
    /// error it is.
    pub fn response(&self) -> (r: (StatusCode, &'static str))
        ensures
            r.0 == (match *self {
                AuthError::ProviderError(_) => StatusCode::InternalServerError,
                AuthError::Internal(_) => StatusCode::InternalServerError,
                _ => StatusCode::Unauthorized,
            }),
            r.1@ == (match *self {
                AuthError::MissingClientCert => "Missing client certificate"@,
                AuthError::InvalidCert(_) => "Invalid client certificate"@,
                AuthError::CertVerificationFailed(_) => "Certificate verification failed"@,
                AuthError::Unauthorized(_) => "Unauthorized"@,
                AuthError::ProviderError(_) => "Authentication error"@,
                AuthError::Internal(_) => "Internal error"@,
            }),
    {
        match self {
            AuthError::MissingClientCert => (
                StatusCode::Unauthorized,
                "Missing client certificate",
            ),
            AuthError::InvalidCert(_) => (StatusCode::Unauthorized, "Invalid client certificate"),
            AuthError::CertVerificationFailed(_) => (
                StatusCode::Unauthorized,
                "Certificate verification failed",
            ),
            AuthError::Unauthorized(_) => (StatusCode::Unauthorized, "Unauthorized"),
            AuthError::ProviderError(_) => (
                StatusCode::InternalServerError,
                "Authentication error",
            ),
            AuthError::Internal(_) => (StatusCode::InternalServerError, "Internal error"),
        }
    }
}

/// What a request came over.
#[derive(Debug, Clone, Copy, PartialEq, Eq, Structural)]
pub enum Protocol {
    Http,
    Grpc,
}

/// What is known of a TLS connection.
#[derive(Debug, Clone)]
pub struct TlsInfo {
    /// The caller's certificate, in DER.
    pub peer_certificate: Option<Vec<u8>>,
    /// The certificates above it, in DER.
    pub certificate_chain: Vec<Vec<u8>>,
    pub tls_version: String,
    pub cipher_suite: String,
}

/// A request that has to be let in.
#[derive(Debug, Clone)]
pub struct AuthRequest {
    pub protocol: Protocol,
    /// Where it came from.
    pub peer_addr: String,
    pub tls_info: Option<TlsInfo>,
}

/// What a provider says of a request.
#[derive(Debug, Clone)]
pub struct AuthResult {
    pub authenticated: bool,
    /// Who the caller is.
    pub principal: Option<String>,
    /// More about how that was found out: a name and a value each, each name
    /// once.
    pub metadata: Vec<(String, String)>,
}

impl AuthResult {
    /// The value under a name.
    pub fn metadata_value(&self, name: &str) -> (r: Option<&str>)
        ensures
            match r {
                Some(v) => exists|i: int|
                    0 <= i < self.metadata@.len() && (#[trigger] self.metadata@[i]).0@ == name@
                        && self.metadata@[i].1@ == v@ && forall|j: int|
                        0 <= j < i ==> (#[trigger] self.metadata@[j]).0@ != name@,
                None => forall|i: int|
                    0 <= i < self.metadata@.len() ==> (#[trigger] self.metadata@[i]).0@ != name@,
            },
    {
        let mut i: usize = 0;
        while i < self.metadata.len()
            invariant
                i <= self.metadata@.len(),
                forall|j: int| 0 <= j < i ==> (#[trigger] self.metadata@[j]).0@ != name@,
            decreases self.metadata@.len() - i,
        {
            if crate::text::text_eq(self.metadata[i].0.as_str(), name) {
                return Some(self.metadata[i].1.as_str());
            }
            i = i + 1;
        }
        None
    }
}

/// A provider, as far as choosing among several goes.
#[derive(Debug, Clone)]
pub struct ProviderInfo {
    pub name: String,
    pub supports_http: bool,
    pub supports_grpc: bool,
}

impl ProviderInfo {
    /// Whether the provider can judge requests over `protocol`.
    pub open spec fn serves(self, protocol: Protocol) -> bool {
        match protocol {
            Protocol::Http => self.supports_http,
            Protocol::Grpc => self.supports_grpc,
        }
    }

    /// Whether the provider can judge requests over `protocol`.
    pub fn supports(&self, protocol: Protocol) -> (r: bool)
        ensures
            r == self.serves(protocol),
            protocol == Protocol::Http ==> r == self.supports_http,
            protocol == Protocol::Grpc ==> r == self.supports_grpc,
    {
        match protocol {
            Protocol::Http => self.supports_http,
            Protocol::Grpc => self.supports_grpc,
        }
    }
}

/// Asks providers in turn; one that lets a request in is enough.
#[derive(Debug, Clone)]
pub struct AuthManager {
    pub providers: Vec<ProviderInfo>,
}

/// How far asking has come for one request.
#[derive(Debug)]
pub struct AuthRun {
    pub protocol: Protocol,
    /// The next provider to consider.
    pub next: usize,
    /// What the last provider that was asked said.
    pub last_error: Option<AuthError>,
}

/// What a provider says of a request, as a mathematical value.
pub enum Verdict {
    LetIn,
    NotAuthenticated,
    Failed(AuthErrorView),
}

/// The verdict in what a provider returned.
pub open spec fn verdict_of(r: Result<AuthResult, AuthError>) -> Verdict {
    match r {
        Ok(a) => if a.authenticated {
            Verdict::LetIn
        } else {
            Verdict::NotAuthenticated
        },
        Err(e) => Verdict::Failed(e@),
    }
}

/// The error after a provider did not let a request in.
pub open spec fn refusal(provider: ProviderInfo, v: Verdict) -> AuthErrorView {
    match v {
        Verdict::Failed(e) => e,
        _ => AuthErrorView::Unauthorized(provider.name@ + " authentication failed"@),
    }
}

/// An error that may be absent.
pub open spec fn error_view(e: Option<AuthError>) -> Option<AuthErrorView> {
    match e {
        Some(e) => Some(e@),
        None => None,
    }
}

/// The error after all providers were considered and none let the request in.
pub open spec fn final_error(last: Option<AuthErrorView>) -> AuthErrorView {
    match last {
        Some(e) => e,
        None => AuthErrorView::Unauthorized("No compatible authentication provider found"@),
    }
}

/// What asking the providers from the `i`th on comes to, where `verdicts` gives
/// what each would say: the first that lets the request in, or the error of the
/// last one asked. Providers that do not serve the protocol are passed over.
pub open spec fn outcome(
    providers: Seq<ProviderInfo>,
    protocol: Protocol,
    verdicts: spec_fn(int) -> Verdict,
    i: int,
    last: Option<AuthErrorView>,
) -> Result<int, AuthErrorView>
    decreases providers.len() - i,
{
    if i < 0 || i >= providers.len() {
        Err(final_error(last))
    } else if !providers[i].serves(protocol) {
        outcome(providers, protocol, verdicts, i + 1, last)
    } else if verdicts(i) is LetIn {
        Ok(i)
    } else {
        outcome(
            providers,
            protocol,
            verdicts,
            i + 1,
            Some(refusal(providers[i], verdicts(i))),
        )
    }
}

impl AuthManager {
    pub fn new(providers: Vec<ProviderInfo>) -> (m: Self)
        ensures
            m.providers == providers,
    {
        AuthManager { providers }
    }

    /// Whether there is no provider.
    pub fn is_empty(&self) -> (r: bool)
        ensures
            r == (self.providers@.len() == 0),
    {
        self.providers.len() == 0
    }

    /// How many providers there are.
    pub fn provider_count(&self) -> (n: usize)
        ensures
            n == self.providers@.len(),
    {
        self.providers.len()
    }

    /// Begin to ask about a request. Fails when there is nobody to ask.
    pub fn authenticate(&self, protocol: Protocol) -> (r: Result<AuthRun, AuthError>)
        ensures
            match r {
                Ok(run) => {
                    &&& self.providers@.len() > 0
                    &&& run.protocol == protocol
                    &&& run.next == 0
                    &&& run.last_error is None
                },
                Err(e) => {
                    &&& self.providers@.len() == 0
                    &&& e@ == AuthErrorView::Internal("No authentication providers configured"@)
                },
            },
    {
        if self.providers.len() == 0 {
            Err(AuthError::Internal("No authentication providers configured".to_owned()))
        } else {
            Ok(AuthRun { protocol, next: 0, last_error: None })
        }
    }

    /// The next provider to ask, if there is one left that serves the protocol.
    pub fn next_provider(&self, run: &mut AuthRun) -> (r: Option<usize>)
        requires
            old(run).next <= self.providers@.len(),
        ensures
            final(run).protocol == old(run).protocol,
            final(run).last_error == old(run).last_error,
            old(run).next <= final(run).next <= self.providers@.len(),
            forall|k: int|
                old(run).next <= k < final(run).next ==> !(#[trigger] self.providers@[k]).serves(
                    old(run).protocol,
                ),
            match r {
                Some(i) => i == final(run).next && i < self.providers@.len()
                    && self.providers@[i as int].serves(old(run).protocol),
                None => final(run).next == self.providers@.len(),
            },
    {
        while run.next < self.providers.len()
            invariant
                old(run).next <= run.next <= self.providers@.len(),
                run.protocol == old(run).protocol,
                run.last_error == old(run).last_error,
                forall|k: int|
                    old(run).next <= k < run.next ==> !(#[trigger] self.providers@[k]).serves(
                        old(run).protocol,
                    ),
            decreases self.providers@.len() - run.next,
        {
            if self.providers[run.next].supports(run.protocol) {
                return Some(run.next);
            }
            run.next = run.next + 1;
        }
        None
    }

    /// The provider that was to be asked next has answered: its result if it
    /// lets the request in.
    pub fn on_verdict(&self, run: &mut AuthRun, verdict: Result<AuthResult, AuthError>) -> (r: Option<
        AuthResult,
    >)
        requires
            old(run).next < self.providers@.len(),
        ensures
            final(run).protocol == old(run).protocol,
            r is Some <==> (verdict matches Ok(a) && a.authenticated),
            verdict matches Err(e) ==> final(run).last_error == Some(e),
            match r {
                Some(a) => verdict == Ok::<AuthResult, AuthError>(a) && a.authenticated
                    && *final(run) == *old(run),
                None => {
                    &&& !(verdict_of(verdict) is LetIn)
                    &&& final(run).next == old(run).next + 1
                    &&& error_view(final(run).last_error) == Some(
                        refusal(self.providers@[old(run).next as int], verdict_of(verdict)),
                    )
                },
            },
    {
        let total: usize = self.providers.len();
        assert(run.next < total);
        match verdict {
            Ok(a) => {
                if a.authenticated {
                    return Some(a);
                }
                run.last_error = Some(
                    AuthError::Unauthorized(
                        self.providers[run.next].name.clone().concat(" authentication failed"),
                    ),
                );
            },
            Err(e) => {
                run.last_error = Some(e);
            },
        }
        run.next = run.next + 1;
        None
    }

    /// Nobody is left to ask: the error.
    pub fn refused(run: AuthRun) -> (e: AuthError)
        ensures
            e@ == final_error(error_view(run.last_error)),
    {
        match run.last_error {
            Some(e) => e,
            None => AuthError::Unauthorized(
                "No compatible authentication provider found".to_owned(),
            ),
        }
    }
}

/// What the settings ask for.
#[derive(Debug)]
pub enum AuthPlan<'a> {
    /// Everyone is let in.
    Disabled,
    /// Callers are let in by their client certificate, and connections are
    /// encrypted.
    Mtls(&'a MtlsConfig),
}

/// What the settings ask for, or what is wrong with them: authentication without
/// a provider that is known, or by certificates without saying which.
pub fn auth_plan(config: &AuthConfig) -> (r: Result<AuthPlan<'_>, String>)
    ensures
        !config.enabled ==> (r matches Ok(plan) && plan is Disabled),
        config.enabled ==> !(r matches Ok(AuthPlan::Disabled)),
        config.enabled && (forall|i: int|
            0 <= i < config.providers@.len() ==> (#[trigger] config.providers@[i])@ != "mtls"@)
            ==> r is Err,
        config.enabled && !uses_mtls(*config) ==> (r matches Err(e) && e@
            == "Auth enabled but no providers configured"@),
        config.enabled && uses_mtls(*config) ==> match config.mtls {
            Some(mtls) => r matches Ok(AuthPlan::Mtls(m)) && *m == mtls,
            None => r matches Err(e) && e@ == "mTLS provider enabled but no mTLS config found"@,
        },
{
    if !config.enabled {
        return Ok(AuthPlan::Disabled);
    }
    if !list_contains(&config.providers, "mtls") {
        return Err("Auth enabled but no providers configured".to_owned());
    }
    match &config.mtls {
        Some(mtls) => Ok(AuthPlan::Mtls(mtls)),
        None => Err("mTLS provider enabled but no mTLS config found".to_owned()),
    }
}

/// Passing over providers that do not serve the protocol does not change what
/// asking comes to.
pub proof fn law_passing_over_keeps_the_outcome(
    providers: Seq<ProviderInfo>,
    protocol: Protocol,
    verdicts: spec_fn(int) -> Verdict,
    from: int,
    to: int,
    last: Option<AuthErrorView>,
)
    requires
        0 <= from <= to <= providers.len(),
        forall|k: int| from <= k < to ==> !(#[trigger] providers[k]).serves(protocol),
    ensures
        outcome(providers, protocol, verdicts, from, last) == outcome(
            providers,
            protocol,
            verdicts,
            to,
            last,
        ),
    decreases to - from,
{
    if from < to {
        law_passing_over_keeps_the_outcome(providers, protocol, verdicts, from + 1, to, last);
    }
}

/// Asking a provider that serves the protocol settles the request when it lets it
/// in, and else leaves the outcome to the providers after it.
pub proof fn law_asking_in_turn_keeps_the_outcome(
    providers: Seq<ProviderInfo>,
    protocol: Protocol,
    verdicts: spec_fn(int) -> Verdict,
    i: int,
    last: Option<AuthErrorView>,
)
    requires
        0 <= i < providers.len(),
        providers[i].serves(protocol),
    ensures
        outcome(providers, protocol, verdicts, i, last) == (if verdicts(i) is LetIn {
            Ok(i)
        } else {
            outcome(
                providers,
                protocol,
                verdicts,
                i + 1,
                Some(refusal(providers[i], verdicts(i))),
            )
        }),
{
}

/// One provider that serves the protocol and lets the request in is enough, no
/// matter what the others say; and without one the request is not let in.
pub proof fn law_any_provider_is_enough(
    providers: Seq<ProviderInfo>,
    protocol: Protocol,
    verdicts: spec_fn(int) -> Verdict,
    i: int,
    last: Option<AuthErrorView>,
)
    requires
        0 <= i,
    ensures
        outcome(providers, protocol, verdicts, i, last) is Ok <==> exists|k: int|
            i <= k < providers.len() && (#[trigger] providers[k]).serves(protocol) && verdicts(
                k,
            ) is LetIn,
    decreases providers.len() - i,
{
    if i < providers.len() {
        let x = providers[i];
        if !x.serves(protocol) {
            law_any_provider_is_enough(providers, protocol, verdicts, i + 1, last);
        } else if !(verdicts(i) is LetIn) {
            law_any_provider_is_enough(
                providers,
                protocol,
                verdicts,
                i + 1,
                Some(refusal(x, verdicts(i))),
            );
        }
        if outcome(providers, protocol, verdicts, i, last) is Ok && (!x.serves(protocol) || !(
        verdicts(i) is LetIn)) {
            let k = choose|k: int|
                i + 1 <= k < providers.len() && (#[trigger] providers[k]).serves(protocol)
                    && verdicts(k) is LetIn;
            assert(providers[k].serves(protocol));
        }
    }
}

/// A request is let in by the first provider that serves its protocol and lets it
/// in: every provider before that serves it too has been asked and refused.
pub proof fn law_the_first_to_let_in_counts(
    providers: Seq<ProviderInfo>,
    protocol: Protocol,
    verdicts: spec_fn(int) -> Verdict,
    i: int,
    last: Option<AuthErrorView>,
)
    requires
        0 <= i,
    ensures
        outcome(providers, protocol, verdicts, i, last) matches Ok(k) ==> {
            &&& i <= k < providers.len()
            &&& verdicts(k) is LetIn
            &&& (protocol == Protocol::Http && providers[k].supports_http) || (protocol
                == Protocol::Grpc && providers[k].supports_grpc)
            &&& forall|j: int|
                i <= j < k && (#[trigger] providers[j]).serves(protocol) ==> !(verdicts(j) is LetIn)
        },
    decreases providers.len() - i,
{
    if i < providers.len() {
        let x = providers[i];
        if !x.serves(protocol) {
            law_the_first_to_let_in_counts(providers, protocol, verdicts, i + 1, last);
        } else if !(verdicts(i) is LetIn) {
            law_the_first_to_let_in_counts(
                providers,
                protocol,
                verdicts,
                i + 1,
                Some(refusal(x, verdicts(i))),
            );
        }
    }
}

/// A request that nobody lets in gets the error of the last provider that was asked:
/// its own, or that it did not authenticate the caller. If none serves the protocol,
/// that is what is said.
pub proof fn law_the_last_refusal_is_reported(
    providers: Seq<ProviderInfo>,
    protocol: Protocol,
    verdicts: spec_fn(int) -> Verdict,
    i: int,
    last: Option<AuthErrorView>,
    k: int,
)
    requires
        0 <= i <= k < providers.len(),
        outcome(providers, protocol, verdicts, i, last) is Err,
        providers[k].serves(protocol),
        forall|j: int| k < j < providers.len() ==> !(#[trigger] providers[j]).serves(protocol),
    ensures
        outcome(providers, protocol, verdicts, i, last) == Err::<int, AuthErrorView>(
            match verdicts(k) {
                Verdict::Failed(e) => e,
                _ => AuthErrorView::Unauthorized(providers[k].name@ + " authentication failed"@),
            },
        ),
    decreases k - i,
{
    let x = providers[i];
    if i == k {
        law_passing_over_keeps_the_outcome(
            providers,
            protocol,
            verdicts,
            k + 1,
            providers.len() as int,
            Some(refusal(x, verdicts(k))),
        );
    } else if !x.serves(protocol) {
        law_the_last_refusal_is_reported(providers, protocol, verdicts, i + 1, last, k);
    } else {
        law_the_last_refusal_is_reported(
            providers,
            protocol,
            verdicts,
            i + 1,
            Some(refusal(x, verdicts(i))),
            k,
        );
    }
}

/// Where no provider serves the protocol, nobody is let in, and that is what is said.
pub proof fn law_without_a_provider_nobody_is_let_in(
    providers: Seq<ProviderInfo>,
    protocol: Protocol,
    verdicts: spec_fn(int) -> Verdict,
)
    requires
        forall|j: int| 0 <= j < providers.len() ==> !(#[trigger] providers[j]).serves(protocol),
    ensures
        outcome(providers, protocol, verdicts, 0, None) == Err::<int, AuthErrorView>(
            AuthErrorView::Unauthorized("No compatible authentication provider found"@),
        ),
{
    law_passing_over_keeps_the_outcome(
        providers,
        protocol,
        verdicts,
        0,
        providers.len() as int,
        None,
    );
}

/// A provider lets a caller in exactly when it says without an error that the caller
/// is authenticated.
pub proof fn law_only_the_authenticated_are_let_in(r: Result<AuthResult, AuthError>)
    ensures
        verdict_of(r) is LetIn <==> (r matches Ok(a) && a.authenticated),
        r matches Err(e) ==> verdict_of(r) == Verdict::Failed(e@),
{
}

/// What is said of a caller that is not let in.
pub proof fn law_auth_errors_say_what_went_wrong(e: AuthError)
    ensures
        e is MissingClientCert ==> e.text() == "Missing client certificate"@,
        e matches AuthError::InvalidCert(s) ==> e.text() == "Invalid client certificate: "@ + s@,
        e matches AuthError::CertVerificationFailed(s) ==> e.text()
            == "Certificate verification failed: "@ + s@,
        e matches AuthError::Unauthorized(s) ==> e.text() == "Unauthorized: "@ + s@,
        e matches AuthError::ProviderError(s) ==> e.text() == "Authentication provider error: "@
            + s@,
        e matches AuthError::Internal(s) ==> e.text() == "Internal error: "@ + s@,
{
}

} // verus!
