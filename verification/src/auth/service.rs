//! Authentication of HTTP requests, behind a proxy or not.

use vstd::prelude::*;

use super::mtls::{der_view, first_block, first_of, pem_blocks, read_pem};
use super::{AuthError, AuthErrorView, AuthManager, AuthRequest, AuthResult, Protocol, TlsInfo};
use crate::grpc::request::option_text;

verus! {

/// A percent-encoded text decoded, if the bytes it stands for are UTF-8.
pub uninterp spec fn percent_decoded(s: Seq<char>) -> Option<Seq<char>>;

/// `urlencoding::decode`: the decoded text, which depends on the text alone and
/// is named, not described.
#[verifier::external_body]
fn percent_decode(s: &str) -> (r: Option<String>)
    ensures
        option_text(r) == percent_decoded(s@),
{
    urlencoding::decode(s).ok().map(|text| text.into_owned())
}

/// The contents of the first PEM block of a certificate.
pub fn pem_to_der(pem_data: &[u8]) -> (r: Result<Vec<u8>, AuthError>)
    ensures
        der_view(r) == first_of(pem_blocks(pem_data@), "No PEM blocks found in certificate"@),
{
    first_block(read_pem(pem_data), "No PEM blocks found in certificate")
}

/// The certificate in a header, in DER: decoded, and the first PEM block of
/// what comes out.
pub open spec fn header_certificate(header: Option<Seq<char>>) -> Option<Seq<u8>> {
    match header {
        None => None,
        Some(h) => match percent_decoded(h) {
            None => None,
            Some(pem) => match first_of(
                pem_blocks(vstd::utf8::encode_utf8(pem)),
                "No PEM blocks found in certificate"@,
            ) {
                Ok(der) => Some(der),
                Err(_) => None,
            },
        },
    }
}

/// A text that may be absent.
pub open spec fn str_option(s: Option<&str>) -> Option<Seq<char>> {
    match s {
        Some(s) => Some(s@),
        None => None,
    }
}

/// What `tls_info` says of a connection.
pub open spec fn describes(
    info: TlsInfo,
    der: Seq<u8>,
    version: Option<&str>,
    cipher: Option<&str>,
) -> bool {
    &&& info.peer_certificate matches Some(c) && c@ == der
    &&& info.certificate_chain@.len() == 0
    &&& info.tls_version@ == (match version {
        Some(v) => v@,
        None => "unknown"@,
    })
    &&& info.cipher_suite@ == (match cipher {
        Some(c) => c@,
        None => "unknown"@,
    })
}

/// What is known of a connection whose client certificate a proxy passed on.
pub fn proxied_tls_info(der: Vec<u8>, version: Option<&str>, cipher: Option<&str>) -> (info: TlsInfo)
    ensures
        describes(info, der@, version, cipher),
        info.peer_certificate matches Some(c) && c@ == der@,
        version matches Some(v) ==> info.tls_version@ == v@,
        cipher matches Some(c) ==> info.cipher_suite@ == c@,
        version is None ==> info.tls_version@ == "unknown"@,
        cipher is None ==> info.cipher_suite@ == "unknown"@,
{
    TlsInfo {
        peer_certificate: Some(der),
        certificate_chain: Vec::new(),
        tls_version: match version {
            Some(v) => v.to_owned(),
            None => "unknown".to_owned(),
        },
        cipher_suite: match cipher {
            Some(c) => c.to_owned(),
            None => "unknown".to_owned(),
        },
    }
}

/// What is known of a connection by the headers that a proxy sets: the client
/// certificate, percent-encoded, the TLS version and the cipher suite. A header
/// that is missing or no text is `None`. Nothing is known without a certificate
/// that can be read.
pub fn extract_tls_info_from_headers(
    cert: Option<&str>,
    version: Option<&str>,
    cipher: Option<&str>,
) -> (r: Option<TlsInfo>)
    ensures
        match header_certificate(str_option(cert)) {
            Some(der) => r matches Some(info) && describes(info, der, version, cipher),
            None => r is None,
        },
        cert is None ==> r is None,
        r matches Some(info) ==> info.peer_certificate is Some,
{
    let header = match cert {
        Some(h) => h,
        None => {
            return None;
        },
    };
    let pem = match percent_decode(header) {
        Some(pem) => pem,
        None => {
            return None;
        },
    };
    match pem_to_der(pem.as_str().as_bytes()) {
        Ok(der) => Some(proxied_tls_info(der, version, cipher)),
        Err(_) => None,
    }
}

/// What is done with a request at first sight.
#[derive(Debug)]
pub enum Screening {
    /// It is turned away.
    Reject(AuthError),
    /// It is let in: its certificate was checked when it connected.
    PassThrough,
    /// The providers are asked.
    Ask(AuthRequest),
}

/// Look at a request by what is known of its connection. Without a certificate
/// it is turned away where proxies are to pass one on, and else taken for one
/// whose certificate was checked when it connected.
pub fn screen(tls_info: Option<TlsInfo>, require_cert_headers: bool, peer_addr: String) -> (s:
    Screening)
    ensures
        match tls_info {
            None => if require_cert_headers {
                s matches Screening::Reject(e) && e@ == AuthErrorView::MissingClientCert
            } else {
                s is PassThrough
            },
            Some(info) => s matches Screening::Ask(r) && r.protocol == Protocol::Http
                && r.peer_addr == peer_addr && r.tls_info == Some(info),
        },
{
    match tls_info {
        None => {
            if require_cert_headers {
                Screening::Reject(AuthError::MissingClientCert)
            } else {
                Screening::PassThrough
            }
        },
        Some(info) => Screening::Ask(
            AuthRequest { protocol: Protocol::Http, peer_addr, tls_info: Some(info) },
        ),
    }
}

/// What asking the providers means for a request: whether it is let in.
pub fn conclude(result: Result<AuthResult, AuthError>) -> (r: Result<(), AuthError>)
    ensures
        match result {
            Ok(a) => if a.authenticated {
                r is Ok
            } else {
                r matches Err(e) && e@ == AuthErrorView::Unauthorized("Authentication failed"@)
            },
            Err(e) => r == Err::<(), AuthError>(e),
        },
{
    match result {
        Ok(a) => {
            if a.authenticated {
                Ok(())
            } else {
                Err(AuthError::Unauthorized("Authentication failed".to_owned()))
            }
        },
        Err(e) => Err(e),
    }
}

/// Authentication for a server.
#[derive(Debug, Clone)]
pub struct AuthService {
    pub manager: AuthManager,
}

impl AuthService {
    pub fn new(manager: AuthManager) -> (s: Self)
        ensures
            s.manager == manager,
    {
        AuthService { manager }
    }

    /// The manager that asks the providers.
    pub fn manager(&self) -> (m: &AuthManager)
        ensures
            *m == self.manager,
    {
        &self.manager
    }
}

/// A header holds a certificate exactly when it can be decoded and what comes out
/// begins with a PEM block; the certificate is the content of the first one.
pub proof fn law_headers_hold_certificates(header: Seq<char>)
    ensures
        header_certificate(None) is None,
        header_certificate(Some(header)) is Some <==> {
            &&& percent_decoded(header) is Some
            &&& pem_blocks(vstd::utf8::encode_utf8(percent_decoded(header)->0)) is Ok
            &&& pem_blocks(vstd::utf8::encode_utf8(percent_decoded(header)->0))->Ok_0.len() > 0
        },
        header_certificate(Some(header)) matches Some(der) ==> der == pem_blocks(
            vstd::utf8::encode_utf8(percent_decoded(header)->0),
        )->Ok_0[0],
{
}

} // verus!
