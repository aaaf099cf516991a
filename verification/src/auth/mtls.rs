//! Letting callers in by their client certificate.

use vstd::prelude::*;
use x509_parser::prelude::{FromDer, GeneralName, ParsedExtension, X509Certificate, X509Error};
use x509_parser::public_key::PublicKey;

use super::{AuthError, AuthErrorView, AuthRequest, AuthResult, ProviderInfo};
use crate::config::MtlsConfig;
use crate::text::{
    chars_of, contains, contains_text, join, joined, list_contains, number_list,
    number_list_string, quote, quoted, texts,
};

verus! {

/// A name that a certificate holds besides its subject.
#[derive(Debug, Clone)]
pub enum AltName {
    Dns(String),
    Ip(Vec<u8>),
    Other,
}

/// Such a name as a mathematical value.
pub enum AltNameView {
    Dns(Seq<char>),
    Ip(Seq<u8>),
    Other,
}

/// An extension of a certificate.
#[derive(Debug, Clone)]
pub enum Extension {
    AlternativeNames(Vec<AltName>),
    Other,
}

/// An extension as a mathematical value.
pub enum ExtensionView {
    AlternativeNames(Seq<AltNameView>),
    Other,
}

/// What is read of a certificate.
#[derive(Debug, Clone)]
pub struct Certificate {
    /// Who issued it: the name as encoded.
    pub issuer: Vec<u8>,
    /// Whom it is for: the name as encoded.
    pub subject: Vec<u8>,
    /// Whom it is for, in words.
    pub subject_text: String,
    /// The first and last second at which it holds, since the Unix epoch.
    pub not_before: i64,
    pub not_after: i64,
}

/// A certificate as a mathematical value.
pub struct CertificateView {
    pub issuer: Seq<u8>,
    pub subject: Seq<u8>,
    pub subject_text: Seq<char>,
    pub not_before: i64,
    pub not_after: i64,
}

impl View for AltName {
    type V = AltNameView;

    open spec fn view(&self) -> AltNameView {
        match *self {
            AltName::Dns(s) => AltNameView::Dns(s@),
            AltName::Ip(b) => AltNameView::Ip(b@),
            AltName::Other => AltNameView::Other,
        }
    }
}

/// Names as mathematical values.
pub open spec fn alt_names_view(names: Seq<AltName>) -> Seq<AltNameView> {
    Seq::new(names.len(), |i: int| names[i]@)
}

impl View for Extension {
    type V = ExtensionView;

    open spec fn view(&self) -> ExtensionView {
        match *self {
            Extension::AlternativeNames(names) => ExtensionView::AlternativeNames(
                alt_names_view(names@),
            ),
            Extension::Other => ExtensionView::Other,
        }
    }
}

impl View for Certificate {
    type V = CertificateView;

    open spec fn view(&self) -> CertificateView {
        CertificateView {
            issuer: self.issuer@,
            subject: self.subject@,
            subject_text: self.subject_text@,
            not_before: self.not_before,
            not_after: self.not_after,
        }
    }
}

/// What reading a certificate gave.
pub open spec fn read_view(r: Result<Certificate, String>) -> Result<CertificateView, Seq<char>> {
    match r {
        Ok(c) => Ok(c@),
        Err(e) => Err(e@),
    }
}

/// The certificate that DER bytes begin with, or why there is none.
pub uninterp spec fn certificate_of(der: Seq<u8>) -> Result<CertificateView, Seq<char>>;

/// `X509Certificate::from_der`, with `X509Name::as_raw` and its words, and
/// `ASN1Time::timestamp`: what the bytes say, which depends on them alone and is
/// named, not described. Two names are equal for that crate exactly when their
/// raw bytes are, since the rest of a name is read off these.
#[verifier::external_body]
fn read_certificate(der: &[u8]) -> (r: Result<Certificate, String>)
    ensures
        read_view(r) == certificate_of(der@),
{
    let (_, cert) = X509Certificate::from_der(der).map_err(|e| e.to_string())?;
    Ok(
        Certificate {
            issuer: cert.issuer().as_raw().to_vec(),
            subject: cert.subject().as_raw().to_vec(),
            subject_text: cert.subject().to_string(),
            not_before: cert.validity().not_before.timestamp(),
            not_after: cert.validity().not_after.timestamp(),
        },
    )
}

/// What a look at a signature showed.
#[derive(Debug, Clone, Copy, PartialEq, Eq, Structural)]
pub enum SignatureCheck {
    /// The key made it.
    Good,
    /// The key did not make it, or is of a form that the look cannot take.
    Bad,
    /// The algorithm is not known, or a certificate cannot be read.
    Unknown,
}

/// What a look at the signature of the certificate that the first DER bytes begin
/// with shows, by the key of the one that the second begin with.
pub uninterp spec fn signature_of(client: Seq<u8>, ca: Seq<u8>) -> SignatureCheck;

/// `X509Certificate::verify_signature` of what `from_der` reads of a client's
/// certificate, with the `public_key` of the CA's: what it finds, which depends on
/// the bytes of the two alone and is named, not described.
#[verifier::external_body]
fn look_at_signature(client: &[u8], ca: &[u8]) -> (r: SignatureCheck)
    ensures
        r == signature_of(client@, ca@),
{
    match (X509Certificate::from_der(client), X509Certificate::from_der(ca)) {
        (Ok((_, client)), Ok((_, ca))) => match client.verify_signature(Some(ca.public_key())) {
            Ok(()) => SignatureCheck::Good,
            Err(X509Error::SignatureVerificationError) => SignatureCheck::Bad,
            Err(_) => SignatureCheck::Unknown,
        },
        _ => SignatureCheck::Unknown,
    }
}

/// The form of a certificate's key.
#[derive(Debug, Clone, Copy, PartialEq, Eq, Structural)]
pub enum KeyForm {
    /// An RSA key of so many bits.
    Rsa(usize),
    /// A point on a curve, by its first byte.
    Point(Option<u8>),
    Other,
}

/// The form of the key of the certificate that DER bytes begin with.
pub uninterp spec fn key_form_of(der: Seq<u8>) -> KeyForm;

/// `SubjectPublicKeyInfo::parsed` of the `public_key` that
/// `X509Certificate::from_der` reads, with `RSAPublicKey::key_size` and
/// `ECPoint::data`: what they say of a key, which depends on the bytes alone and is
/// named, not described.
#[verifier::external_body]
fn read_key_form(der: &[u8]) -> (r: KeyForm)
    ensures
        r == key_form_of(der@),
{
    match X509Certificate::from_der(der) {
        Ok((_, cert)) => match cert.public_key().parsed() {
            Ok(PublicKey::RSA(key)) => KeyForm::Rsa(key.key_size()),
            Ok(PublicKey::EC(point)) => KeyForm::Point(point.data().first().copied()),
            _ => KeyForm::Other,
        },
        Err(_) => KeyForm::Other,
    }
}

/// The fewest bits of an RSA key that every look at a signature takes.
pub const MIN_RSA_BITS: usize = 2048;

/// The most bits of an RSA key that a look at a signature takes.
pub const MAX_RSA_BITS: usize = 8192;

/// The first byte of a point that is written out in full.
pub const FULL_POINT: u8 = 4;

/// Whether it is certain that the key did not make a signature: the look at it
/// says so, and takes keys of this form.
pub open spec fn forged(check: SignatureCheck, key: KeyForm) -> bool {
    check == SignatureCheck::Bad && match key {
        KeyForm::Rsa(bits) => MIN_RSA_BITS <= bits <= MAX_RSA_BITS,
        KeyForm::Point(first) => first == Some(FULL_POINT),
        KeyForm::Other => true,
    }
}

/// Whether it is certain that the key did not make a signature.
pub fn is_forged(check: SignatureCheck, key: KeyForm) -> (r: bool)
    ensures
        r == forged(check, key),
        r ==> check == SignatureCheck::Bad,
        check == SignatureCheck::Bad && key is Other ==> r,
{
    check == SignatureCheck::Bad && match key {
        KeyForm::Rsa(bits) => MIN_RSA_BITS <= bits && bits <= MAX_RSA_BITS,
        KeyForm::Point(Some(first)) => first == FULL_POINT,
        KeyForm::Point(None) => false,
        KeyForm::Other => true,
    }
}

/// What reading extensions gave.
pub open spec fn extensions_view(r: Result<Vec<Extension>, String>) -> Result<
    Seq<ExtensionView>,
    Seq<char>,
> {
    match r {
        Ok(v) => Ok(Seq::new(v@.len(), |i: int| v@[i]@)),
        Err(e) => Err(e@),
    }
}

/// The extensions of the certificate that DER bytes begin with, or why there is
/// no certificate.
pub uninterp spec fn extensions_of(der: Seq<u8>) -> Result<Seq<ExtensionView>, Seq<char>>;

/// `X509Certificate::extensions` of what `from_der` reads, each by
/// `X509Extension::parsed_extension`: what the bytes say, which depends on them
/// alone and is named, not described.
#[verifier::external_body]
fn read_extensions(der: &[u8]) -> (r: Result<Vec<Extension>, String>)
    ensures
        extensions_view(r) == extensions_of(der@),
{
    let (_, cert) = X509Certificate::from_der(der).map_err(|e| e.to_string())?;
    let name = |n: &GeneralName| match n {
        GeneralName::DNSName(dns) => AltName::Dns(dns.to_string()),
        GeneralName::IPAddress(ip) => AltName::Ip(ip.to_vec()),
        _ => AltName::Other,
    };
    Ok(cert.extensions().iter().map(|e| match e.parsed_extension() {
        ParsedExtension::SubjectAlternativeName(san) => Extension::AlternativeNames(
            san.general_names.iter().map(name).collect(),
        ),
        _ => Extension::Other,
    }).collect())
}

/// Byte strings as sequences.
pub open spec fn blocks_view(blocks: Seq<Vec<u8>>) -> Seq<Seq<u8>> {
    Seq::new(blocks.len(), |i: int| blocks[i]@)
}

/// What reading blocks gave.
pub open spec fn blocks_result(r: Result<Vec<Vec<u8>>, String>) -> Result<Seq<Seq<u8>>, Seq<char>> {
    match r {
        Ok(b) => Ok(blocks_view(b@)),
        Err(e) => Err(e@),
    }
}

/// The contents of the PEM blocks in a text, in order, or what is wrong with it.
pub uninterp spec fn pem_blocks(data: Seq<u8>) -> Result<Seq<Seq<u8>>, Seq<char>>;

/// `Pem::iter_from_buffer`, to its end or its first error: the contents of the
/// blocks, which depend on the data alone and are named, not described.
#[verifier::external_body]
pub(crate) fn read_pem(data: &[u8]) -> (r: Result<Vec<Vec<u8>>, String>)
    ensures
        blocks_result(r) == pem_blocks(data@),
{
    x509_parser::pem::Pem::iter_from_buffer(data)
        .map(|block| block.map(|pem| pem.contents))
        .collect::<Result<Vec<_>, _>>()
        .map_err(|e| e.to_string())
}

/// The first of the blocks, or the error; `empty` is said when there is none.
pub open spec fn first_of(blocks: Result<Seq<Seq<u8>>, Seq<char>>, empty: Seq<char>) -> Result<
    Seq<u8>,
    AuthErrorView,
> {
    match blocks {
        Err(e) => Err(AuthErrorView::Internal("Failed to parse PEM certificate: "@ + e)),
        Ok(b) => if b.len() == 0 {
            Err(AuthErrorView::Internal(empty))
        } else {
            Ok(b[0])
        },
    }
}

/// DER bytes, or the error.
pub open spec fn der_view(r: Result<Vec<u8>, AuthError>) -> Result<Seq<u8>, AuthErrorView> {
    match r {
        Ok(d) => Ok(d@),
        Err(e) => Err(e@),
    }
}

fn clone_bytes(v: &Vec<u8>) -> (r: Vec<u8>)
    ensures
        r@ == v@,
{
    let mut r: Vec<u8> = Vec::new();
    let mut i: usize = 0;
    while i < v.len()
        invariant
            i <= v@.len(),
            r@ == v@.take(i as int),
        decreases v@.len() - i,
    {
        r.push(v[i]);
        i = i + 1;
        assert(r@ =~= v@.take(i as int));
    }
    assert(r@ =~= v@);
    r
}

/// The first of the blocks that reading gave; `empty` is said when there is
/// none.
pub fn first_block(blocks: Result<Vec<Vec<u8>>, String>, empty: &str) -> (r: Result<
    Vec<u8>,
    AuthError,
>)
    ensures
        der_view(r) == first_of(blocks_result(blocks), empty@),
{
    match blocks {
        Err(e) => Err(
            AuthError::Internal(
                "Failed to parse PEM certificate: ".to_owned().concat(e.as_str()),
            ),
        ),
        Ok(b) => {
            assert(blocks_view(b@).len() == b@.len());
            if b.len() == 0 {
                Err(AuthError::Internal(empty.to_owned()))
            } else {
                Ok(clone_bytes(&b[0]))
            }
        },
    }
}

/// What is wrong with a client certificate at a moment, if anything: it cannot
/// be read, nor the CA's; it does not name the CA as its issuer, or it is certain
/// that the CA did not sign it, where that is asked; or it does not hold yet, or no
/// more.
pub open spec fn chain_fault(
    client: Result<CertificateView, Seq<char>>,
    ca: Result<CertificateView, Seq<char>>,
    forged: bool,
    allow_self_signed: bool,
    now: i64,
) -> Option<AuthErrorView> {
    match (client, ca) {
        (Err(e), _) => Some(
            AuthErrorView::InvalidCert("Failed to parse client certificate: "@ + e),
        ),
        (_, Err(e)) => Some(AuthErrorView::Internal("Failed to parse CA certificate: "@ + e)),
        (Ok(c), Ok(a)) => {
            if !allow_self_signed && (c.issuer != a.subject || forged) {
                Some(
                    AuthErrorView::CertVerificationFailed(
                        "Client certificate not signed by configured CA"@,
                    ),
                )
            } else if now < c.not_before {
                Some(AuthErrorView::CertVerificationFailed("Certificate not yet valid"@))
            } else if now > c.not_after {
                Some(AuthErrorView::CertVerificationFailed("Certificate has expired"@))
            } else {
                None
            }
        },
    }
}

/// Whether `r` reports exactly `fault`.
pub open spec fn auth_reports(r: Result<(), AuthError>, fault: Option<AuthErrorView>) -> bool {
    match fault {
        Some(e) => r matches Err(x) && x@ == e,
        None => r is Ok,
    }
}

fn same_bytes(a: &Vec<u8>, b: &Vec<u8>) -> (r: bool)
    ensures
        r == (a@ == b@),
{
    if a.len() != b.len() {
        return false;
    }
    let mut i: usize = 0;
    while i < a.len()
        invariant
            i <= a@.len(),
            a@.len() == b@.len(),
            forall|k: int| 0 <= k < i ==> a@[k] == b@[k],
        decreases a@.len() - i,
    {
        if a[i] != b[i] {
            return false;
        }
        i = i + 1;
    }
    assert(a@ =~= b@);
    true
}

/// Check a client certificate, as it was read, against the CA's. `forged` says
/// whether it is certain that the CA's key did not make its signature.
pub fn check_chain(
    client: &Result<Certificate, String>,
    ca: &Result<Certificate, String>,
    forged: bool,
    allow_self_signed: bool,
    now: i64,
) -> (r: Result<(), AuthError>)
    ensures
        auth_reports(
            r,
            chain_fault(read_view(*client), read_view(*ca), forged, allow_self_signed, now),
        ),
{
    let c = match client {
        Ok(c) => c,
        Err(e) => {
            return Err(
                AuthError::InvalidCert(
                    "Failed to parse client certificate: ".to_owned().concat(e.as_str()),
                ),
            );
        },
    };
    let a = match ca {
        Ok(a) => a,
        Err(e) => {
            return Err(
                AuthError::Internal(
                    "Failed to parse CA certificate: ".to_owned().concat(e.as_str()),
                ),
            );
        },
    };
    if !allow_self_signed && (!same_bytes(&c.issuer, &a.subject) || forged) {
        return Err(
            AuthError::CertVerificationFailed(
                "Client certificate not signed by configured CA".to_owned(),
            ),
        );
    }
    if now < c.not_before {
        return Err(AuthError::CertVerificationFailed("Certificate not yet valid".to_owned()));
    }
    if now > c.not_after {
        return Err(AuthError::CertVerificationFailed("Certificate has expired".to_owned()));
    }
    Ok(())
}

/// An address as it is shown: the list of its bytes.
pub open spec fn address_text(b: Seq<u8>) -> Seq<char> {
    number_list(b.map_values(|x: u8| x as nat))
}

fn address_string(b: &Vec<u8>) -> (s: String)
    ensures
        s@ == address_text(b@),
{
    let mut numbers: Vec<u64> = Vec::new();
    let mut i: usize = 0;
    while i < b.len()
        invariant
            i <= b@.len(),
            numbers@.len() == i,
            forall|k: int| 0 <= k < i ==> #[trigger] numbers@[k] == b@[k],
        decreases b@.len() - i,
    {
        numbers.push(b[i] as u64);
        i = i + 1;
    }
    assert(numbers@.map_values(|n: u64| n as nat) =~= b@.map_values(|x: u8| x as nat));
    number_list_string(&numbers)
}

/// The host names and addresses among names, in order.
pub open spec fn named_hosts(names: Seq<AltNameView>) -> Seq<Seq<char>>
    decreases names.len(),
{
    if names.len() == 0 {
        Seq::empty()
    } else {
        let before = named_hosts(names.drop_last());
        match names.last() {
            AltNameView::Dns(s) => before.push(s),
            AltNameView::Ip(b) => before.push(address_text(b)),
            AltNameView::Other => before,
        }
    }
}

/// The host names and addresses in extensions, in order.
pub open spec fn hosts(extensions: Seq<ExtensionView>) -> Seq<Seq<char>>
    decreases extensions.len(),
{
    if extensions.len() == 0 {
        Seq::empty()
    } else {
        let before = hosts(extensions.drop_last());
        match extensions.last() {
            ExtensionView::AlternativeNames(names) => before + named_hosts(names),
            ExtensionView::Other => before,
        }
    }
}

/// The subject that a read certificate is for, in words.
pub fn subject_of(cert: Result<Certificate, String>) -> (r: Result<String, AuthError>)
    ensures
        match cert {
            Ok(c) => r matches Ok(s) && s@ == c.subject_text@,
            Err(e) => r matches Err(x) && x@ == AuthErrorView::InvalidCert(
                "Failed to parse certificate: "@ + e@,
            ),
        },
{
    match cert {
        Ok(c) => Ok(c.subject_text),
        Err(e) => Err(
            AuthError::InvalidCert("Failed to parse certificate: ".to_owned().concat(e.as_str())),
        ),
    }
}

/// The host names and addresses in the extensions that were read.
pub fn sans_of(extensions: &Result<Vec<Extension>, String>) -> (r: Result<Vec<String>, AuthError>)
    ensures
        match extensions_view(*extensions) {
            Ok(x) => r matches Ok(s) && texts(s@) == hosts(x),
            Err(e) => r matches Err(x) && x@ == AuthErrorView::InvalidCert(
                "Failed to parse certificate: "@ + e,
            ),
        },
{
    let v = match extensions {
        Ok(v) => v,
        Err(e) => {
            return Err(
                AuthError::InvalidCert(
                    "Failed to parse certificate: ".to_owned().concat(e.as_str()),
                ),
            );
        },
    };
    let ghost seen = Seq::new(v@.len(), |i: int| v@[i]@);
    let mut sans: Vec<String> = Vec::new();
    let mut i: usize = 0;
    assert(texts(sans@) =~= hosts(seen.take(0)));
    while i < v.len()
        invariant
            i <= v@.len(),
            seen == Seq::new(v@.len(), |i: int| v@[i]@),
            texts(sans@) == hosts(seen.take(i as int)),
        decreases v@.len() - i,
    {
        let ghost upto = seen.take(i + 1);
        assert(upto.drop_last() =~= seen.take(i as int));
        assert(upto.last() == v@[i as int]@);
        let ghost before = texts(sans@);
        if let Extension::AlternativeNames(names) = &v[i] {
            let mut j: usize = 0;
            let ghost all = alt_names_view(names@);
            assert(before + named_hosts(all.take(0)) =~= before);
            while j < names.len()
                invariant
                    j <= names@.len(),
                    all == alt_names_view(names@),
                    texts(sans@) == before + named_hosts(all.take(j as int)),
                decreases names@.len() - j,
            {
                let ghost some = all.take(j + 1);
                assert(some.drop_last() =~= all.take(j as int));
                assert(some.last() == names@[j as int]@);
                let ghost held = texts(sans@);
                match &names[j] {
                    AltName::Dns(s) => {
                        sans.push(s.clone());
                        assert(texts(sans@) =~= held.push(s@));
                    },
                    AltName::Ip(b) => {
                        sans.push(address_string(b));
                        assert(texts(sans@) =~= held.push(address_text(b@)));
                    },
                    AltName::Other => {},
                }
                j = j + 1;
                assert(texts(sans@) =~= before + named_hosts(all.take(j as int)));
            }
            assert(all.take(j as int) =~= all);
        }
        i = i + 1;
    }
    assert(seen.take(i as int) =~= seen);
    Ok(sans)
}

/// Texts as the `Debug` format of a list of strings shows them.
pub open spec fn quoted_list(items: Seq<Seq<char>>) -> Seq<char> {
    "["@ + joined(items.map_values(|s: Seq<char>| quoted(s)), ", "@) + "]"@
}

fn quoted_list_string(items: &Vec<String>) -> (s: String)
    ensures
        s@ == quoted_list(texts(items@)),
{
    let mut parts: Vec<String> = Vec::new();
    let mut i: usize = 0;
    assert(texts(parts@) =~= texts(items@).take(0).map_values(|s: Seq<char>| quoted(s)));
    while i < items.len()
        invariant
            i <= items@.len(),
            texts(parts@) == texts(items@).take(i as int).map_values(|s: Seq<char>| quoted(s)),
        decreases items@.len() - i,
    {
        let ghost before = texts(parts@);
        parts.push(quote(items[i].as_str()));
        assert(texts(parts@) =~= before.push(quoted(items@[i as int]@)));
        i = i + 1;
        assert(texts(parts@) =~= texts(items@).take(i as int).map_values(
            |s: Seq<char>| quoted(s),
        ));
    }
    assert(texts(items@).take(i as int) =~= texts(items@));
    "[".to_owned().concat(join(&parts, ", ").as_str()).concat("]")
}

/// Whether a subject is let in: anyone when it is not looked at or nobody is
/// listed, else those whose subject holds one of the texts listed.
pub open spec fn subject_allowed(config: MtlsConfig, subject: Seq<char>) -> bool {
    !config.verify_subject || config.allowed_subjects@.len() == 0 || exists|i: int|
        0 <= i < config.allowed_subjects@.len() && contains(
            subject,
            (#[trigger] config.allowed_subjects@[i])@,
        )
}

/// Whether names are let in: any when they are not looked at or none is listed,
/// else when one of them is listed.
pub open spec fn sans_allowed(config: MtlsConfig, sans: Seq<Seq<char>>) -> bool {
    !config.verify_san || config.allowed_sans@.len() == 0 || exists|i: int|
        0 <= i < sans.len() && is_listed(config.allowed_sans@, #[trigger] sans[i])
}

/// Whether `s` is among `items`, by itself or as a host name after `DNS:`.
pub open spec fn is_listed(items: Seq<String>, s: Seq<char>) -> bool {
    exists|i: int|
        0 <= i < items.len() && ((#[trigger] items[i])@ == s || items[i]@ == "DNS:"@ + s)
}

/// The error for a subject that is not let in.
pub open spec fn subject_refused(subject: Seq<char>) -> AuthErrorView {
    AuthErrorView::Unauthorized("Subject '"@ + subject + "' not in allowlist"@)
}

/// The error for names that are not let in.
pub open spec fn sans_refused(sans: Seq<Seq<char>>) -> AuthErrorView {
    AuthErrorView::Unauthorized("No SANs in allowlist (got: "@ + quoted_list(sans) + ")"@)
}

/// Who a caller is by its certificate, and for what names, or why it is not let
/// in.
pub open spec fn mtls_outcome(
    config: MtlsConfig,
    client: Result<CertificateView, Seq<char>>,
    extensions: Result<Seq<ExtensionView>, Seq<char>>,
    ca: Result<CertificateView, Seq<char>>,
    forged: bool,
    now: i64,
) -> Result<(Seq<char>, Seq<Seq<char>>), AuthErrorView> {
    match chain_fault(client, ca, forged, config.allow_self_signed, now) {
        Some(e) => Err(e),
        None => {
            let c = client->Ok_0;
            if !subject_allowed(config, c.subject_text) {
                Err(subject_refused(c.subject_text))
            } else {
                match extensions {
                    Err(e) => Err(AuthErrorView::InvalidCert("Failed to parse certificate: "@ + e)),
                    Ok(x) => if !sans_allowed(config, hosts(x)) {
                        Err(sans_refused(hosts(x)))
                    } else {
                        Ok((c.subject_text, hosts(x)))
                    },
                }
            }
        },
    }
}

/// What is noted of a caller that was let in.
pub open spec fn noted(
    a: AuthResult,
    subject: Seq<char>,
    sans: Seq<Seq<char>>,
) -> bool {
    &&& a.authenticated
    &&& a.principal matches Some(p) && p@ == subject
    &&& a.metadata@.len() == (if sans.len() == 0 {
        2int
    } else {
        3int
    })
    &&& a.metadata@[0].0@ == "auth_method"@
    &&& a.metadata@[0].1@ == "mtls"@
    &&& a.metadata@[1].0@ == "cert_subject"@
    &&& a.metadata@[1].1@ == subject
    &&& sans.len() > 0 ==> a.metadata@[2].0@ == "cert_sans"@ && a.metadata@[2].1@ == joined(
        sans,
        ","@,
    )
}

/// Lets callers in by their client certificate.
#[derive(Debug, Clone)]
pub struct MtlsProvider {
    pub config: MtlsConfig,
    /// The CA's certificate, in DER.
    pub ca_cert_der: Vec<u8>,
}

impl MtlsProvider {
    /// A provider, given what reading the CA's certificate file gave.
    pub fn new(config: MtlsConfig, ca_cert_pem: Result<Vec<u8>, String>) -> (r: Result<
        Self,
        AuthError,
    >)
        ensures
            match ca_cert_pem {
                Err(e) => r matches Err(x) && x@ == AuthErrorView::Internal(
                    "Failed to read CA certificate "@ + quoted(config.ca_cert@) + ": "@ + e@,
                ),
                Ok(pem) => match first_of(
                    pem_blocks(pem@),
                    "No PEM blocks found in certificate file"@,
                ) {
                    Ok(der) => r matches Ok(p) && p.config == config && p.ca_cert_der@ == der,
                    Err(e) => r matches Err(x) && x@ == e,
                },
            },
    {
        let pem = match ca_cert_pem {
            Ok(pem) => pem,
            Err(e) => {
                return Err(
                    AuthError::Internal(
                        "Failed to read CA certificate ".to_owned().concat(
                            quote(config.ca_cert.as_str()).as_str(),
                        ).concat(": ").concat(e.as_str()),
                    ),
                );
            },
        };
        match Self::pem_to_der(pem.as_slice()) {
            Ok(ca_cert_der) => Ok(MtlsProvider { config, ca_cert_der }),
            Err(e) => Err(e),
        }
    }

    /// The contents of the first PEM block of a certificate file.
    pub fn pem_to_der(pem_data: &[u8]) -> (r: Result<Vec<u8>, AuthError>)
        ensures
            der_view(r) == first_of(
                pem_blocks(pem_data@),
                "No PEM blocks found in certificate file"@,
            ),
    {
        first_block(read_pem(pem_data), "No PEM blocks found in certificate file")
    }

    /// Check a client certificate against the CA, at a moment in seconds since
    /// the Unix epoch.
    pub fn verify_cert_chain(&self, client_cert_der: &[u8], now: i64) -> (r: Result<(), AuthError>)
        ensures
            auth_reports(
                r,
                chain_fault(
                    certificate_of(client_cert_der@),
                    certificate_of(self.ca_cert_der@),
                    forged(
                        signature_of(client_cert_der@, self.ca_cert_der@),
                        key_form_of(self.ca_cert_der@),
                    ),
                    self.config.allow_self_signed,
                    now,
                ),
            ),
    {
        let client = read_certificate(client_cert_der);
        let ca = read_certificate(self.ca_cert_der.as_slice());
        let check = look_at_signature(client_cert_der, self.ca_cert_der.as_slice());
        let forged: bool = is_forged(check, read_key_form(self.ca_cert_der.as_slice()));
        check_chain(&client, &ca, forged, self.config.allow_self_signed, now)
    }

    /// Whom a certificate is for, in words.
    pub fn extract_subject(&self, cert_der: &[u8]) -> (r: Result<String, AuthError>)
        ensures
            match certificate_of(cert_der@) {
                Ok(c) => r matches Ok(s) && s@ == c.subject_text,
                Err(e) => r matches Err(x) && x@ == AuthErrorView::InvalidCert(
                    "Failed to parse certificate: "@ + e,
                ),
            },
    {
        subject_of(read_certificate(cert_der))
    }

    /// The host names and addresses that a certificate is for besides its
    /// subject.
    pub fn extract_sans(&self, cert_der: &[u8]) -> (r: Result<Vec<String>, AuthError>)
        ensures
            match extensions_of(cert_der@) {
                Ok(x) => r matches Ok(s) && texts(s@) == hosts(x),
                Err(e) => r matches Err(x) && x@ == AuthErrorView::InvalidCert(
                    "Failed to parse certificate: "@ + e,
                ),
            },
    {
        sans_of(&read_extensions(cert_der))
    }

    /// Whether a subject is let in.
    pub fn verify_subject(&self, subject: &str) -> (r: Result<(), AuthError>)
        ensures
            r is Ok <==> !self.config.verify_subject || self.config.allowed_subjects@.len() == 0
                || exists|i: int|
                0 <= i < self.config.allowed_subjects@.len() && contains(
                    subject@,
                    (#[trigger] self.config.allowed_subjects@[i])@,
                ),
            auth_reports(
                r,
                if subject_allowed(self.config, subject@) {
                    None
                } else {
                    Some(subject_refused(subject@))
                },
            ),
    {
        if !self.config.verify_subject || self.config.allowed_subjects.len() == 0 {
            return Ok(());
        }
        let v = chars_of(subject);
        let mut i: usize = 0;
        while i < self.config.allowed_subjects.len()
            invariant
                i <= self.config.allowed_subjects@.len(),
                v@ == subject@,
                self.config.verify_subject,
                self.config.allowed_subjects@.len() > 0,
                forall|k: int|
                    0 <= k < i ==> !contains(
                        subject@,
                        (#[trigger] self.config.allowed_subjects@[k])@,
                    ),
            decreases self.config.allowed_subjects@.len() - i,
        {
            if contains_text(&v, self.config.allowed_subjects[i].as_str()) {
                return Ok(());
            }
            i = i + 1;
        }
        Err(
            AuthError::Unauthorized(
                "Subject '".to_owned().concat(subject).concat("' not in allowlist"),
            ),
        )
    }

    /// Whether names are let in.
    pub fn verify_sans(&self, sans: &Vec<String>) -> (r: Result<(), AuthError>)
        ensures
            r is Ok <==> !self.config.verify_san || self.config.allowed_sans@.len() == 0 || exists|
                i: int,
                j: int,
            |
                0 <= i < sans@.len() && 0 <= j < self.config.allowed_sans@.len() && ((
                #[trigger] self.config.allowed_sans@[j])@ == (#[trigger] sans@[i])@
                    || self.config.allowed_sans@[j]@ == "DNS:"@ + sans@[i]@),
            auth_reports(
                r,
                if sans_allowed(self.config, texts(sans@)) {
                    None
                } else {
                    Some(sans_refused(texts(sans@)))
                },
            ),
    {
        if !self.config.verify_san || self.config.allowed_sans.len() == 0 {
            return Ok(());
        }
        let mut i: usize = 0;
        while i < sans.len()
            invariant
                i <= sans@.len(),
                self.config.verify_san,
                self.config.allowed_sans@.len() > 0,
                forall|k: int|
                    0 <= k < i ==> !is_listed(
                        self.config.allowed_sans@,
                        #[trigger] texts(sans@)[k],
                    ),
            decreases sans@.len() - i,
        {
            assert(texts(sans@)[i as int] == sans@[i as int]@);
            let marked = "DNS:".to_owned().concat(sans[i].as_str());
            if list_contains(&self.config.allowed_sans, sans[i].as_str()) || list_contains(
                &self.config.allowed_sans,
                marked.as_str(),
            ) {
                assert(is_listed(self.config.allowed_sans@, texts(sans@)[i as int]));
                assert(exists|j: int|
                    0 <= j < self.config.allowed_sans@.len() && ((
                    #[trigger] self.config.allowed_sans@[j])@ == sans@[i as int]@
                        || self.config.allowed_sans@[j]@ == "DNS:"@ + sans@[i as int]@));
                return Ok(());
            }
            i = i + 1;
        }
        assert forall|i: int, j: int|
            0 <= i < sans@.len() && 0 <= j < self.config.allowed_sans@.len() implies (
        #[trigger] self.config.allowed_sans@[j])@ != (#[trigger] sans@[i])@
            && self.config.allowed_sans@[j]@ != "DNS:"@ + sans@[i]@ by {
            assert(!is_listed(self.config.allowed_sans@, texts(sans@)[i]));
        }
        Err(
            AuthError::Unauthorized(
                "No SANs in allowlist (got: ".to_owned().concat(
                    quoted_list_string(sans).as_str(),
                ).concat(")"),
            ),
        )
    }

    /// Whether a request is let in by its client certificate, at a moment in
    /// seconds since the Unix epoch.
    pub fn authenticate(&self, request: &AuthRequest, now: i64) -> (r: Result<AuthResult, AuthError>)
        ensures
            match request.tls_info {
                None => r matches Err(e) && e@ == AuthErrorView::MissingClientCert,
                Some(tls) => match tls.peer_certificate {
                    None => r matches Err(e) && e@ == AuthErrorView::MissingClientCert,
                    Some(der) => match mtls_outcome(
                        self.config,
                        certificate_of(der@),
                        extensions_of(der@),
                        certificate_of(self.ca_cert_der@),
                        forged(
                            signature_of(der@, self.ca_cert_der@),
                            key_form_of(self.ca_cert_der@),
                        ),
                        now,
                    ) {
                        Err(e) => r matches Err(x) && x@ == e,
                        Ok(who) => r matches Ok(a) && noted(a, who.0, who.1),
                    },
                },
            },
            r matches Ok(a) ==> {
                &&& a.authenticated
                &&& request.tls_info matches Some(tls) && tls.peer_certificate matches Some(der)
                    && certificate_of(der@) matches Ok(c) && {
                    &&& c.not_before <= now <= c.not_after
                    &&& a.principal matches Some(p) && p@ == c.subject_text
                    &&& self.config.allow_self_signed || (certificate_of(self.ca_cert_der@) matches Ok(
                        ca,
                    ) && c.issuer == ca.subject)
                }
            },
    {
        let tls = match &request.tls_info {
            Some(tls) => tls,
            None => {
                return Err(AuthError::MissingClientCert);
            },
        };
        let der = match &tls.peer_certificate {
            Some(der) => der,
            None => {
                return Err(AuthError::MissingClientCert);
            },
        };
        if let Err(e) = self.verify_cert_chain(der.as_slice(), now) {
            return Err(e);
        }
        let subject = match self.extract_subject(der.as_slice()) {
            Ok(s) => s,
            Err(e) => {
                return Err(e);
            },
        };
        if let Err(e) = self.verify_subject(subject.as_str()) {
            return Err(e);
        }
        let sans = match self.extract_sans(der.as_slice()) {
            Ok(s) => s,
            Err(e) => {
                return Err(e);
            },
        };
        if let Err(e) = self.verify_sans(&sans) {
            return Err(e);
        }
        let mut metadata: Vec<(String, String)> = Vec::new();
        metadata.push(("auth_method".to_owned(), "mtls".to_owned()));
        metadata.push(("cert_subject".to_owned(), subject.clone()));
        assert(sans@.len() == texts(sans@).len());
        if sans.len() > 0 {
            metadata.push(("cert_sans".to_owned(), join(&sans, ",")));
        }
        Ok(AuthResult { authenticated: true, principal: Some(subject), metadata })
    }

    /// What choosing among providers has to know of this one: it judges
    /// requests of either kind.
    pub fn info() -> (p: ProviderInfo)
        ensures
            p.name@ == "mtls"@,
            p.supports_http,
            p.supports_grpc,
    {
        ProviderInfo { name: "mtls".to_owned(), supports_http: true, supports_grpc: true }
    }
}

/// Nobody is let in outside the time for which its certificate holds, nor with one
/// that does not name the CA as its issuer or that the CA certainly did not sign,
/// unless that is allowed.
pub proof fn law_certificates_hold_for_a_time(
    config: MtlsConfig,
    client: Result<CertificateView, Seq<char>>,
    extensions: Result<Seq<ExtensionView>, Seq<char>>,
    ca: Result<CertificateView, Seq<char>>,
    forged: bool,
    now: i64,
)
    requires
        mtls_outcome(config, client, extensions, ca, forged, now) is Ok,
    ensures
        client matches Ok(c) && c.not_before <= now <= c.not_after && (ca matches Ok(a) && (
        config.allow_self_signed || (c.issuer == a.subject && !forged))),
{
}

/// A certificate passes exactly when it and the CA's can be read, it holds at the
/// moment, and it names the CA as its issuer and is not certain to be signed by
/// another, unless that is not asked. The last second at which it holds is one.
pub proof fn law_certificates_pass(
    client: Result<CertificateView, Seq<char>>,
    ca: Result<CertificateView, Seq<char>>,
    forged: bool,
    allow_self_signed: bool,
    now: i64,
)
    ensures
        chain_fault(client, ca, forged, allow_self_signed, now) is None <==> {
            &&& client is Ok && ca is Ok
            &&& client->Ok_0.not_before <= now && now <= client->Ok_0.not_after
            &&& allow_self_signed || (client->Ok_0.issuer == ca->Ok_0.subject && !forged)
        },
        client is Err ==> (chain_fault(client, ca, forged, allow_self_signed, now) matches Some(e)
            && e is InvalidCert),
        client is Ok && ca is Err ==> (chain_fault(
            client,
            ca,
            forged,
            allow_self_signed,
            now,
        ) matches Some(e) && e is Internal),
        client is Ok && ca is Ok ==> (chain_fault(
            client,
            ca,
            forged,
            allow_self_signed,
            now,
        ) matches Some(e) ==> e is CertVerificationFailed),
{
}

/// It is certain that a key did not make a signature exactly when the look at it
/// says so and takes keys of that form: RSA keys of 2048 to 8192 bits, points that
/// are written out in full, and keys of other kinds.
pub proof fn law_forgeries_are_certain(check: SignatureCheck, key: KeyForm)
    ensures
        check != SignatureCheck::Bad ==> !forged(check, key),
        forged(SignatureCheck::Bad, KeyForm::Other),
        key matches KeyForm::Rsa(bits) ==> (forged(SignatureCheck::Bad, key) <==> 2048 <= bits
            <= 8192),
        key matches KeyForm::Point(first) ==> (forged(SignatureCheck::Bad, key) <==> first == Some(
            4u8,
        )),
{
}

/// A caller is let in exactly when its certificate passes, its subject holds one of
/// the texts listed, where subjects are looked at and any is listed, and one of its
/// names is listed, by itself or after `DNS:`, where names are looked at and any is
/// listed. It is then known by its subject and by all its names.
pub proof fn law_callers_are_let_in_by_their_certificate(
    config: MtlsConfig,
    client: Result<CertificateView, Seq<char>>,
    extensions: Result<Seq<ExtensionView>, Seq<char>>,
    ca: Result<CertificateView, Seq<char>>,
    forged: bool,
    now: i64,
)
    ensures
        mtls_outcome(config, client, extensions, ca, forged, now) is Ok <==> {
            &&& chain_fault(client, ca, forged, config.allow_self_signed, now) is None
            &&& extensions is Ok
            &&& config.verify_subject && config.allowed_subjects@.len() > 0 ==> exists|i: int|
                0 <= i < config.allowed_subjects@.len() && contains(
                    client->Ok_0.subject_text,
                    (#[trigger] config.allowed_subjects@[i])@,
                )
            &&& config.verify_san && config.allowed_sans@.len() > 0 ==> exists|i: int, j: int|
                0 <= i < hosts(extensions->Ok_0).len() && 0 <= j < config.allowed_sans@.len() && ((
                #[trigger] config.allowed_sans@[j])@ == #[trigger] hosts(extensions->Ok_0)[i]
                    || config.allowed_sans@[j]@ == "DNS:"@ + hosts(extensions->Ok_0)[i])
        },
        mtls_outcome(config, client, extensions, ca, forged, now) matches Ok(who) ==> who.0
            == client->Ok_0.subject_text && who.1 == hosts(extensions->Ok_0),
{
    if let Ok(x) = extensions {
        let sans = hosts(x);
        if exists|i: int, j: int|
            0 <= i < sans.len() && 0 <= j < config.allowed_sans@.len() && ((
            #[trigger] config.allowed_sans@[j])@ == #[trigger] sans[i] || config.allowed_sans@[j]@
                == "DNS:"@ + sans[i]) {
            let (i, j) = choose|i: int, j: int|
                0 <= i < sans.len() && 0 <= j < config.allowed_sans@.len() && ((
                #[trigger] config.allowed_sans@[j])@ == #[trigger] sans[i]
                    || config.allowed_sans@[j]@ == "DNS:"@ + sans[i]);
            assert(is_listed(config.allowed_sans@, sans[i]));
        }
        if sans_allowed(config, sans) && config.verify_san && config.allowed_sans@.len() > 0 {
            let i = choose|i: int|
                0 <= i < sans.len() && is_listed(config.allowed_sans@, #[trigger] sans[i]);
            let j = choose|j: int|
                0 <= j < config.allowed_sans@.len() && ((#[trigger] config.allowed_sans@[j])@
                    == sans[i] || config.allowed_sans@[j]@ == "DNS:"@ + sans[i]);
            assert(config.allowed_sans@[j]@ == sans[i] || config.allowed_sans@[j]@ == "DNS:"@
                + sans[i]);
        }
    }
}

/// The names that a certificate is for are its host names as they are and its
/// addresses as lists of numbers, over all its extensions and in order; other names
/// do not count.
pub proof fn law_names_of_certificates(
    a: Seq<ExtensionView>,
    b: Seq<ExtensionView>,
    names: Seq<AltNameView>,
    more: Seq<AltNameView>,
    host: Seq<char>,
    address: Seq<u8>,
)
    ensures
        hosts(a + b) == hosts(a) + hosts(b),
        hosts(seq![ExtensionView::AlternativeNames(names)]) == named_hosts(names),
        hosts(seq![ExtensionView::Other]) == Seq::<Seq<char>>::empty(),
        hosts(Seq::empty()) == Seq::<Seq<char>>::empty(),
        named_hosts(names + more) == named_hosts(names) + named_hosts(more),
        named_hosts(seq![AltNameView::Dns(host)]) == seq![host],
        named_hosts(seq![AltNameView::Ip(address)]) == seq![address_text(address)],
        named_hosts(seq![AltNameView::Other]) == Seq::<Seq<char>>::empty(),
{
    reveal_with_fuel(hosts, 2);
    reveal_with_fuel(named_hosts, 2);
    lemma_hosts_joined(a, b);
    lemma_named_joined(names, more);
    let one = seq![ExtensionView::AlternativeNames(names)];
    assert(one.drop_last() =~= Seq::empty());
    assert(hosts(one) =~= named_hosts(names));
    let other = seq![ExtensionView::Other];
    assert(other.drop_last() =~= Seq::empty());
    let dns = seq![AltNameView::Dns(host)];
    assert(dns.drop_last() =~= Seq::empty());
    assert(named_hosts(dns) =~= seq![host]);
    let ip = seq![AltNameView::Ip(address)];
    assert(ip.drop_last() =~= Seq::empty());
    assert(named_hosts(ip) =~= seq![address_text(address)]);
    let none = seq![AltNameView::Other];
    assert(none.drop_last() =~= Seq::empty());
}

proof fn lemma_hosts_joined(a: Seq<ExtensionView>, b: Seq<ExtensionView>)
    ensures
        hosts(a + b) == hosts(a) + hosts(b),
    decreases b.len(),
{
    if b.len() == 0 {
        assert(a + b =~= a);
        assert(hosts(a) + hosts(b) =~= hosts(a));
    } else {
        assert((a + b).drop_last() =~= a + b.drop_last());
        lemma_hosts_joined(a, b.drop_last());
        assert(hosts(a + b) =~= hosts(a) + hosts(b));
    }
}

proof fn lemma_named_joined(a: Seq<AltNameView>, b: Seq<AltNameView>)
    ensures
        named_hosts(a + b) == named_hosts(a) + named_hosts(b),
    decreases b.len(),
{
    if b.len() == 0 {
        assert(a + b =~= a);
        assert(named_hosts(a) + named_hosts(b) =~= named_hosts(a));
    } else {
        assert((a + b).drop_last() =~= a + b.drop_last());
        lemma_named_joined(a, b.drop_last());
        assert(named_hosts(a + b) =~= named_hosts(a) + named_hosts(b));
    }
}

/// The first block of a file is the one that counts; without a block, and where the
/// file cannot be read, that is an error of the manager's own.
pub proof fn law_the_first_block_counts(
    blocks: Result<Seq<Seq<u8>>, Seq<char>>,
    empty: Seq<char>,
)
    ensures
        first_of(blocks, empty) is Ok <==> (blocks matches Ok(b) && b.len() > 0),
        blocks matches Ok(b) ==> b.len() > 0 ==> first_of(blocks, empty) == Ok::<
            _,
            AuthErrorView,
        >(b[0]),
        blocks matches Ok(b) ==> b.len() == 0 ==> first_of(blocks, empty) == Err::<Seq<u8>, _>(
            AuthErrorView::Internal(empty),
        ),
        blocks matches Err(e) ==> first_of(blocks, empty) == Err::<Seq<u8>, _>(
            AuthErrorView::Internal("Failed to parse PEM certificate: "@ + e),
        ),
{
}

/// What is noted of a caller that was let in: who it is, by what, and for which
/// names.
pub proof fn law_callers_are_noted(a: AuthResult, subject: Seq<char>, sans: Seq<Seq<char>>)
    requires
        noted(a, subject, sans),
    ensures
        a.authenticated,
        a.principal matches Some(p) && p@ == subject,
        a.metadata@.len() >= 2,
        a.metadata@[0].0@ == "auth_method"@ && a.metadata@[0].1@ == "mtls"@,
        a.metadata@[1].0@ == "cert_subject"@ && a.metadata@[1].1@ == subject,
        sans.len() == 0 <==> a.metadata@.len() == 2,
        sans.len() > 0 ==> a.metadata@[2].0@ == "cert_sans"@ && a.metadata@[2].1@ == joined(
            sans,
            ","@,
        ),
{
}

/// Whoever is refused for its subject or its names is told so, and is not
/// authorized.
pub proof fn law_refusals_name_who_was_refused(subject: Seq<char>, sans: Seq<Seq<char>>)
    ensures
        subject_refused(subject) == AuthErrorView::Unauthorized(
            "Subject '"@ + subject + "' not in allowlist"@,
        ),
        sans_refused(sans) == AuthErrorView::Unauthorized(
            "No SANs in allowlist (got: ["@ + joined(
                Seq::new(sans.len(), |i: int| quoted(sans[i])),
                ", "@,
            ) + "])"@,
        ),
{
    reveal_strlit("No SANs in allowlist (got: ");
    reveal_strlit("No SANs in allowlist (got: [");
    reveal_strlit("[");
    reveal_strlit("]");
    reveal_strlit(")");
    reveal_strlit("])");
    let listed = joined(sans.map_values(|s: Seq<char>| quoted(s)), ", "@);
    assert(sans.map_values(|s: Seq<char>| quoted(s)) =~= Seq::new(
        sans.len(),
        |i: int| quoted(sans[i]),
    ));
    assert("No SANs in allowlist (got: "@ + "["@ =~= "No SANs in allowlist (got: ["@);
    assert("]"@ + ")"@ =~= "])"@);
    assert("No SANs in allowlist (got: "@ + ("["@ + listed + "]"@) + ")"@ =~= (
    "No SANs in allowlist (got: "@ + "["@) + listed + ("]"@ + ")"@));
}

} // verus!
