//! The self-signed development certificate: its subject names, common name
//! and validity, signed with a freshly generated key.

use vstd::prelude::*;
use vstd::utf8::is_ascii_chars;

use crate::text::{ends_with, starts_with};

verus! {

#[verifier::external_type_specification]
#[verifier::external_body]
pub struct ExCertificateParams(rcgen::CertificateParams);

#[verifier::external_type_specification]
#[verifier::external_body]
pub struct ExKeyPair(rcgen::KeyPair);

#[verifier::external_type_specification]
#[verifier::external_body]
pub struct ExCertificate(rcgen::Certificate);

#[verifier::external_type_specification]
#[verifier::external_body]
pub struct ExRcgenError(rcgen::Error);

/// The Unix time of 0000-01-01T00:00:00Z, the first instant a certificate
/// can carry.
pub open spec fn first_cert_second() -> int {
    -62167219200
}

/// The Unix time of 9999-12-31T23:59:59Z, the last instant a certificate
/// can carry.
pub open spec fn last_cert_second() -> int {
    253402300799
}

/// An instant, in Unix seconds, that a certificate can carry: years 0 to
/// 9999.
pub open spec fn cert_second(t: int) -> bool {
    first_cert_second() <= t <= last_cert_second()
}

/// What the parameters given to `rcgen` hold: subject names, common name,
/// and, once set, the validity window in Unix seconds.
pub type ParamsModel = (Seq<Seq<char>>, Seq<char>, Option<(i64, i64)>);

/// Certificate parameters for `rcgen`, with what they were given.
pub struct CertParams {
    params: rcgen::CertificateParams,
    model: Ghost<ParamsModel>,
}

impl CertParams {
    pub closed spec fn model(&self) -> ParamsModel {
        self.model@
    }
}

/// A signed certificate, with the parameters it was signed from.
pub struct SignedCert {
    cert: rcgen::Certificate,
    model: Ghost<ParamsModel>,
}

impl SignedCert {
    pub closed spec fn model(&self) -> ParamsModel {
        self.model@
    }
}

/// Converts a request into `rcgen` parameters: calls
/// `rcgen::CertificateParams::new` with the request's subject names, then
/// pushes its common name to the subject (`DistinguishedName::push`, as a
/// UTF-8 string). Claimed: it succeeds exactly when every subject name is
/// ASCII (a name that is not an IP address becomes an `Ia5String`, which
/// refuses non-ASCII text; an IP address is ASCII), and the parameters then
/// hold those names and that common name, with no window set yet.
#[verifier::external_body]
fn certificate_params(request: &CertRequest) -> (r: Result<CertParams, rcgen::Error>)
    ensures
        r is Ok <==> all_ascii(request.names@),
        r matches Ok(p) ==> p.model() == (names_view(request.names@), request.common_name@, None::<(i64, i64)>),
{
    let mut params = rcgen::CertificateParams::new(request.names.clone())?;
    params.distinguished_name.push(
        rcgen::DnType::CommonName,
        rcgen::DnValue::Utf8String(request.common_name.clone()),
    );
    Ok(CertParams { params, model: Ghost((names_view(request.names@), request.common_name@, None)) })
}

/// Sets the validity window from `start` to `end` (Unix seconds): converts
/// each with `time::OffsetDateTime::from_unix_timestamp`, which succeeds for
/// every instant of years 0 to 9999, and stores them in the two public
/// fields `not_before` and `not_after`. Claimed: the parameters then hold
/// that window, and nothing else changes.
#[verifier::external_body]
fn set_validity(params: &mut CertParams, start: i64, end: i64)
    requires
        cert_second(start as int),
        cert_second(end as int),
        start <= end,
    ensures
        final(params).model() == (old(params).model().0, old(params).model().1, Some((start, end))),
{
    params.params.not_before = time::OffsetDateTime::from_unix_timestamp(start).unwrap();
    params.params.not_after = time::OffsetDateTime::from_unix_timestamp(end).unwrap();
    params.model = Ghost((params.model@.0, params.model@.1, Some((start, end))));
}

/// Reads the clock as Unix seconds (`time::OffsetDateTime::now_utc`, then
/// `unix_timestamp`): nothing is claimed of the reading.
#[verifier::external_body]
fn now_unix() -> i64 {
    time::OffsetDateTime::now_utc().unix_timestamp()
}

/// Calls `rcgen::KeyPair::generate` (random ECDSA P-256 key): nothing is
/// claimed.
#[verifier::external_body]
fn generate_key_pair() -> Result<rcgen::KeyPair, rcgen::Error> {
    rcgen::KeyPair::generate()
}

/// Calls `rcgen::CertificateParams::self_signed`. It writes both ends of the
/// window as UTCTime or GeneralizedTime, which cannot express a year outside
/// 0 to 9999; the `requires` keeps the window inside those years. Claimed: a
/// certificate it makes is signed from these parameters. Whether it succeeds
/// is not claimed.
#[verifier::external_body]
fn self_signed(params: CertParams, key_pair: &rcgen::KeyPair) -> (r: Result<SignedCert, rcgen::Error>)
    requires
        params.model().2 matches Some((start, end)) && cert_second(start as int) && cert_second(end as int),
    ensures
        r matches Ok(c) ==> c.model() == params.model(),
{
    let cert = params.params.self_signed(key_pair)?;
    Ok(SignedCert { cert, model: Ghost(params.model@) })
}

/// The PEM text of a block labelled `tag`: it starts with its BEGIN line and
/// ends with its END line and a line ending.
pub open spec fn pem_framed(text: Seq<char>, tag: Seq<char>) -> bool {
    &&& starts_with(text, "-----BEGIN "@ + tag + "-----"@)
    &&& (ends_with(text, "-----END "@ + tag + "-----\n"@) || ends_with(
        text,
        "-----END "@ + tag + "-----\r\n"@,
    ))
}

/// Calls `rcgen::Certificate::pem`, which encodes the certificate with
/// `pem::encode_config` under the tag `CERTIFICATE`. Claimed: the text is
/// framed by that tag's BEGIN and END lines. The encoded bytes are not
/// claimed.
#[verifier::external_body]
fn certificate_pem(cert: &SignedCert) -> (r: String)
    ensures
        pem_framed(r@, "CERTIFICATE"@),
{
    cert.cert.pem()
}

/// Calls `rcgen::KeyPair::serialize_pem`, which encodes the key with
/// `pem::encode_config` under the tag `PRIVATE KEY`. Claimed: the text is
/// framed by that tag's BEGIN and END lines. The encoded bytes are not
/// claimed.
#[verifier::external_body]
fn key_pem(key_pair: &rcgen::KeyPair) -> (r: String)
    ensures
        pem_framed(r@, "PRIVATE KEY"@),
{
    key_pair.serialize_pem()
}

/// What a certificate is made for: its subject names, its common name, and
/// for how many days from the moment it is made it is valid.
pub struct CertRequest {
    pub names: Vec<String>,
    pub common_name: String,
    pub valid_days: i64,
}

pub open spec fn names_view(names: Seq<String>) -> Seq<Seq<char>> {
    names.map_values(|s: String| s@)
}

/// A request as plain values: subject names, common name, days of validity.
pub open spec fn request_view(r: CertRequest) -> (Seq<Seq<char>>, Seq<char>, i64) {
    (names_view(r.names@), r.common_name@, r.valid_days)
}

/// A request for `names` with `common_name`, valid for `valid_days` days.
pub fn certificate_request(names: Vec<String>, common_name: &str, valid_days: i64) -> (r: CertRequest)
    ensures
        r.names == names,
        r.common_name@ == common_name@,
        r.valid_days == valid_days,
{
    CertRequest { names, common_name: crate::text::owned(common_name), valid_days }
}

/// The development certificate's request: `localhost`, `127.0.0.1` and
/// `::1`, common name `BoxedCat Dev Server`, valid for 365 days.
pub open spec fn dev_request() -> (Seq<Seq<char>>, Seq<char>, i64) {
    (seq!["localhost"@, "127.0.0.1"@, "::1"@], "BoxedCat Dev Server"@, 365i64)
}

/// Builds the development certificate's request.
pub fn dev_certificate_request() -> (r: CertRequest)
    ensures
        request_view(r) == dev_request(),
{
    let mut names: Vec<String> = Vec::new();
    names.push(crate::text::owned("localhost"));
    names.push(crate::text::owned("127.0.0.1"));
    names.push(crate::text::owned("::1"));
    let r = certificate_request(names, "BoxedCat Dev Server", 365);
    assert(names_view(r.names@) =~= seq!["localhost"@, "127.0.0.1"@, "::1"@]);
    r
}

/// Why no certificate was made.
pub enum CertError {
    /// A subject name is not ASCII.
    InvalidName,
    /// The clock reads a time a certificate cannot carry, or the end of the
    /// validity window would fall after the year 9999.
    Time,
    /// No key could be generated.
    KeyGeneration,
    /// The certificate could not be signed.
    Signing,
}

/// A certificate and its private key, in PEM, with the request it was made
/// for, its validity window in Unix seconds, and what it was signed from.
pub struct CertificatePems {
    pub request: CertRequest,
    pub not_before: i64,
    pub not_after: i64,
    pub cert_pem: String,
    pub key_pem: String,
    pub signed: Ghost<ParamsModel>,
}

pub open spec fn all_ascii(names: Seq<String>) -> bool {
    forall|i: int| 0 <= i < names.len() ==> is_ascii_chars(#[trigger] names[i]@)
}

/// What a certificate made for `request` holds: its subject names and
/// common name, and a window of `valid_days` days from `start`.
pub open spec fn made_for(p: CertificatePems, request: CertRequest) -> bool {
    &&& p.request == request
    &&& p.not_after == p.not_before + request.valid_days * 86400
    &&& p.signed@ == (names_view(request.names@), request.common_name@, Some((p.not_before, p.not_after)))
    &&& pem_framed(p.cert_pem@, "CERTIFICATE"@)
    &&& pem_framed(p.key_pem@, "PRIVATE KEY"@)
}

/// A window of `valid_days` days from `start` (Unix seconds) fits a
/// certificate: `start` falls in years 0 to 9999 and the window ends no later
/// than the last second of 9999.
pub open spec fn window_fits(start: int, valid_days: int) -> bool {
    cert_second(start) && start + valid_days * 86400 <= last_cert_second()
}

/// The validity window of a certificate made at `start` (Unix seconds) for
/// `valid_days` days, or `Time` when it does not fit a certificate.
pub fn certificate_window(start: i64, valid_days: i64) -> (r: Result<(i64, i64), CertError>)
    requires
        0 <= valid_days,
        valid_days * 86400 <= i64::MAX,
    ensures
        r is Ok <==> window_fits(start as int, valid_days as int),
        r is Err ==> r matches Err(CertError::Time),
        r matches Ok(w) ==> w.0 == start && w.1 == start + valid_days * 86400,
{
    if start < -62167219200 || start > 253402300799 {
        return Err(CertError::Time);
    }
    let span: i64 = valid_days * 86400;
    if span > 253402300799 - start {
        return Err(CertError::Time);
    }
    Ok((start, start + span))
}

/// Makes a self-signed certificate for `request` at the instant `start`
/// (Unix seconds): `rcgen` gets the request's subject names and common name
/// and the window from `start` to `valid_days` days later; the key is freshly
/// generated. It fails with `InvalidName` exactly when a subject name is not
/// ASCII, else with `Time` exactly when the window does not fit a
/// certificate; the other failures come from the key generator and the
/// signer. A certificate that is made was signed from exactly those
/// parameters.
pub fn generate_certificate_at(request: CertRequest, start: i64) -> (r: Result<CertificatePems, CertError>)
    requires
        0 <= request.valid_days,
        request.valid_days * 86400 <= i64::MAX,
    ensures
        (r matches Err(CertError::InvalidName)) <==> !all_ascii(request.names@),
        all_ascii(request.names@) ==> ((r matches Err(CertError::Time)) <==> !window_fits(
            start as int,
            request.valid_days as int,
        )),
        r matches Ok(p) ==> made_for(p, request) && p.not_before == start,
{
    let mut params = match certificate_params(&request) {
        Ok(p) => p,
        Err(_) => return Err(CertError::InvalidName),
    };
    let (start, end) = match certificate_window(start, request.valid_days) {
        Ok(w) => w,
        Err(e) => return Err(e),
    };
    set_validity(&mut params, start, end);
    let key_pair = match generate_key_pair() {
        Ok(k) => k,
        Err(_) => return Err(CertError::KeyGeneration),
    };
    let cert = match self_signed(params, &key_pair) {
        Ok(c) => c,
        Err(_) => return Err(CertError::Signing),
    };
    let cert_pem = certificate_pem(&cert);
    let key_pem = key_pem(&key_pair);
    Ok(
        CertificatePems {
            request,
            not_before: start,
            not_after: end,
            cert_pem,
            key_pem,
            signed: Ghost(cert.model()),
        },
    )
}

/// Makes a self-signed certificate for `request`, valid from the clock's
/// current second: `generate_certificate_at` with that reading. It fails with
/// `InvalidName` exactly when a subject name is not ASCII; the other failures
/// come from the clock, the key generator and the signer.
pub fn generate_certificate(request: CertRequest) -> (r: Result<CertificatePems, CertError>)
    requires
        0 <= request.valid_days,
        request.valid_days * 86400 <= i64::MAX,
    ensures
        (r matches Err(CertError::InvalidName)) <==> !all_ascii(request.names@),
        r matches Ok(p) ==> made_for(p, request),
{
    let start = now_unix();
    generate_certificate_at(request, start)
}

/// The development certificate made at the instant `start` (Unix seconds):
/// for `localhost`, `127.0.0.1` and `::1`, common name `BoxedCat Dev Server`,
/// valid for 365 days from `start`. Its names are ASCII, so it never fails
/// with `InvalidName`; it fails with `Time` exactly when that window does not
/// fit a certificate.
pub fn generate_dev_certificate_at(start: i64) -> (r: Result<CertificatePems, CertError>)
    ensures
        !(r matches Err(CertError::InvalidName)),
        (r matches Err(CertError::Time)) <==> !window_fits(start as int, 365),
        r matches Ok(p) ==> request_view(p.request) == dev_request() && made_for(p, p.request)
            && p.not_before == start,
{
    let request = dev_certificate_request();
    proof {
        reveal_strlit("localhost");
        reveal_strlit("127.0.0.1");
        reveal_strlit("::1");
        let nv = names_view(request.names@);
        assert(nv == seq!["localhost"@, "127.0.0.1"@, "::1"@]);
        assert(request.names@.len() == 3);
        assert(nv[0] == request.names@[0]@);
        assert(nv[1] == request.names@[1]@);
        assert(nv[2] == request.names@[2]@);
        assert(is_ascii_chars(request.names@[0]@));
        assert(is_ascii_chars(request.names@[1]@));
        assert(is_ascii_chars(request.names@[2]@));
    }
    generate_certificate_at(request, start)
}

/// The development certificate, valid for 365 days from the clock's current
/// second: `generate_dev_certificate_at` with that reading. It never fails
/// with `InvalidName`.
pub fn generate_dev_certificate() -> (r: Result<CertificatePems, CertError>)
    ensures
        !(r matches Err(CertError::InvalidName)),
        r matches Ok(p) ==> request_view(p.request) == dev_request() && made_for(p, p.request),
{
    let start = now_unix();
    generate_dev_certificate_at(start)
}

} // verus!
