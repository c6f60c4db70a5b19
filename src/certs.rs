//! Certificate material: deciding what to generate, and reading keys and
//! certificates out of PEM text.
use vstd::prelude::*;
use vstd::utf8::{decode_utf8_encode_utf8, encode_utf8, pop_first_scalar, valid_utf8};
use crate::ids::{agent_id_ascii, uuid_ascii};
use crate::message::{push_all, utf8_text};

verus! {

/// Which of the four files of a certificate directory are present:
/// `ca.crt`, `ca.key`, `agent.crt`, `agent.key`.
#[derive(Debug, Clone, Copy, PartialEq, Eq, Structural)]
pub struct CertFiles {
    pub ca_cert: bool,
    pub ca_key: bool,
    pub agent_cert: bool,
    pub agent_key: bool,
}

/// What to generate.
#[derive(Debug, Clone, Copy, PartialEq, Eq, Structural)]
pub struct CertPlan {
    /// A fresh CA certificate and key.
    pub generate_ca: bool,
    /// A fresh agent certificate and key, signed by the CA.
    pub generate_agent: bool,
}

/// Why certificate material could not be had.
#[derive(Debug, Clone)]
pub enum CertError {
    /// Material is missing and generation is not allowed; names the directory.
    NotFound(String),
    /// The PEM text of a certificate could not be parsed.
    CertificateParse,
    /// The PEM text of a private key could not be parsed.
    KeyParse,
    /// The PEM text holds no PKCS#8 or PKCS#1 private key.
    NoPrivateKey,
}

/// A private key in DER form, with its encoding.
#[derive(Debug, Clone)]
pub enum PrivateKey {
    Pkcs8(Vec<u8>),
    Pkcs1(Vec<u8>),
}

/// Whether the CA pair is complete.
pub open spec fn ca_present(f: CertFiles) -> bool {
    f.ca_cert && f.ca_key
}

/// Whether the agent pair is complete.
pub open spec fn agent_present(f: CertFiles) -> bool {
    f.agent_cert && f.agent_key
}

/// What to do for a directory in state `f`: nothing when both pairs are there;
/// otherwise, when generation is allowed, each incomplete pair is generated, and
/// the agent pair as well whenever the CA is new, so that it chains to it.
pub open spec fn plan_spec(f: CertFiles, auto_generate: bool) -> Option<CertPlan> {
    if ca_present(f) && agent_present(f) {
        Some(CertPlan { generate_ca: false, generate_agent: false })
    } else if !auto_generate {
        None
    } else {
        Some(CertPlan { generate_ca: !ca_present(f), generate_agent: !ca_present(f) || !agent_present(f) })
    }
}

/// The directory after carrying out `p`: what was generated is now there.
pub open spec fn after_plan(f: CertFiles, p: CertPlan) -> CertFiles {
    CertFiles {
        ca_cert: f.ca_cert || p.generate_ca,
        ca_key: f.ca_key || p.generate_ca,
        agent_cert: f.agent_cert || p.generate_agent,
        agent_key: f.agent_key || p.generate_agent,
    }
}

/// Decides what to generate in the directory `dir`, whose files are as `f` says.
/// Missing material without permission to generate is an error that names `dir`.
pub fn ensure_certificates(f: CertFiles, dir: &str, auto_generate: bool) -> (r: Result<CertPlan, CertError>)
    ensures
        match r {
            Ok(p) => plan_spec(f, auto_generate) == Some(p),
            Err(e) => plan_spec(f, auto_generate) is None && (e matches CertError::NotFound(d) && d@ == dir@),
        },
{
    let ca = f.ca_cert && f.ca_key;
    let agent = f.agent_cert && f.agent_key;
    if ca && agent {
        return Ok(CertPlan { generate_ca: false, generate_agent: false });
    }
    if !auto_generate {
        return Err(CertError::NotFound(dir.to_owned()));
    }
    Ok(CertPlan { generate_ca: !ca, generate_agent: !ca || !agent })
}

/// Generation happens once: after a plan has been carried out, the next one is
/// to do nothing, whether or not generation is allowed.
pub proof fn lemma_generation_once(f: CertFiles, auto_generate: bool, again: bool)
    requires
        plan_spec(f, auto_generate) is Some,
    ensures
        plan_spec(after_plan(f, plan_spec(f, auto_generate).unwrap()), again) == Some(
            CertPlan { generate_ca: false, generate_agent: false },
        ),
{
}

/// A generated directory holds a complete CA pair and a complete agent pair.
pub proof fn lemma_plan_completes(f: CertFiles, auto_generate: bool)
    requires
        plan_spec(f, auto_generate) is Some,
    ensures
        ca_present(after_plan(f, plan_spec(f, auto_generate).unwrap())),
        agent_present(after_plan(f, plan_spec(f, auto_generate).unwrap())),
        plan_spec(f, auto_generate).unwrap().generate_ca ==> plan_spec(f, auto_generate).unwrap().generate_agent,
{
}

/// The bytes inside a scan result.
pub open spec fn der_view(o: Option<Option<Vec<u8>>>) -> Option<Option<Seq<u8>>> {
    match o {
        Some(Some(k)) => Some(Some(k@)),
        Some(None) => Some(None),
        None => None,
    }
}

/// The bytes of each certificate inside a scan result.
pub open spec fn ders_view(o: Option<Vec<Vec<u8>>>) -> Option<Seq<Seq<u8>>> {
    match o {
        Some(v) => Some(v@.map_values(|c: Vec<u8>| c@)),
        None => None,
    }
}

/// The first PKCS#8 private key in PEM text: `None` when reading fails before one
/// is found, `Some(None)` when there is none.
pub uninterp spec fn first_pkcs8_key(pem: Seq<u8>) -> Option<Option<Seq<u8>>>;

/// The first PKCS#1 (RSA) private key in PEM text, in the same form.
pub uninterp spec fn first_pkcs1_key(pem: Seq<u8>) -> Option<Option<Seq<u8>>>;

/// The certificates in PEM text, in order, or `None` when reading fails.
pub uninterp spec fn pem_certificates(pem: Seq<u8>) -> Option<Seq<Seq<u8>>>;

/// Relies on `rustls_pemfile::pkcs8_private_keys`: its first item, as DER bytes.
#[verifier::external_body]
fn scan_pkcs8(pem: &[u8]) -> (r: Option<Option<Vec<u8>>>)
    ensures
        der_view(r) == first_pkcs8_key(pem@),
{
    match rustls_pemfile::pkcs8_private_keys(&mut &pem[..]).next() {
        Some(Ok(k)) => Some(Some(k.secret_pkcs8_der().to_vec())),
        None => Some(None),
        Some(Err(_)) => None,
    }
}

/// Relies on `rustls_pemfile::rsa_private_keys`: its first item, as DER bytes.
#[verifier::external_body]
fn scan_pkcs1(pem: &[u8]) -> (r: Option<Option<Vec<u8>>>)
    ensures
        der_view(r) == first_pkcs1_key(pem@),
{
    match rustls_pemfile::rsa_private_keys(&mut &pem[..]).next() {
        Some(Ok(k)) => Some(Some(k.secret_pkcs1_der().to_vec())),
        None => Some(None),
        Some(Err(_)) => None,
    }
}

/// Relies on `rustls_pemfile::certs`: all its items up to the first error, as DER bytes.
#[verifier::external_body]
fn scan_certs(pem: &[u8]) -> (r: Option<Vec<Vec<u8>>>)
    ensures
        ders_view(r) == pem_certificates(pem@),
{
    rustls_pemfile::certs(&mut &pem[..])
        .map(|c| c.map(|c| c.to_vec()))
        .collect::<Result<Vec<Vec<u8>>, std::io::Error>>()
        .ok()
}

/// The certificates in PEM text, as DER bytes.
pub fn load_certs(pem: &[u8]) -> (r: Result<Vec<Vec<u8>>, CertError>)
    ensures
        match r {
            Ok(v) => pem_certificates(pem@) == Some(v@.map_values(|c: Vec<u8>| c@)),
            Err(e) => pem_certificates(pem@) is None && (e matches CertError::CertificateParse),
        },
{
    match scan_certs(pem) {
        Some(v) => Ok(v),
        None => Err(CertError::CertificateParse),
    }
}

/// The private key in PEM text: a PKCS#8 key if there is one, else a PKCS#1 key.
pub fn load_private_key(pem: &[u8]) -> (r: Result<PrivateKey, CertError>)
    ensures
        match first_pkcs8_key(pem@) {
            None => r matches Err(CertError::KeyParse),
            Some(Some(k)) => r matches Ok(PrivateKey::Pkcs8(d)) && d@ == k,
            Some(None) => match first_pkcs1_key(pem@) {
                None => r matches Err(CertError::KeyParse),
                Some(Some(k)) => r matches Ok(PrivateKey::Pkcs1(d)) && d@ == k,
                Some(None) => r matches Err(CertError::NoPrivateKey),
            },
        },
{
    match scan_pkcs8(pem) {
        None => Err(CertError::KeyParse),
        Some(Some(k)) => Ok(PrivateKey::Pkcs8(k)),
        Some(None) => match scan_pkcs1(pem) {
            None => Err(CertError::KeyParse),
            Some(Some(k)) => Ok(PrivateKey::Pkcs1(k)),
            Some(None) => Err(CertError::NoPrivateKey),
        },
    }
}


/// A key usage of a certificate.
#[derive(Debug, Clone, Copy, PartialEq, Eq, Structural)]
pub enum KeyUsage {
    DigitalSignature,
    KeyCertSign,
    CrlSign,
    KeyEncipherment,
}

/// An extended key usage of a certificate.
#[derive(Debug, Clone, Copy, PartialEq, Eq, Structural)]
pub enum ExtendedKeyUsage {
    ServerAuth,
    ClientAuth,
}

/// A subject alternative name.
#[derive(Debug, Clone)]
pub enum SubjectAltName {
    Dns(String),
    Ipv4([u8; 4]),
    Ipv6([u16; 8]),
}

/// What a certificate to be generated says about its subject and its use.
#[derive(Debug, Clone)]
pub struct CertProfile {
    pub common_name: String,
    pub organization: String,
    pub country: Option<String>,
    pub is_ca: bool,
    /// Days from the moment of signing to the end of validity.
    pub validity_days: u32,
    pub key_usages: Vec<KeyUsage>,
    pub extended_key_usages: Vec<ExtendedKeyUsage>,
    pub subject_alt_names: Vec<SubjectAltName>,
}

/// The organization named in every generated certificate.
pub open spec fn organization_name() -> Seq<char> {
    "CSF Agent Network"@
}

/// The self-signed CA: valid for ten years, allowed to sign certificates and
/// revocation lists, with no alternative names.
pub fn ca_profile(common_name: String) -> (r: CertProfile)
    ensures
        r.common_name@ == common_name@,
        r.organization@ == organization_name(),
        r.country matches Some(c) && c@ == "US"@,
        r.is_ca,
        r.validity_days == 3650,
        r.key_usages@ == seq![KeyUsage::DigitalSignature, KeyUsage::KeyCertSign, KeyUsage::CrlSign],
        r.extended_key_usages@.len() == 0,
        r.subject_alt_names@.len() == 0,
{
    CertProfile {
        common_name,
        organization: "CSF Agent Network".to_owned(),
        country: Some("US".to_owned()),
        is_ca: true,
        validity_days: 3650,
        key_usages: vec![KeyUsage::DigitalSignature, KeyUsage::KeyCertSign, KeyUsage::CrlSign],
        extended_key_usages: Vec::new(),
        subject_alt_names: Vec::new(),
    }
}

/// An agent's certificate: valid for one year, for both the server and the client
/// side of TLS, naming the loopback addresses `localhost`, `127.0.0.1` and `::1`.
pub fn agent_profile(agent_name: String) -> (r: CertProfile)
    ensures
        r.common_name@ == agent_name@,
        r.organization@ == organization_name(),
        r.country is None,
        !r.is_ca,
        r.validity_days == 365,
        r.key_usages@ == seq![KeyUsage::DigitalSignature, KeyUsage::KeyEncipherment],
        r.extended_key_usages@ == seq![ExtendedKeyUsage::ServerAuth, ExtendedKeyUsage::ClientAuth],
        r.subject_alt_names@.len() == 3,
        r.subject_alt_names@[0] matches SubjectAltName::Dns(d) && d@ == "localhost"@,
        r.subject_alt_names@[1] matches SubjectAltName::Ipv4(a) && a@ == seq![127u8, 0, 0, 1],
        r.subject_alt_names@[2] matches SubjectAltName::Ipv6(a) && a@ == seq![0u16, 0, 0, 0, 0, 0, 0, 1],
{
    CertProfile {
        common_name: agent_name,
        organization: "CSF Agent Network".to_owned(),
        country: None,
        is_ca: false,
        validity_days: 365,
        key_usages: vec![KeyUsage::DigitalSignature, KeyUsage::KeyEncipherment],
        extended_key_usages: vec![ExtendedKeyUsage::ServerAuth, ExtendedKeyUsage::ClientAuth],
        subject_alt_names: vec![
            SubjectAltName::Dns("localhost".to_owned()),
            SubjectAltName::Ipv4([127, 0, 0, 1]),
            SubjectAltName::Ipv6([0, 0, 0, 0, 0, 0, 0, 1]),
        ],
    }
}


/// The start of a CA's common name: `CSF-Agent-CA-`.
pub open spec fn ca_name_prefix() -> Seq<u8> {
    seq![0x43u8, 0x53u8, 0x46u8, 0x2du8, 0x41u8, 0x67u8, 0x65u8, 0x6eu8, 0x74u8, 0x2du8, 0x43u8, 0x41u8, 0x2du8]
}

/// The UTF-8 bytes of the common name of a CA whose random component is `id`:
/// the prefix, then the identifier's hyphenated text form.
pub open spec fn ca_common_name_bytes(id: Seq<u8>) -> Seq<u8> {
    ca_name_prefix() + uuid_ascii(id)
}

proof fn lemma_ascii_valid_utf8(b: Seq<u8>)
    requires
        forall|i: int| 0 <= i < b.len() ==> #[trigger] b[i] < 0x80,
    ensures
        valid_utf8(b),
    decreases b.len(),
{
    if b.len() > 0 {
        let rest = b.subrange(1, b.len() as int);
        assert(pop_first_scalar(b) =~= rest);
        assert forall|i: int| 0 <= i < rest.len() implies #[trigger] rest[i] < 0x80 by {
            assert(rest[i] == b[i + 1]);
        }
        lemma_ascii_valid_utf8(rest);
    }
}

/// The common name of a freshly generated CA, unique per installation through
/// the random identifier `id`: `CSF-Agent-CA-` followed by its text form.
pub fn ca_common_name(id: &[u8; 16]) -> (r: String)
    ensures
        encode_utf8(r@) == ca_common_name_bytes(id@),
{
    let mut b: Vec<u8> = vec![0x43, 0x53, 0x46, 0x2d, 0x41, 0x67, 0x65, 0x6e, 0x74, 0x2d, 0x43, 0x41, 0x2d];
    let t = agent_id_ascii(id);
    push_all(&mut b, &t);
    assert(b@ =~= ca_common_name_bytes(id@));
    proof {
        assert forall|i: int| 0 <= i < b@.len() implies #[trigger] b@[i] < 0x80 by {
            if i >= 13 {
                assert(b@[i] == uuid_ascii(id@)[i - 13]);
            }
        }
        lemma_ascii_valid_utf8(b@);
        decode_utf8_encode_utf8(b@);
    }
    utf8_text(b).unwrap()
}

} // verus!
