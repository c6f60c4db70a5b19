//! The two TLS configurations built from the certificate material: one for
//! accepting connections, which requires a client certificate rooted in the CA,
//! and one for dialing peers, which presents the agent's own certificate.
use vstd::prelude::*;
use crate::certs::PrivateKey;

verus! {

#[verifier::external_type_specification]
#[verifier::external_body]
pub struct ExRootCertStore(rustls::RootCertStore);

#[verifier::external_type_specification]
#[verifier::external_body]
pub struct ExServerConfig(rustls::ServerConfig);

#[verifier::external_type_specification]
#[verifier::external_body]
pub struct ExClientConfig(rustls::ClientConfig);

/// How many trust anchors a root store holds.
pub uninterp spec fn anchor_count(s: rustls::RootCertStore) -> nat;

/// Whether rustls takes the DER certificate `der` as a trust anchor.
pub uninterp spec fn is_trust_anchor(der: Seq<u8>) -> bool;

/// Whether rustls (with its `ring` provider) accepts the DER chain `chain` with the
/// private key `key`, PKCS#8 when `pkcs8` holds and PKCS#1 otherwise: the key
/// loads and does not contradict the end-entity certificate.
pub uninterp spec fn identity_accepted(chain: Seq<Seq<u8>>, key: Seq<u8>, pkcs8: bool) -> bool;

/// The DER bytes of each certificate.
pub open spec fn chain_view(chain: Seq<Vec<u8>>) -> Seq<Seq<u8>> {
    chain.map_values(|c: Vec<u8>| c@)
}

/// The DER bytes of a private key.
pub open spec fn key_der(key: PrivateKey) -> Seq<u8> {
    match key {
        PrivateKey::Pkcs8(d) => d@,
        PrivateKey::Pkcs1(d) => d@,
    }
}

/// Whether a private key is in PKCS#8 form.
pub open spec fn key_is_pkcs8(key: PrivateKey) -> bool {
    key is Pkcs8
}

/// Whether rustls accepts `chain` with `key` as this agent's identity.
pub open spec fn identity_ok(chain: Seq<Vec<u8>>, key: PrivateKey) -> bool {
    identity_accepted(chain_view(chain), key_der(key), key_is_pkcs8(key))
}

/// Whether every one of `cas` is a trust anchor.
pub open spec fn all_anchors(cas: Seq<Vec<u8>>) -> bool {
    forall|j: int| 0 <= j < cas.len() ==> is_trust_anchor(#[trigger] cas[j]@)
}

/// Whether `i` is the first of `cas` that is not a trust anchor.
pub open spec fn first_refused(cas: Seq<Vec<u8>>, i: int) -> bool {
    &&& 0 <= i < cas.len()
    &&& !is_trust_anchor(cas[i]@)
    &&& forall|j: int| 0 <= j < i ==> is_trust_anchor(#[trigger] cas[j]@)
}

/// Relies on `rustls::RootCertStore::empty`: a store with no anchors.
#[verifier::external_body]
fn empty_roots() -> (r: rustls::RootCertStore)
    ensures
        anchor_count(r) == 0,
{
    rustls::RootCertStore::empty()
}

/// Relies on `rustls::RootCertStore::add`: a certificate that parses as a trust
/// anchor is appended; on failure the store is left as it was.
#[verifier::external_body]
fn add_anchor(store: &mut rustls::RootCertStore, der: &Vec<u8>) -> (r: bool)
    ensures
        r == is_trust_anchor(der@),
        r ==> anchor_count(*final(store)) == anchor_count(*old(store)) + 1,
        !r ==> anchor_count(*final(store)) == anchor_count(*old(store)),
{
    store.add(rustls::pki_types::CertificateDer::from(der.clone())).is_ok()
}

/// Relies on rustls's server configuration builder: a verifier that requires a
/// client certificate rooted in `roots`, and `chain` with `key` as this side's
/// identity. The verifier is refused exactly when `roots` is empty, and the
/// identity as `identity_accepted` says.
#[verifier::external_body]
fn server_config_with(roots: rustls::RootCertStore, chain: &Vec<Vec<u8>>, key: &PrivateKey) -> (r: Option<rustls::ServerConfig>)
    ensures
        r.is_some() == (anchor_count(roots) > 0 && identity_accepted(chain_view(chain@), key_der(*key), key_is_pkcs8(*key))),
{
    let verifier = rustls::server::WebPkiClientVerifier::builder(std::sync::Arc::new(roots)).build().ok()?;
    let chain = chain.iter().map(|c| rustls::pki_types::CertificateDer::from(c.clone())).collect();
    let key = match key {
        PrivateKey::Pkcs8(d) => rustls::pki_types::PrivateKeyDer::Pkcs8(d.clone().into()),
        PrivateKey::Pkcs1(d) => rustls::pki_types::PrivateKeyDer::Pkcs1(d.clone().into()),
    };
    rustls::ServerConfig::builder().with_client_cert_verifier(verifier).with_single_cert(chain, key).ok()
}

/// Relies on rustls's client configuration builder: `roots` to verify the peer,
/// and `chain` with `key` as the client certificate. `None` exactly when rustls
/// refuses the identity.
#[verifier::external_body]
fn client_config_with(roots: rustls::RootCertStore, chain: &Vec<Vec<u8>>, key: &PrivateKey) -> (r: Option<rustls::ClientConfig>)
    ensures
        r.is_some() == identity_accepted(chain_view(chain@), key_der(*key), key_is_pkcs8(*key)),
{
    let chain = chain.iter().map(|c| rustls::pki_types::CertificateDer::from(c.clone())).collect();
    let key = match key {
        PrivateKey::Pkcs8(d) => rustls::pki_types::PrivateKeyDer::Pkcs8(d.clone().into()),
        PrivateKey::Pkcs1(d) => rustls::pki_types::PrivateKeyDer::Pkcs1(d.clone().into()),
    };
    rustls::ClientConfig::builder().with_root_certificates(roots).with_client_auth_cert(chain, key).ok()
}

/// Why a TLS configuration could not be built.
#[derive(Debug, Clone, Copy, PartialEq, Eq, Structural)]
pub enum TrustError {
    /// The CA certificate at this index is not a usable trust anchor.
    CaCertificate(usize),
    /// rustls refused the agent's certificate or key, or the verifier.
    Config,
}

/// A root store holding every one of `ca_certs`, or the index of the first one
/// that is not a usable trust anchor.
pub fn root_store(ca_certs: &Vec<Vec<u8>>) -> (r: Result<rustls::RootCertStore, usize>)
    ensures
        match r {
            Ok(s) => anchor_count(s) == ca_certs@.len() && all_anchors(ca_certs@),
            Err(i) => first_refused(ca_certs@, i as int),
        },
{
    let mut store = empty_roots();
    let mut i: usize = 0;
    while i < ca_certs.len()
        invariant
            i <= ca_certs@.len(),
            anchor_count(store) == i,
            forall|j: int| 0 <= j < i ==> is_trust_anchor(#[trigger] ca_certs@[j]@),
        decreases ca_certs@.len() - i,
    {
        if !add_anchor(&mut store, &ca_certs[i]) {
            return Err(i);
        }
        i = i + 1;
    }
    Ok(store)
}

/// The configuration for accepting connections: client certificates are
/// required and must be rooted in `ca_certs`; `chain` and `key` identify this side.
/// Built exactly when every CA certificate is a trust anchor, there is at least
/// one, and rustls accepts the identity; the first refused CA certificate is
/// named, and any other refusal is `Config`.
pub fn build_server_config(chain: &Vec<Vec<u8>>, key: &PrivateKey, ca_certs: &Vec<Vec<u8>>) -> (r: Result<rustls::ServerConfig, TrustError>)
    ensures
        match r {
            Ok(_) => all_anchors(ca_certs@) && ca_certs@.len() > 0 && identity_ok(chain@, *key),
            Err(TrustError::CaCertificate(i)) => first_refused(ca_certs@, i as int),
            Err(TrustError::Config) => all_anchors(ca_certs@) && !(ca_certs@.len() > 0 && identity_ok(
                chain@,
                *key,
            )),
        },
{
    let roots = match root_store(ca_certs) {
        Ok(s) => s,
        Err(i) => return Err(TrustError::CaCertificate(i)),
    };
    match server_config_with(roots, chain, key) {
        Some(c) => Ok(c),
        None => Err(TrustError::Config),
    }
}

/// The configuration for dialing peers: their certificates must be rooted in
/// `ca_certs`; `chain` and `key` are presented as the client certificate.
/// Built exactly when every CA certificate is a trust anchor and rustls accepts
/// the identity; the first refused CA certificate is named, and a refused
/// identity is `Config`.
pub fn build_client_config(chain: &Vec<Vec<u8>>, key: &PrivateKey, ca_certs: &Vec<Vec<u8>>) -> (r: Result<rustls::ClientConfig, TrustError>)
    ensures
        match r {
            Ok(_) => all_anchors(ca_certs@) && identity_ok(chain@, *key),
            Err(TrustError::CaCertificate(i)) => first_refused(ca_certs@, i as int),
            Err(TrustError::Config) => all_anchors(ca_certs@) && !identity_ok(chain@, *key),
        },
{
    let roots = match root_store(ca_certs) {
        Ok(s) => s,
        Err(i) => return Err(TrustError::CaCertificate(i)),
    };
    match client_config_with(roots, chain, key) {
        Some(c) => Ok(c),
        None => Err(TrustError::Config),
    }
}

} // verus!
