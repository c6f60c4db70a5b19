use std::sync::Arc;

use agent_transport::certs::{load_certs, load_private_key, PrivateKey};
use agent_transport::trust::{build_client_config, build_server_config, root_store, TrustError};
use rcgen::{BasicConstraints, CertificateParams, DnType, IsCa, KeyPair, KeyUsagePurpose};

struct Material {
    ca_pem: String,
    agent_pem: String,
    agent_key_pem: String,
}

fn generate(ca_name: &str) -> Material {
    let mut ca_params = CertificateParams::new(Vec::<String>::new()).unwrap();
    ca_params.is_ca = IsCa::Ca(BasicConstraints::Unconstrained);
    ca_params.distinguished_name.push(DnType::CommonName, ca_name);
    ca_params.key_usages = vec![KeyUsagePurpose::DigitalSignature, KeyUsagePurpose::KeyCertSign, KeyUsagePurpose::CrlSign];
    let ca_key = KeyPair::generate().unwrap();
    let ca_cert = ca_params.self_signed(&ca_key).unwrap();

    let mut params = CertificateParams::new(vec!["localhost".to_string(), "127.0.0.1".to_string()]).unwrap();
    params.distinguished_name.push(DnType::CommonName, "agent");
    params.key_usages = vec![KeyUsagePurpose::DigitalSignature, KeyUsagePurpose::KeyEncipherment];
    params.extended_key_usages =
        vec![rcgen::ExtendedKeyUsagePurpose::ServerAuth, rcgen::ExtendedKeyUsagePurpose::ClientAuth];
    let key = KeyPair::generate().unwrap();
    let cert = params.signed_by(&key, &ca_cert, &ca_key).unwrap();
    Material { ca_pem: ca_cert.pem(), agent_pem: cert.pem(), agent_key_pem: key.serialize_pem() }
}

fn handshake(server: rustls::ServerConfig, client: rustls::ClientConfig) -> bool {
    let name = rustls::pki_types::ServerName::try_from("localhost").unwrap();
    let mut c = rustls::ClientConnection::new(Arc::new(client), name).unwrap();
    let mut s = rustls::ServerConnection::new(Arc::new(server)).unwrap();
    for _ in 0..10 {
        let mut buf = Vec::new();
        c.write_tls(&mut buf).unwrap();
        s.read_tls(&mut &buf[..]).unwrap();
        if s.process_new_packets().is_err() {
            return false;
        }
        buf.clear();
        s.write_tls(&mut buf).unwrap();
        c.read_tls(&mut &buf[..]).unwrap();
        if c.process_new_packets().is_err() {
            return false;
        }
        if !c.is_handshaking() && !s.is_handshaking() {
            return true;
        }
    }
    false
}

#[test]
fn agent_certificate_chains_to_its_ca_in_both_roles() {
    let m = generate("CSF-Agent-CA-test");
    let chain = load_certs(m.agent_pem.as_bytes()).unwrap();
    let key = load_private_key(m.agent_key_pem.as_bytes()).unwrap();
    assert!(matches!(key, PrivateKey::Pkcs8(_)));
    let cas = load_certs(m.ca_pem.as_bytes()).unwrap();
    let server = build_server_config(&chain, &key, &cas).unwrap();
    let client = build_client_config(&chain, &key, &cas).unwrap();
    assert!(handshake(server, client));
}

#[test]
fn a_peer_from_another_ca_is_refused() {
    let ours = generate("ours");
    let theirs = generate("theirs");
    let key = load_private_key(ours.agent_key_pem.as_bytes()).unwrap();
    let server = build_server_config(
        &load_certs(ours.agent_pem.as_bytes()).unwrap(),
        &key,
        &load_certs(ours.ca_pem.as_bytes()).unwrap(),
    )
    .unwrap();
    let their_key = load_private_key(theirs.agent_key_pem.as_bytes()).unwrap();
    let client = build_client_config(
        &load_certs(theirs.agent_pem.as_bytes()).unwrap(),
        &their_key,
        &load_certs(theirs.ca_pem.as_bytes()).unwrap(),
    )
    .unwrap();
    assert!(!handshake(server, client));
}

#[test]
fn unusable_ca_material_is_reported_by_index() {
    let m = generate("ca");
    let mut cas = load_certs(m.ca_pem.as_bytes()).unwrap();
    assert_eq!(root_store(&cas).unwrap().len(), 1);
    cas.push(vec![0x30, 0x03, 0x02, 0x01, 0x00]);
    assert_eq!(root_store(&cas).unwrap_err(), 1);
    let chain = load_certs(m.agent_pem.as_bytes()).unwrap();
    let key = load_private_key(m.agent_key_pem.as_bytes()).unwrap();
    assert_eq!(build_server_config(&chain, &key, &cas).unwrap_err(), TrustError::CaCertificate(1));
    let wrong_key = PrivateKey::Pkcs8(vec![1, 2, 3]);
    assert_eq!(build_client_config(&chain, &wrong_key, &cas[..1].to_vec()).unwrap_err(), TrustError::Config);
}

#[test]
fn server_side_needs_at_least_one_ca() {
    let m = generate("ca");
    let chain = load_certs(m.agent_pem.as_bytes()).unwrap();
    let key = load_private_key(m.agent_key_pem.as_bytes()).unwrap();
    assert_eq!(build_server_config(&chain, &key, &Vec::new()).unwrap_err(), TrustError::Config);
    assert!(build_client_config(&chain, &key, &Vec::new()).is_ok());
}

#[test]
fn a_key_that_does_not_match_the_certificate_is_refused() {
    let m = generate("ca");
    let other = generate("other");
    let chain = load_certs(m.agent_pem.as_bytes()).unwrap();
    let wrong = load_private_key(other.agent_key_pem.as_bytes()).unwrap();
    let cas = load_certs(m.ca_pem.as_bytes()).unwrap();
    assert_eq!(build_server_config(&chain, &wrong, &cas).unwrap_err(), TrustError::Config);
    assert_eq!(build_client_config(&chain, &wrong, &cas).unwrap_err(), TrustError::Config);
}
