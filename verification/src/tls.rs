//! The certificate chain and private key of the TLS listeners, read from the
//! bytes of their PEM files.

use tokio_rustls::rustls::pki_types::PrivateKeyDer;
use vstd::prelude::*;

verus! {

/// The encoding of a private key.
#[derive(Debug, Clone, Copy, PartialEq, Eq, Structural)]
pub enum KeyFormat {
    Pkcs1,
    Sec1,
    Pkcs8,
}

/// The DER certificates of a PEM text, in order, as `rustls_pemfile::certs`
/// reads them; `None` when it reports an error.
pub uninterp spec fn pem_certs(pem: Seq<u8>) -> Option<Seq<Seq<u8>>>;

/// The first private key of a PEM text with its encoding, as
/// `rustls_pemfile::private_key` reads it: `Some(None)` when there is none,
/// `None` when it reports an error.
pub uninterp spec fn pem_private_key(pem: Seq<u8>) -> Option<Option<(KeyFormat, Seq<u8>)>>;

pub open spec fn ders_view(v: Seq<Vec<u8>>) -> Seq<Seq<u8>> {
    v.map_values(|d: Vec<u8>| d@)
}

/// `rustls_pemfile::certs` over the bytes, each certificate's DER copied out:
/// the certificates, or `None` when one of them does not read.
#[verifier::external_body]
fn parse_pem_certs(pem: &[u8]) -> (r: Option<Vec<Vec<u8>>>)
    ensures
        match r {
            Some(v) => pem_certs(pem@) == Some(ders_view(v@)),
            None => pem_certs(pem@) is None,
        },
{
    let mut rd = pem;
    match rustls_pemfile::certs(&mut rd).collect::<Result<Vec<_>, _>>() {
        Ok(certs) => Some(certs.into_iter().map(|c| c.to_vec()).collect()),
        Err(_) => None,
    }
}

/// `rustls_pemfile::private_key` over the bytes, the key's encoding and DER
/// copied out. `private_key` yields only the three encodings named here.
#[verifier::external_body]
fn parse_pem_private_key(pem: &[u8]) -> (r: Option<Option<(KeyFormat, Vec<u8>)>>)
    ensures
        match r {
            Some(Some((f, d))) => pem_private_key(pem@) == Some(Some((f, d@))),
            Some(None) => pem_private_key(pem@) == Some(None::<(KeyFormat, Seq<u8>)>),
            None => pem_private_key(pem@) is None,
        },
{
    let mut rd = pem;
    match rustls_pemfile::private_key(&mut rd) {
        Ok(Some(PrivateKeyDer::Pkcs1(k))) => Some(Some((KeyFormat::Pkcs1, k.secret_pkcs1_der().to_vec()))),
        Ok(Some(PrivateKeyDer::Sec1(k))) => Some(Some((KeyFormat::Sec1, k.secret_sec1_der().to_vec()))),
        Ok(Some(PrivateKeyDer::Pkcs8(k))) => Some(Some((KeyFormat::Pkcs8, k.secret_pkcs8_der().to_vec()))),
        Ok(Some(_)) => None,
        Ok(None) => Some(None),
        Err(_) => None,
    }
}

/// Why the TLS material cannot be used.
#[derive(Debug, Clone, Copy, PartialEq, Eq, Structural)]
pub enum TlsMaterialError {
    /// The certificate file does not read as PEM certificates.
    UnreadableCertificates,
    /// The key file does not read as PEM.
    UnreadableKey,
    /// The key file holds no private key.
    NoPrivateKey,
}

/// The TLS material of a certificate file and a key file: the certificates
/// are read first, then the key.
pub open spec fn tls_material_spec(cert_pem: Seq<u8>, key_pem: Seq<u8>) -> Result<
    (Seq<Seq<u8>>, (KeyFormat, Seq<u8>)),
    TlsMaterialError,
> {
    match pem_certs(cert_pem) {
        None => Err(TlsMaterialError::UnreadableCertificates),
        Some(certs) => match pem_private_key(key_pem) {
            None => Err(TlsMaterialError::UnreadableKey),
            Some(None) => Err(TlsMaterialError::NoPrivateKey),
            Some(Some(key)) => Ok((certs, key)),
        },
    }
}

/// The certificate chain and private key of the TLS listeners, from the bytes
/// of their PEM files; see `tls_material_spec`.
pub fn tls_material(cert_pem: &[u8], key_pem: &[u8]) -> (r: Result<(Vec<Vec<u8>>, (KeyFormat, Vec<u8>)), TlsMaterialError>)
    ensures
        match tls_material_spec(cert_pem@, key_pem@) {
            Ok((certs, (f, d))) => r matches Ok((c, (g, e))) && ders_view(c@) == certs && g == f && e@ == d,
            Err(err) => r == Err::<(Vec<Vec<u8>>, (KeyFormat, Vec<u8>)), TlsMaterialError>(err),
        },
{
    let certs = match parse_pem_certs(cert_pem) {
        Some(c) => c,
        None => return Err(TlsMaterialError::UnreadableCertificates),
    };
    match parse_pem_private_key(key_pem) {
        None => Err(TlsMaterialError::UnreadableKey),
        Some(None) => Err(TlsMaterialError::NoPrivateKey),
        Some(Some(key)) => Ok((certs, key)),
    }
}

} // verus!
