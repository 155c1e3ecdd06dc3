//! Certificates and keys for TLS, taken out of PEM files.

use rustls::pki_types::PrivateKeyDer;
use vstd::prelude::*;

verus! {

/// The certificates of a PEM text, in order, in DER; nothing where the text
/// is malformed.
pub uninterp spec fn pem_certificates(pem: Seq<u8>) -> Option<Seq<Seq<u8>>>;

/// The first private key of a PEM text, where there is one, in DER, with the
/// number of its format (1 for PKCS#1, 2 for SEC1, 8 for PKCS#8, 0 for any
/// other); nothing where the text is malformed up to there.
pub uninterp spec fn pem_key(pem: Seq<u8>) -> Option<Option<(u8, Seq<u8>)>>;

/// The byte strings of a list.
pub open spec fn contents(v: Seq<Vec<u8>>) -> Seq<Seq<u8>> {
    v.map_values(|c: Vec<u8>| c@)
}

/// `rustls_pemfile::certs`, read to its end. Its result is named, not
/// described.
#[verifier::external_body]
fn read_certificates(pem: &[u8]) -> (r: Option<Vec<Vec<u8>>>)
    ensures
        match r {
            Some(v) => pem_certificates(pem@) == Some(contents(v@)),
            None => pem_certificates(pem@) is None,
        },
{
    let mut rd = pem;
    let all: Result<Vec<_>, _> = rustls_pemfile::certs(&mut rd).collect();
    all.ok().map(|v| v.into_iter().map(|c| c.to_vec()).collect())
}

/// `rustls_pemfile::private_key`. Its result is named, not described.
#[verifier::external_body]
fn read_key(pem: &[u8]) -> (r: Option<Option<(u8, Vec<u8>)>>)
    ensures
        match r {
            Some(Some((format, der))) => pem_key(pem@) == Some(Some((format, der@))),
            Some(None) => pem_key(pem@) == Some(None::<(u8, Seq<u8>)>),
            None => pem_key(pem@) is None,
        },
{
    let mut rd = pem;
    let key = rustls_pemfile::private_key(&mut rd).ok()?;
    Some(key.map(|k| match k {
        PrivateKeyDer::Pkcs1(d) => (1, d.secret_pkcs1_der().to_vec()),
        PrivateKeyDer::Sec1(d) => (2, d.secret_sec1_der().to_vec()),
        PrivateKeyDer::Pkcs8(d) => (8, d.secret_pkcs8_der().to_vec()),
        other => (0, other.secret_der().to_vec()),
    }))
}

/// The certificates of a file of trusted roots; nothing where it is malformed.
pub fn pem_roots(pem: &[u8]) -> (r: Option<Vec<Vec<u8>>>)
    ensures
        match r {
            Some(v) => pem_certificates(pem@) == Some(contents(v@)),
            None => pem_certificates(pem@) is None,
        },
{
    read_certificates(pem)
}

/// Why PEM files do not make a TLS identity.
#[derive(Debug, Clone, Copy, PartialEq, Eq, Structural)]
pub enum TlsError {
    BadCertificate,
    BadKey,
    /// There is no private key in the key file.
    NoKey,
}

/// A certificate chain and its key, in DER.
pub struct TlsIdentity {
    pub certificates: Vec<Vec<u8>>,
    pub key_format: u8,
    pub key: Vec<u8>,
}

/// The error that parsed PEM files give, where they make no identity.
pub open spec fn identity_error(
    certificates: Option<Seq<Seq<u8>>>,
    key: Option<Option<(u8, Seq<u8>)>>,
) -> Option<TlsError> {
    if certificates is None {
        Some(TlsError::BadCertificate)
    } else if key is None {
        Some(TlsError::BadKey)
    } else if key->0 is None {
        Some(TlsError::NoKey)
    } else {
        None
    }
}

/// Puts parsed certificates and a parsed key together.
pub fn identity_of(certificates: Option<Vec<Vec<u8>>>, key: Option<Option<(u8, Vec<u8>)>>) -> (r:
    Result<TlsIdentity, TlsError>)
    ensures
        r == match (certificates, key) {
            (Some(certificates), Some(Some((key_format, key)))) => Ok::<TlsIdentity, TlsError>(
                TlsIdentity { certificates, key_format, key },
            ),
            (None, _) => Err(TlsError::BadCertificate),
            (_, None) => Err(TlsError::BadKey),
            (_, Some(None)) => Err(TlsError::NoKey),
        },
{
    match certificates {
        None => Err(TlsError::BadCertificate),
        Some(certificates) => match key {
            None => Err(TlsError::BadKey),
            Some(None) => Err(TlsError::NoKey),
            Some(Some((key_format, key))) => Ok(TlsIdentity { certificates, key_format, key }),
        },
    }
}

/// The identity in a certificate file and a key file.
pub fn tls_identity(cert_pem: &[u8], key_pem: &[u8]) -> (r: Result<TlsIdentity, TlsError>)
    ensures
        match r {
            Ok(id) => {
                &&& pem_certificates(cert_pem@) == Some(contents(id.certificates@))
                &&& pem_key(key_pem@) == Some(Some((id.key_format, id.key@)))
            },
            Err(e) => identity_error(pem_certificates(cert_pem@), pem_key(key_pem@)) == Some(e),
        },
{
    identity_of(read_certificates(cert_pem), read_key(key_pem))
}

/// Files make an identity where both parse and there is a key; else the first
/// thing that is wrong is told, the certificate before the key.
pub proof fn identities_need_both(
    certificates: Option<Seq<Seq<u8>>>,
    key: Option<Option<(u8, Seq<u8>)>>,
)
    ensures
        identity_error(certificates, key) is None <==> certificates is Some && (
        key matches Some(Some(k))),
        certificates is None ==> identity_error(certificates, key) == Some(
            TlsError::BadCertificate,
        ),
        certificates is Some && key is None ==> identity_error(certificates, key) == Some(
            TlsError::BadKey,
        ),
        certificates is Some && key == Some(None::<(u8, Seq<u8>)>) ==> identity_error(
            certificates,
            key,
        ) == Some(TlsError::NoKey),
{
}

/// The byte strings of a list stand in its order.
pub proof fn contents_keep_the_order(v: Seq<Vec<u8>>, i: int)
    requires
        0 <= i < v.len(),
    ensures
        contents(v).len() == v.len(),
        contents(v)[i] == v[i]@,
{
}

} // verus!
