use vstd::prelude::*;
use crate::error::TransportError;

verus! {

/// The contents of the first PEM block of `input`, where it holds one.
pub uninterp spec fn pem_block_contents(input: Seq<u8>) -> Option<Seq<u8>>;

/// Relies on pem::parse and Pem::into_contents: the decoded contents of the
/// first PEM block, or the error where the text holds none; the outcome
/// depends on the bytes alone.
#[verifier::external_body]
fn parse_pem(input: &[u8]) -> (r: Result<Vec<u8>, pem::PemError>)
    ensures
        match r {
            Ok(c) => pem_block_contents(input@) == Some(c@),
            Err(_) => pem_block_contents(input@) is None,
        },
{
    match pem::parse(input) {
        Ok(p) => Ok(p.into_contents()),
        Err(e) => Err(e),
    }
}

/// The DER bytes inside a PEM certificate or key.
pub fn der_from_pem(pem_bytes: &[u8]) -> (r: Result<Vec<u8>, TransportError>)
    ensures
        match pem_block_contents(pem_bytes@) {
            Some(c) => r matches Ok(d) && d@ == c,
            None => r matches Err(TransportError::PemParse(_)),
        },
{
    match parse_pem(pem_bytes) {
        Ok(c) => Ok(c),
        Err(e) => Err(TransportError::PemParse(e)),
    }
}

/// A server's certificate and PKCS#8 private key, as DER.
pub struct ServerIdentity {
    pub cert_der: Vec<u8>,
    pub key_der: Vec<u8>,
}

/// The server's certificate and key from their PEM files. The certificate is
/// decoded first, and its error is the one reported where both fail.
pub fn server_identity(cert_pem: &[u8], key_pem: &[u8]) -> (r: Result<ServerIdentity, TransportError>)
    ensures
        match (pem_block_contents(cert_pem@), pem_block_contents(key_pem@)) {
            (Some(c), Some(k)) => r matches Ok(id) && id.cert_der@ == c && id.key_der@ == k,
            _ => r matches Err(TransportError::PemParse(_)),
        },
{
    let cert_der = der_from_pem(cert_pem)?;
    let key_der = der_from_pem(key_pem)?;
    Ok(ServerIdentity { cert_der, key_der })
}

} // verus!
