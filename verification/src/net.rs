//! The certificates and keys that nodes and clients identify themselves with.

use vstd::prelude::*;

verus! {

/// A message that can be handed to another thread and sent to several peers.
pub trait NetMsg: Clone + Send + Sync + 'static {

}

impl<T> NetMsg for T where T: Clone + Send + Sync + 'static {

}

/// Why a certificate or a key cannot be had from a text.
#[derive(Debug, Clone, Copy, PartialEq, Eq, Structural)]
pub enum PemError {
    /// A section of the text cannot be decoded.
    Malformed,
    /// The text has no section of the kind that was looked for.
    Missing,
}

/// What the certificate sections of a PEM text decode to, each to its DER bytes and in their
/// order, or nothing if one of them cannot be decoded.
pub uninterp spec fn pem_certs(pem: Seq<u8>) -> Option<Seq<Seq<u8>>>;

/// What the PKCS#8 private key sections of a PEM text decode to, each to its DER bytes and in
/// their order, or nothing if one of them cannot be decoded.
pub uninterp spec fn pem_pkcs8_keys(pem: Seq<u8>) -> Option<Seq<Seq<u8>>>;

/// `rustls::internal::pemfile::certs`: nothing is said of what it decodes but that it depends
/// on the text alone.
#[verifier::external_body]
fn rustls_certs(pem: &[u8]) -> (r: Option<Vec<Vec<u8>>>)
    ensures
        r.deep_view() == pem_certs(pem@),
{
    let mut text = pem;
    match rustls::internal::pemfile::certs(&mut text) {
        Ok(certs) => Some(certs.into_iter().map(|c| c.0).collect()),
        Err(()) => None,
    }
}

/// `rustls::internal::pemfile::pkcs8_private_keys`: nothing is said of what it decodes but that
/// it depends on the text alone.
#[verifier::external_body]
fn rustls_pkcs8_keys(pem: &[u8]) -> (r: Option<Vec<Vec<u8>>>)
    ensures
        r.deep_view() == pem_pkcs8_keys(pem@),
{
    let mut text = pem;
    match rustls::internal::pemfile::pkcs8_private_keys(&mut text) {
        Ok(keys) => Some(keys.into_iter().map(|k| k.0).collect()),
        Err(()) => None,
    }
}

/// The last of the decoded sections.
pub open spec fn last_section(sections: Option<Seq<Seq<u8>>>) -> Result<Seq<u8>, PemError> {
    match sections {
        None => Err(PemError::Malformed),
        Some(all) => if all.len() == 0 {
            Err(PemError::Missing)
        } else {
            Ok(all.last())
        },
    }
}

/// The last of the decoded sections.
pub fn pop_section(sections: Option<Vec<Vec<u8>>>) -> (r: Result<Vec<u8>, PemError>)
    ensures
        match r {
            Ok(der) => last_section(sections.deep_view()) == Ok::<Seq<u8>, PemError>(der@),
            Err(e) => last_section(sections.deep_view()) == Err::<Seq<u8>, PemError>(e),
        },
{
    match sections {
        None => Err(PemError::Malformed),
        Some(all) => {
            let mut rest = all;
            match rest.pop() {
                None => Err(PemError::Missing),
                Some(der) => {
                    proof {
                        assert(all.deep_view().last() =~= der@);
                    }
                    Ok(der)
                },
            }
        },
    }
}

/// The chain of certificates in a PEM text: one for a certificate alone, more for a full chain,
/// and none if the text has none.
pub fn load_certs_pem(pem: &[u8]) -> (r: Result<Vec<Vec<u8>>, PemError>)
    ensures
        match r {
            Ok(certs) => pem_certs(pem@) == Some(certs.deep_view()),
            Err(e) => pem_certs(pem@) is None && e == PemError::Malformed,
        },
{
    match rustls_certs(pem) {
        Some(certs) => Ok(certs),
        None => Err(PemError::Malformed),
    }
}

/// The root's certificate: the last one of the chain in a PEM text.
pub fn load_root_cert_der(pem: &[u8]) -> (r: Result<Vec<u8>, PemError>)
    ensures
        match r {
            Ok(der) => last_section(pem_certs(pem@)) == Ok::<Seq<u8>, PemError>(der@),
            Err(e) => last_section(pem_certs(pem@)) == Err::<Seq<u8>, PemError>(e),
        },
{
    pop_section(rustls_certs(pem))
}

/// The private key in a PEM text: the last one, if there are more.
pub fn load_private_key_pem(pem: &[u8]) -> (r: Result<Vec<u8>, PemError>)
    ensures
        match r {
            Ok(der) => last_section(pem_pkcs8_keys(pem@)) == Ok::<Seq<u8>, PemError>(der@),
            Err(e) => last_section(pem_pkcs8_keys(pem@)) == Err::<Seq<u8>, PemError>(e),
        },
{
    pop_section(rustls_pkcs8_keys(pem))
}

/// Of several sections the last one counts; none at all is one thing, and one that cannot be
/// decoded is another.
pub proof fn law_last_section_counts(all: Seq<Seq<u8>>, last: Seq<u8>)
    ensures
        last_section(Some(all.push(last))) == Ok::<Seq<u8>, PemError>(last),
        last_section(Some(Seq::empty())) == Err::<Seq<u8>, PemError>(PemError::Missing),
        last_section(None) == Err::<Seq<u8>, PemError>(PemError::Malformed),
{
}

} // verus!
