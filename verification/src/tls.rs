//! The certificates and keys by which the two sides know each other.

use vstd::prelude::*;
use vstd::utf8::encode_utf8;

verus! {

/// An error of input and output, `std::io::Error`.
#[verifier::external_type_specification]
#[verifier::external_body]
pub struct ExIoError(std::io::Error);

/// The certificates, each in DER, that `rustls_pemfile::certs` finds in a PEM
/// file; nothing, where it finds the file malformed.
pub uninterp spec fn pem_certificates(pem: Seq<u8>) -> Option<Seq<Seq<u8>>>;

/// The private keys, each in DER, that `rustls_pemfile::pkcs8_private_keys` finds
/// in a PEM file; nothing, where it finds the file malformed.
pub uninterp spec fn pem_private_keys(pem: Seq<u8>) -> Option<Seq<Seq<u8>>>;

/// What a list of byte strings holds.
pub open spec fn contents(list: Seq<Vec<u8>>) -> Seq<Seq<u8>> {
    Seq::new(list.len(), |i: int| list[i]@)
}

/// What a list of byte strings holds, where there is a list.
pub open spec fn found(list: Result<Vec<Vec<u8>>, std::io::Error>) -> Option<Seq<Seq<u8>>> {
    match list {
        Ok(list) => Some(contents(list@)),
        Err(_) => None,
    }
}

/// Reads the certificates out of a PEM file, by `rustls_pemfile::certs`: what it
/// finds depends on the bytes of the file alone.
#[verifier::external_body]
fn read_certificates(pem: &[u8]) -> (res: Result<Vec<Vec<u8>>, std::io::Error>)
    ensures
        found(res) == pem_certificates(pem@),
{
    let mut reader = pem;
    rustls_pemfile::certs(&mut reader)
}

/// Reads the private keys out of a PEM file, by
/// `rustls_pemfile::pkcs8_private_keys`: what it finds depends on the bytes of the
/// file alone.
#[verifier::external_body]
fn read_private_keys(pem: &[u8]) -> (res: Result<Vec<Vec<u8>>, std::io::Error>)
    ensures
        found(res) == pem_private_keys(pem@),
{
    let mut reader = pem;
    rustls_pemfile::pkcs8_private_keys(&mut reader)
}

/// Why there are no certificates or no key.
#[derive(Debug)]
pub enum CredentialError {
    /// The file with the certificates is malformed.
    Certificates(std::io::Error),
    /// The file with the private key is malformed.
    PrivateKey(std::io::Error),
    /// There is no private key in its file.
    NoPrivateKey,
}

/// Reads the certificates that an agent trusts.
pub fn root_certificates(pem: &str) -> (res: Result<Vec<Vec<u8>>, CredentialError>)
    ensures
        match res {
            Ok(certificates) => pem_certificates(encode_utf8(pem@)) == Some(
                contents(certificates@),
            ),
            Err(error) => pem_certificates(encode_utf8(pem@)) is None && error is Certificates,
        },
{
    match read_certificates(pem.as_bytes()) {
        Ok(certificates) => Ok(certificates),
        Err(error) => Err(CredentialError::Certificates(error)),
    }
}

/// By what a server is known: its chain of certificates and its private key.
#[derive(Debug)]
pub struct Identity {
    pub certificates: Vec<Vec<u8>>,
    pub private_key: Vec<u8>,
}

/// Makes a server's identity from what was found in its files: all certificates,
/// and the first of the private keys. Where both files are malformed, it is the
/// certificates that are to blame.
pub fn choose_identity(
    certificates: Result<Vec<Vec<u8>>, std::io::Error>,
    private_keys: Result<Vec<Vec<u8>>, std::io::Error>,
) -> (res: Result<Identity, CredentialError>)
    ensures
        match (certificates, private_keys) {
            (Err(error), _) => res == Err::<Identity, CredentialError>(
                CredentialError::Certificates(error),
            ),
            (Ok(_), Err(error)) => res == Err::<Identity, CredentialError>(
                CredentialError::PrivateKey(error),
            ),
            (Ok(chain), Ok(keys)) => if keys@.len() == 0 {
                res == Err::<Identity, CredentialError>(CredentialError::NoPrivateKey)
            } else {
                res matches Ok(identity) && identity.certificates == chain && identity.private_key
                    == keys@[0]
            },
        },
{
    match certificates {
        Err(error) => Err(CredentialError::Certificates(error)),
        Ok(certificates) => match private_keys {
            Err(error) => Err(CredentialError::PrivateKey(error)),
            Ok(keys) => {
                let mut keys = keys;
                if keys.len() == 0 {
                    return Err(CredentialError::NoPrivateKey);
                }
                let private_key = keys.remove(0);
                Ok(Identity { certificates, private_key })
            },
        },
    }
}

/// Reads a server's identity from the files with its certificates and its key.
pub fn server_identity(certificate_pem: &[u8], key_pem: &[u8]) -> (res: Result<
    Identity,
    CredentialError,
>)
    ensures
        match (pem_certificates(certificate_pem@), pem_private_keys(key_pem@)) {
            (None, _) => res matches Err(error) && error is Certificates,
            (Some(_), None) => res matches Err(error) && error is PrivateKey,
            (Some(chain), Some(keys)) => if keys.len() == 0 {
                res matches Err(error) && error is NoPrivateKey
            } else {
                res matches Ok(identity) && contents(identity.certificates@) == chain
                    && identity.private_key@ == keys[0]
            },
        },
{
    choose_identity(read_certificates(certificate_pem), read_private_keys(key_pem))
}

} // verus!
