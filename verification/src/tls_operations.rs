//! What the calls that read certificates and keys give for what they are given.

use crate::tls::{
    choose_identity, contents, pem_certificates, pem_private_keys, root_certificates,
    server_identity, CredentialError, Identity,
};
use vstd::prelude::*;
use vstd::utf8::encode_utf8;

verus! {

/// What a list of byte strings holds is what each of them holds, in their order.
pub proof fn law_contents(list: Seq<Vec<u8>>)
    ensures
        contents(list).len() == list.len(),
        forall|i: int| 0 <= i < list.len() ==> #[trigger] contents(list)[i] == list[i]@,
{
}

/// The identity has all certificates that were found and the first of the private
/// keys.
pub proof fn law_chosen_identity(
    chain: Vec<Vec<u8>>,
    keys: Vec<Vec<u8>>,
    res: Result<Identity, CredentialError>,
)
    requires
        call_ensures(
            choose_identity,
            (
                Ok::<Vec<Vec<u8>>, std::io::Error>(chain),
                Ok::<Vec<Vec<u8>>, std::io::Error>(keys),
            ),
            res,
        ),
    ensures
        keys@.len() > 0 ==> (res matches Ok(identity) && identity.certificates@ == chain@
            && identity.private_key@ == keys@[0]@),
        keys@.len() == 0 ==> (res matches Err(error) && error is NoPrivateKey),
{
}

/// Without certificates or without keys there is no identity, and the error that
/// was met is handed on. That of the certificates comes first.
pub proof fn law_no_identity(
    certificates: Result<Vec<Vec<u8>>, std::io::Error>,
    keys: Result<Vec<Vec<u8>>, std::io::Error>,
    res: Result<Identity, CredentialError>,
)
    requires
        call_ensures(choose_identity, (certificates, keys), res),
    ensures
        certificates matches Err(met) ==> (res matches Err(error)
            && error == CredentialError::Certificates(met)),
        certificates is Ok && keys is Err ==> (res matches Err(error)
            && error == CredentialError::PrivateKey(keys->Err_0)),
{
}

/// What an agent trusts is what is found in its file: each certificate, in their
/// order. There is nothing to trust exactly where the file is malformed.
pub proof fn law_trusted_certificates(pem: &str, res: Result<Vec<Vec<u8>>, CredentialError>)
    requires
        call_ensures(root_certificates, (pem,), res),
    ensures
        res is Ok <==> pem_certificates(encode_utf8(pem@)) is Some,
        res matches Ok(list) ==> {
            let found = pem_certificates(encode_utf8(pem@))->0;
            &&& list@.len() == found.len()
            &&& forall|i: int| 0 <= i < found.len() ==> #[trigger] list@[i]@ == found[i]
        },
        res matches Err(error) ==> error is Certificates,
{
    if res is Ok {
        let list = res->Ok_0@;
        let found = pem_certificates(encode_utf8(pem@))->0;
        assert(contents(list).len() == list.len());
        assert forall|i: int| 0 <= i < found.len() implies #[trigger] list[i]@ == found[i] by {
            assert(contents(list)[i] == list[i]@);
        }
    }
}

/// A server is known by the certificates that are found in its one file, each and
/// in their order, and by the first of the keys that are found in the other.
pub proof fn law_server_identity(
    certificate_pem: &[u8],
    key_pem: &[u8],
    res: Result<Identity, CredentialError>,
)
    requires
        call_ensures(server_identity, (certificate_pem, key_pem), res),
    ensures
        res is Ok <==> (pem_certificates(certificate_pem@) is Some && (pem_private_keys(
            key_pem@,
        ) matches Some(keys) && keys.len() > 0)),
        res matches Ok(identity) ==> {
            let found = pem_certificates(certificate_pem@)->0;
            &&& identity.certificates@.len() == found.len()
            &&& forall|i: int|
                0 <= i < found.len() ==> #[trigger] identity.certificates@[i]@ == found[i]
            &&& identity.private_key@ == pem_private_keys(key_pem@)->0[0]
        },
        res matches Err(error) ==> {
            &&& error is Certificates <==> pem_certificates(certificate_pem@) is None
            &&& error is PrivateKey <==> pem_certificates(certificate_pem@) is Some
                && pem_private_keys(key_pem@) is None
        },
{
    if res is Ok {
        let list = res->Ok_0.certificates@;
        let found = pem_certificates(certificate_pem@)->0;
        assert(contents(list).len() == list.len());
        assert forall|i: int| 0 <= i < found.len() implies #[trigger] list[i]@ == found[i] by {
            assert(contents(list)[i] == list[i]@);
        }
    }
}

} // verus!
