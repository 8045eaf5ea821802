//! The check of a signed challenge: base64 from the `base64` crate, RSA and
//! SHA-256 from OpenSSL through the `openssl` crate.
//!
//! What OpenSSL answers depends on the library that is installed and on how
//! it is configured, so nothing is claimed of it here: the callers are
//! verified for every answer.

use base64::Engine;
use openssl::error::ErrorStack;
use openssl::hash::MessageDigest;
use openssl::pkey::{PKey, Public};
use openssl::rsa::Rsa;
use openssl::sign::Verifier;
use vstd::prelude::*;

verus! {

/// `base64::DecodeError`, why a text is no base64. It is never looked into.
#[verifier::external_type_specification]
#[verifier::external_body]
pub struct ExDecodeError(base64::DecodeError);

/// `openssl::error::ErrorStack`, what OpenSSL reports when it fails. It is
/// never looked into.
#[verifier::external_type_specification]
#[verifier::external_body]
pub struct ExErrorStack(openssl::error::ErrorStack);

/// `openssl::pkey::Public`, the tag of keys that hold no private part.
#[verifier::external_type_specification]
#[verifier::external_body]
pub struct ExPublic(openssl::pkey::Public);

/// `openssl::rsa::Rsa`, an RSA key. It is only handed on.
#[verifier::external_type_specification]
#[verifier::external_body]
#[verifier::reject_recursive_types(T)]
pub struct ExRsa<T>(openssl::rsa::Rsa<T>);

/// `openssl::pkey::PKey`, a key of any kind. It is only handed on.
#[verifier::external_type_specification]
#[verifier::external_body]
#[verifier::reject_recursive_types(T)]
pub struct ExPKey<T>(openssl::pkey::PKey<T>);

/// `openssl::hash::MessageDigest`, the choice of a hash function.
#[verifier::external_type_specification]
#[verifier::external_body]
pub struct ExMessageDigest(openssl::hash::MessageDigest);

/// `openssl::sign::Verifier`, a signature check under way.
#[verifier::external_type_specification]
#[verifier::external_body]
pub struct ExVerifier<'a>(openssl::sign::Verifier<'a>);

/// The bytes that the standard base64 engine (standard alphabet, canonical
/// padding required) decodes `text` to; `None` where it reports an error.
pub uninterp spec fn base64_decoding(text: Seq<char>) -> Option<Seq<u8>>;

/// `Engine::decode` of `base64::engine::general_purpose::STANDARD`. The
/// contract gives the result its name: the same text always decodes to the
/// same bytes, or always fails.
#[verifier::external_body]
pub(crate) fn base64_decode(text: &str) -> (decoded: Result<Vec<u8>, base64::DecodeError>)
    ensures
        decoded matches Ok(bytes) ==> base64_decoding(text@) == Some(bytes@),
        decoded is Err ==> base64_decoding(text@) is None,
{
    base64::engine::general_purpose::STANDARD.decode(text)
}

/// `Rsa::public_key_from_pem`: the RSA public key that OpenSSL reads from
/// `pem`. Nothing is claimed of the result. The length is bounded because
/// the crate stops the program on a longer input.
#[verifier::external_body]
pub(crate) fn rsa_public_key_from_pem(pem: &[u8]) -> (key: Result<Rsa<Public>, ErrorStack>)
    requires
        pem@.len() <= 0x7fff_ffff,
{
    Rsa::public_key_from_pem(pem)
}

/// `RsaRef::public_key_to_pem`: the key written out by OpenSSL. Nothing is
/// claimed of the result.
#[verifier::external_body]
pub(crate) fn rsa_public_key_to_pem(key: &Rsa<Public>) -> (pem: Result<Vec<u8>, ErrorStack>) {
    key.public_key_to_pem()
}

/// `PKey::public_key_from_pem`: the public key that OpenSSL reads from
/// `pem`. Nothing is claimed of the result. The length is bounded because
/// the crate stops the program on a longer input.
#[verifier::external_body]
pub(crate) fn public_key_from_pem(pem: &[u8]) -> (key: Result<PKey<Public>, ErrorStack>)
    requires
        pem@.len() <= 0x7fff_ffff,
{
    PKey::public_key_from_pem(pem)
}

/// `MessageDigest::sha256`.
#[verifier::external_body]
pub(crate) fn sha256() -> MessageDigest {
    MessageDigest::sha256()
}

/// `Verifier::new`: a check of signatures under `key` over the hash
/// `digest`; for an RSA key OpenSSL takes PKCS#1 v1.5 padding. Nothing is
/// claimed of the result. The crate stops the program only where OpenSSL
/// reports success and hands out no context, which it promises not to do.
#[verifier::external_body]
pub(crate) fn verifier_for<'a>(digest: MessageDigest, key: &'a PKey<Public>) -> (verifier: Result<
    Verifier<'a>,
    ErrorStack,
>) {
    Verifier::new(digest, key)
}

/// `Verifier::update`: feeds `data` into the check. Nothing is claimed of
/// the result.
#[verifier::external_body]
pub(crate) fn verifier_update(verifier: &mut Verifier<'_>, data: &[u8]) -> (fed: Result<
    (),
    ErrorStack,
>) {
    verifier.update(data)
}

/// `Verifier::verify`: whether `signature` signs what was fed into the
/// check. Nothing is claimed of the result.
#[verifier::external_body]
pub(crate) fn verifier_verify(verifier: &Verifier<'_>, signature: &[u8]) -> (verified: Result<
    bool,
    ErrorStack,
>) {
    verifier.verify(signature)
}

} // verus!
