//! Signature primitive: RSA PKCS#1 v1.5 over raw payload bytes.
//!
//! Keys are carried as PKCS#1 PEM text, the form they also take on the wire,
//! so contracts can speak about them as plain strings.  The calls into the
//! `rsa` crate stand behind trusted wrappers; signing and verification are
//! deterministic in the key and payload, so their outcomes are named by
//! uninterpreted spec functions and every caller's contract is stated over
//! those names.
use vstd::prelude::*;

use crate::errors::NodeError;

verus! {

/// Longest payload the signing primitive accepts: one RSA block of a
/// 1024-bit key, less the eleven bytes of PKCS#1 v1.5 padding.
pub const RSA_MESSAGE_LEN: usize = 117;

/// An RSA signature as raw bytes.
#[derive(Debug, PartialEq, Eq)]
pub struct RSAEncodedMsg(pub Vec<u8>);

/// A peer's public key, as PKCS#1 PEM text.
#[derive(Debug)]
pub struct PubKey(pub String);

/// The local user's private key, as PKCS#1 PEM text.
#[derive(Debug)]
pub struct PrivKey(pub String);

impl Clone for RSAEncodedMsg {
    fn clone(&self) -> (r: Self)
        ensures
            r.0@ == self.0@,
    {
        RSAEncodedMsg(self.0.clone())
    }
}

impl Clone for PubKey {
    fn clone(&self) -> (r: Self)
        ensures
            r.0@ == self.0@,
    {
        PubKey(self.0.clone())
    }
}

impl Clone for PrivKey {
    fn clone(&self) -> (r: Self)
        ensures
            r.0@ == self.0@,
    {
        PrivKey(self.0.clone())
    }
}

/// The outcome of signing `data` under the private key with this PEM form:
/// the signature, or nothing where the primitive refuses the key or the
/// payload.  Signing carries no randomness, so the outcome is a function of
/// the two arguments alone.
pub uninterp spec fn rsa_sign_of(data: Seq<u8>, priv_pem: Seq<char>) -> Option<Seq<u8>>;

/// Whether the primitive accepts `sig` as the signature of `data` under the
/// public key with this PEM form; deterministic in its three arguments.
pub uninterp spec fn rsa_verify_ok(data: Seq<u8>, sig: Seq<u8>, pub_pem: Seq<char>) -> bool;

/// Relies on `rsa::RsaPrivateKey::new` for a fresh 1024-bit key and on the
/// PKCS#1 PEM encoders of the `rsa` crate for both halves of the pair.  The
/// key itself is random, so the contract speaks only of the pair's fit:
/// a 1024-bit key signs any payload within one padded block (the block is
/// 128 bytes, eleven of them padding), and PKCS#1 v1.5 signing and
/// verification are exact inverses for a matched pair, so whatever the
/// private half signs, the public half accepts.
#[verifier::external_body]
pub fn generate_key() -> (r: Result<(PrivKey, PubKey), NodeError>)
    ensures
        r matches Ok(pair) ==> forall|data: Seq<u8>|
            data.len() <= RSA_MESSAGE_LEN ==> (#[trigger] rsa_sign_of(data, pair.0.0@)) is Some
                && rsa_verify_ok(data, rsa_sign_of(data, pair.0.0@)->0, pair.1.0@),
{
    let mut rng = rand::thread_rng();
    let key = rsa::RsaPrivateKey::new(&mut rng, 1024).map_err(|_| NodeError::Internal)?;
    let priv_pem = rsa::pkcs1::EncodeRsaPrivateKey::to_pkcs1_pem(&key, rsa::pkcs8::LineEnding::LF)
        .map_err(|_| NodeError::Internal)?;
    let pub_pem = rsa::pkcs1::EncodeRsaPublicKey::to_pkcs1_pem(
        &key.to_public_key(),
        rsa::pkcs8::LineEnding::LF,
    ).map_err(|_| NodeError::Internal)?;
    Ok((PrivKey(priv_pem.to_string()), PubKey(pub_pem)))
}

/// Relies on `rsa::RsaPrivateKey::sign` with `PaddingScheme::new_pkcs1v15_sign(None)`,
/// which signs the payload bytes directly and is deterministic in the key
/// and payload; the key is read back from its PKCS#1 PEM form, and a key
/// that does not parse refuses to sign.
#[verifier::external_body]
fn rsa_sign(data: &[u8], key: &PrivKey) -> (r: Option<Vec<u8>>)
    ensures
        r matches Some(s) ==> rsa_sign_of(data@, key.0@) == Some(s@),
        r is None ==> rsa_sign_of(data@, key.0@) is None,
{
    let parsed = <rsa::RsaPrivateKey as rsa::pkcs1::DecodeRsaPrivateKey>::from_pkcs1_pem(
        &key.0,
    ).ok()?;
    parsed.sign(rsa::PaddingScheme::new_pkcs1v15_sign(None), data).ok()
}

/// Relies on `rsa::PublicKey::verify` with `PaddingScheme::new_pkcs1v15_sign(None)`,
/// which returns `Ok` exactly when `sig` is the signature of `data` under
/// the key, deterministically; the key is read from its PKCS#1 PEM form.
#[verifier::external_body]
fn rsa_verify(data: &[u8], sig: &[u8], key: &PubKey) -> (r: bool)
    ensures
        r == rsa_verify_ok(data@, sig@, key.0@),
{
    match <rsa::RsaPublicKey as rsa::pkcs1::DecodeRsaPublicKey>::from_pkcs1_pem(&key.0) {
        Ok(k) => rsa::PublicKey::verify(&k, rsa::PaddingScheme::new_pkcs1v15_sign(None), data, sig)
            .is_ok(),
        Err(_) => false,
    }
}

/// Signs `serialized_data` with the user's private key.
///
/// Rejects payloads over [`RSA_MESSAGE_LEN`] bytes; on shorter payloads it
/// succeeds exactly when the primitive's signing outcome for this key and
/// payload is a signature, and reports an internal error otherwise.
pub fn encode_message(serialized_data: &[u8], private_key: &PrivKey) -> (r: Result<
    RSAEncodedMsg,
    NodeError,
>)
    ensures
        serialized_data@.len() > RSA_MESSAGE_LEN ==> r == Err::<RSAEncodedMsg, NodeError>(
            NodeError::MalformedInput,
        ),
        serialized_data@.len() <= RSA_MESSAGE_LEN ==> (r is Ok <==> rsa_sign_of(
            serialized_data@,
            private_key.0@,
        ) is Some),
        r matches Ok(m) ==> serialized_data@.len() <= RSA_MESSAGE_LEN && rsa_sign_of(
            serialized_data@,
            private_key.0@,
        ) == Some(m.0@),
        serialized_data@.len() <= RSA_MESSAGE_LEN && r is Err ==> r == Err::<
            RSAEncodedMsg,
            NodeError,
        >(NodeError::Internal),
{
    if serialized_data.len() > RSA_MESSAGE_LEN {
        Err(NodeError::MalformedInput)
    } else {
        match rsa_sign(serialized_data, private_key) {
            Some(sig) => Ok(RSAEncodedMsg(sig)),
            None => Err(NodeError::Internal),
        }
    }
}

/// Checks `signed_data` against `serialized_data` under a sender's public
/// key; accepted signatures are handed back as the transaction's proof.
pub fn verify_message(serialized_data: &[u8], signed_data: Vec<u8>, public_key: &PubKey) -> (r:
    Result<RSAEncodedMsg, NodeError>)
    ensures
        rsa_verify_ok(serialized_data@, signed_data@, public_key.0@) ==> (r matches Ok(m)
            && m.0@ == signed_data@),
        !rsa_verify_ok(serialized_data@, signed_data@, public_key.0@) ==> r == Err::<
            RSAEncodedMsg,
            NodeError,
        >(NodeError::BadSignature),
{
    if rsa_verify(serialized_data, signed_data.as_slice(), public_key) {
        Ok(RSAEncodedMsg(signed_data))
    } else {
        Err(NodeError::BadSignature)
    }
}

} // verus!
