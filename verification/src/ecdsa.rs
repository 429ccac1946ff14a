//! ECDSA signature verification over secp256k1: the check that the guest
//! programs run on a public key, a message and a signature.
use vstd::prelude::*;
use k256::ecdsa::signature::{Signer, Verifier};

verus! {

/// A decoded `k256::ecdsa::VerifyingKey`: a secp256k1 public key, kept
/// opaque; `PublicKey` pairs it with the bytes it was decoded from.
#[verifier::external_body]
pub struct VerifyingKeyHandle {
    key: k256::ecdsa::VerifyingKey,
}

/// A decoded `k256::ecdsa::Signature`: the scalars `r` and `s`, kept opaque;
/// `EcdsaSignature` pairs it with the bytes it was decoded from.
#[verifier::external_body]
pub struct SignatureHandle {
    sig: k256::ecdsa::Signature,
}

/// `bytes` is a SEC1 encoding of a point of secp256k1 other than the
/// identity, as `k256::ecdsa::VerifyingKey::from_sec1_bytes` accepts.
pub uninterp spec fn sec1_public_key_valid(bytes: Seq<u8>) -> bool;

/// ECDSA over secp256k1 with SHA-256 accepts `signature` on `message` under
/// the SEC1-encoded public key `key`, as `k256::ecdsa::VerifyingKey::verify` decides.
pub uninterp spec fn ecdsa_verifies(key: Seq<u8>, message: Seq<u8>, signature: Seq<u8>) -> bool;

/// The order `n` of the group of secp256k1.
pub open spec fn secp256k1_order() -> nat {
    0xFFFFFFFFFFFFFFFFFFFFFFFFFFFFFFFEBAAEDCE6AF48A03BBFD25E8CD0364141nat
}

/// The unsigned integer that `bytes` encodes, most significant byte first.
pub open spec fn big_endian(bytes: Seq<u8>) -> nat
    decreases bytes.len(),
{
    if bytes.len() == 0 {
        0
    } else {
        big_endian(bytes.drop_last()) * 256 + bytes.last() as nat
    }
}

/// `bytes` is a fixed-size signature `r || s` of 64 bytes with both `r` and
/// `s` in `1 .. n`.
pub open spec fn signature_bytes_valid(bytes: Seq<u8>) -> bool {
    &&& bytes.len() == 64
    &&& 1 <= big_endian(bytes.subrange(0, 32)) < secp256k1_order()
    &&& 1 <= big_endian(bytes.subrange(32, 64)) < secp256k1_order()
}

/// A decoded public key, with the bytes it was decoded from.
pub struct PublicKey {
    handle: VerifyingKeyHandle,
    encoded: Vec<u8>,
}

/// A decoded `k256::ecdsa::SigningKey`: a secp256k1 secret scalar, kept
/// opaque; `SecretKey` pairs it with the bytes it was decoded from.
#[verifier::external_body]
pub struct SigningKeyHandle {
    key: k256::ecdsa::SigningKey,
}

/// A decoded secret key, with the bytes it was decoded from.
pub struct SecretKey {
    handle: SigningKeyHandle,
    encoded: Vec<u8>,
}

/// `bytes` is a big-endian secret scalar of 24 to 32 bytes in `1 .. n`, as
/// `k256::ecdsa::SigningKey::from_slice` accepts (shorter slices are padded
/// with leading zeros, which keeps their value).
pub open spec fn secret_key_bytes_valid(bytes: Seq<u8>) -> bool {
    &&& 24 <= bytes.len() <= 32
    &&& 1 <= big_endian(bytes) < secp256k1_order()
}

/// The compressed SEC1 encoding of the public key of the secret scalar `secret`.
pub uninterp spec fn ecdsa_public_key(secret: Seq<u8>) -> Seq<u8>;

/// The deterministic (RFC 6979) ECDSA/SHA-256 signature `r || s` of `message`
/// under the secret scalar `secret`, as `k256` computes it.
pub uninterp spec fn ecdsa_sign(secret: Seq<u8>, message: Seq<u8>) -> Seq<u8>;

/// Calls `k256::ecdsa::SigningKey::from_slice`. Trusted: it succeeds exactly
/// on the slices that `secret_key_bytes_valid` describes (the source checks
/// the length, pads, then rejects scalars that are zero or not below `n`),
/// and the key keeps the bytes it came from.
#[verifier::external_body]
fn parse_secret_key(bytes: &[u8]) -> (r: Option<SecretKey>)
    ensures
        r is Some <==> secret_key_bytes_valid(bytes@),
        r matches Some(k) ==> k.encoded@ == bytes@,
{
    match k256::ecdsa::SigningKey::from_slice(bytes) {
        Ok(key) => Some(SecretKey { handle: SigningKeyHandle { key }, encoded: bytes.to_vec() }),
        Err(_) => None,
    }
}

/// Calls `to_encoded_point(true)` on the key's `verifying_key()`. Trusted:
/// the result is `ecdsa_public_key` of the secret, and it is an encoding that
/// `from_sec1_bytes` accepts, since it encodes the key's own curve point.
#[verifier::external_body]
fn compressed_public_key(key: &SecretKey) -> (r: Vec<u8>)
    ensures
        r@ == ecdsa_public_key(key.encoded@),
        sec1_public_key_valid(r@),
{
    key.handle.key.verifying_key().to_encoded_point(true).as_bytes().to_vec()
}

/// Calls `Signer::sign` of `k256::ecdsa::SigningKey` and serializes the
/// signature with `to_bytes`. Trusted: the result is `ecdsa_sign` of the
/// secret and the message; it is 64 bytes of two scalars in `1 .. n` (a
/// `Signature` holds no others); and it verifies under the key's public key,
/// as the crate's documentation shows for a signature and its key.
#[verifier::external_body]
fn sign_message(key: &SecretKey, message: &[u8]) -> (r: Vec<u8>)
    ensures
        r@ == ecdsa_sign(key.encoded@, message@),
        signature_bytes_valid(r@),
        ecdsa_verifies(ecdsa_public_key(key.encoded@), message@, r@),
{
    let sig: k256::ecdsa::Signature = key.handle.key.sign(message);
    sig.to_bytes().to_vec()
}

/// A decoded signature, with the bytes it was decoded from.
pub struct EcdsaSignature {
    handle: SignatureHandle,
    encoded: Vec<u8>,
}

/// Calls `k256::ecdsa::VerifyingKey::from_sec1_bytes`. Trusted: it succeeds
/// exactly on the encodings that `sec1_public_key_valid` names, and the key
/// keeps the bytes it came from.
#[verifier::external_body]
fn parse_public_key(bytes: &[u8]) -> (r: Option<PublicKey>)
    ensures
        r is Some <==> sec1_public_key_valid(bytes@),
        r matches Some(k) ==> k.encoded@ == bytes@,
{
    match k256::ecdsa::VerifyingKey::from_sec1_bytes(bytes) {
        Ok(key) => Some(PublicKey { handle: VerifyingKeyHandle { key }, encoded: bytes.to_vec() }),
        Err(_) => None,
    }
}

/// Calls `k256::ecdsa::Signature::from_slice`. Trusted: it succeeds exactly
/// when the slice has 64 bytes whose halves `r` and `s`, read big-endian,
/// lie in `1 .. n` (the source checks the length, then each scalar against
/// the order, then that neither is zero).
#[verifier::external_body]
fn parse_signature(bytes: &[u8]) -> (r: Option<EcdsaSignature>)
    ensures
        r is Some <==> signature_bytes_valid(bytes@),
        r matches Some(s) ==> s.encoded@ == bytes@,
{
    match k256::ecdsa::Signature::from_slice(bytes) {
        Ok(sig) => Some(EcdsaSignature { handle: SignatureHandle { sig }, encoded: bytes.to_vec() }),
        Err(_) => None,
    }
}

/// Calls `Verifier::verify` of `k256::ecdsa::VerifyingKey`. Trusted: it
/// accepts exactly when `ecdsa_verifies` holds of the key's and the
/// signature's encodings and the message.
#[verifier::external_body]
fn verify_with_key(key: &PublicKey, message: &[u8], sig: &EcdsaSignature) -> (ok: bool)
    ensures
        ok == ecdsa_verifies(key.encoded@, message@, sig.encoded@),
{
    key.handle.key.verify(message, &sig.handle.sig).is_ok()
}

/// Why a signature check failed.
#[derive(Debug, Clone, Copy, PartialEq, Eq, Structural)]
pub enum EcdsaError {
    /// The signature is not 64 bytes of two scalars in `1 .. n`.
    InvalidSignature,
    /// The public key is not a valid SEC1 encoding of a curve point.
    InvalidPublicKey,
    /// The signature does not verify under the key.
    VerificationFailed,
    /// The secret key is not a scalar in `1 .. n` of 24 to 32 bytes.
    InvalidSecretKey,
}

/// The outcome of `ecdsa_verify` on its inputs.
pub open spec fn spec_ecdsa_verify(key: Seq<u8>, message: Seq<u8>, signature: Seq<u8>) -> Result<
    (),
    EcdsaError,
> {
    if !signature_bytes_valid(signature) {
        Err(EcdsaError::InvalidSignature)
    } else if !sec1_public_key_valid(key) {
        Err(EcdsaError::InvalidPublicKey)
    } else if !ecdsa_verifies(key, message, signature) {
        Err(EcdsaError::VerificationFailed)
    } else {
        Ok(())
    }
}

/// Decodes the signature and the SEC1-encoded public key, and verifies the
/// signature on `message`. On success it returns the key and the message,
/// which the guest commits to its journal.
pub fn ecdsa_verify(encoded_key: &[u8], message: &[u8], signature: &[u8]) -> (r: Result<
    (Vec<u8>, Vec<u8>),
    EcdsaError,
>)
    ensures
        r is Ok <==> spec_ecdsa_verify(encoded_key@, message@, signature@) is Ok,
        r matches Err(e) ==> spec_ecdsa_verify(encoded_key@, message@, signature@) == Err::<(), EcdsaError>(e),
        r matches Ok(out) ==> out.0@ == encoded_key@ && out.1@ == message@,
{
    let sig = match parse_signature(signature) {
        Some(s) => s,
        None => {
            return Err(EcdsaError::InvalidSignature);
        },
    };
    let key = match parse_public_key(encoded_key) {
        Some(k) => k,
        None => {
            return Err(EcdsaError::InvalidPublicKey);
        },
    };
    if !verify_with_key(&key, message, &sig) {
        return Err(EcdsaError::VerificationFailed);
    }
    let key_out = copy_bytes(encoded_key);
    let msg_out = copy_bytes(message);
    Ok((key_out, msg_out))
}

/// The message that the benchmark signs: 1024 zero bytes.
pub open spec fn bench_message() -> Seq<u8> {
    Seq::new(1024, |i: int| 0u8)
}

/// Prepares the benchmark's input from a secret key: the compressed public
/// key, the message of 1024 zero bytes, and the message's signature. What it
/// returns passes `ecdsa_verify`.
pub fn ecdsa_bench_input(secret_key: &[u8]) -> (r: Result<(Vec<u8>, Vec<u8>, Vec<u8>), EcdsaError>)
    ensures
        r is Ok <==> secret_key_bytes_valid(secret_key@),
        r is Err ==> r == Err::<(Vec<u8>, Vec<u8>, Vec<u8>), EcdsaError>(EcdsaError::InvalidSecretKey),
        r matches Ok(input) ==> {
            &&& input.0@ == ecdsa_public_key(secret_key@)
            &&& input.1@ == bench_message()
            &&& input.2@ == ecdsa_sign(secret_key@, bench_message())
            &&& spec_ecdsa_verify(input.0@, input.1@, input.2@) == Ok::<(), EcdsaError>(())
        },
{
    let key = match parse_secret_key(secret_key) {
        Some(k) => k,
        None => {
            return Err(EcdsaError::InvalidSecretKey);
        },
    };
    let mut message: Vec<u8> = Vec::new();
    for i in 0..1024usize
        invariant
            message@ == Seq::new(i as nat, |j: int| 0u8),
    {
        message.push(0);
        assert(message@ =~= Seq::new((i + 1) as nat, |j: int| 0u8));
    }
    let public_key = compressed_public_key(&key);
    let signature = sign_message(&key, message.as_slice());
    Ok((public_key, message, signature))
}

fn copy_bytes(b: &[u8]) -> (r: Vec<u8>)
    ensures
        r@ == b@,
{
    let mut r: Vec<u8> = Vec::new();
    for i in 0..b.len()
        invariant
            r@ == b@.subrange(0, i as int),
    {
        r.push(b[i]);
        assert(r@ =~= b@.subrange(0, i + 1));
    }
    assert(r@ =~= b@);
    r
}

} // verus!
