use k256::ecdsa::signature::Signer;
use k256::ecdsa::{Signature, SigningKey};
use mllib::ecdsa::{ecdsa_verify, EcdsaError};

fn fixture() -> (Vec<u8>, Vec<u8>, Vec<u8>) {
    let signing_key = SigningKey::from_slice(&[7u8; 32]).unwrap();
    let message = vec![0u8; 1024];
    let signature: Signature = signing_key.sign(&message);
    let key = signing_key.verifying_key().to_encoded_point(true).as_bytes().to_vec();
    (key, message, signature.to_bytes().to_vec())
}

#[test]
fn valid_signature_verifies() {
    let (key, message, sig) = fixture();
    let r = ecdsa_verify(&key, &message, &sig);
    assert_eq!(r, Ok((key, message)));
}

#[test]
fn uncompressed_key_verifies_too() {
    let signing_key = SigningKey::from_slice(&[7u8; 32]).unwrap();
    let (_, message, sig) = fixture();
    let key = signing_key.verifying_key().to_encoded_point(false).as_bytes().to_vec();
    assert!(ecdsa_verify(&key, &message, &sig).is_ok());
}

#[test]
fn altered_message_fails_verification() {
    let (key, mut message, sig) = fixture();
    message[0] = 1;
    assert_eq!(ecdsa_verify(&key, &message, &sig), Err(EcdsaError::VerificationFailed));
}

#[test]
fn bad_public_key_is_rejected() {
    let (_, message, sig) = fixture();
    assert_eq!(ecdsa_verify(&[4u8; 33], &message, &sig), Err(EcdsaError::InvalidPublicKey));
    assert_eq!(ecdsa_verify(&[], &message, &sig), Err(EcdsaError::InvalidPublicKey));
}

#[test]
fn bad_signature_is_rejected() {
    let (key, message, sig) = fixture();
    assert_eq!(ecdsa_verify(&key, &message, &[0u8; 64]), Err(EcdsaError::InvalidSignature));
    assert_eq!(ecdsa_verify(&key, &message, &sig[..63]), Err(EcdsaError::InvalidSignature));
    assert_eq!(ecdsa_verify(&key, &message, &[0xffu8; 64]), Err(EcdsaError::InvalidSignature));
    // signature errors come before key errors
    assert_eq!(ecdsa_verify(&[], &message, &[0u8; 64]), Err(EcdsaError::InvalidSignature));
}

#[test]
fn bench_input_passes_verification() {
    let secret = [7u8; 32];
    let (key, message, sig) = mllib::ecdsa::ecdsa_bench_input(&secret).unwrap();
    let signing_key = SigningKey::from_slice(&secret).unwrap();
    assert_eq!(key, signing_key.verifying_key().to_encoded_point(true).as_bytes().to_vec());
    assert_eq!(message, vec![0u8; 1024]);
    let expected: Signature = signing_key.sign(&message);
    assert_eq!(sig, expected.to_bytes().to_vec());
    assert_eq!(ecdsa_verify(&key, &message, &sig), Ok((key.clone(), message.clone())));
}

#[test]
fn bench_input_rejects_bad_secrets() {
    assert_eq!(mllib::ecdsa::ecdsa_bench_input(&[0u8; 32]), Err(EcdsaError::InvalidSecretKey));
    assert_eq!(mllib::ecdsa::ecdsa_bench_input(&[1u8; 23]), Err(EcdsaError::InvalidSecretKey));
    assert_eq!(mllib::ecdsa::ecdsa_bench_input(&[0xffu8; 32]), Err(EcdsaError::InvalidSecretKey));
    assert!(mllib::ecdsa::ecdsa_bench_input(&[1u8; 24]).is_ok());
}
