use nocoin::errors::NodeError;
use nocoin::rsa_verification::{encode_message, generate_key, verify_message, RSA_MESSAGE_LEN};

// Sign/verify round-trip: for any keypair and any payload within the
// primitive's size limit, a signature produced with the private key
// verifies under the matching public key.
#[test]
fn sign_verify_round_trip() {
    let (priv_key, pub_key) = generate_key().unwrap();
    let payloads: Vec<Vec<u8>> = vec![
        Vec::new(),
        b"a short message".to_vec(),
        vec![0xAB; RSA_MESSAGE_LEN],
    ];
    for payload in payloads {
        let signature = encode_message(&payload, &priv_key).unwrap();
        let verified = verify_message(&payload, signature.0.clone(), &pub_key);
        assert!(verified.is_ok(), "round trip failed for {} bytes", payload.len());
        assert_eq!(verified.unwrap().0, signature.0);
    }
}

#[test]
fn oversized_payload_is_rejected() {
    let (priv_key, _) = generate_key().unwrap();
    let payload = vec![1u8; RSA_MESSAGE_LEN + 1];
    assert_eq!(encode_message(&payload, &priv_key).unwrap_err(), NodeError::MalformedInput);
}

#[test]
fn tampered_message_fails_verification() {
    let (priv_key, pub_key) = generate_key().unwrap();
    let payload = b"pay 5 coins to node 8101".to_vec();
    let signature = encode_message(&payload, &priv_key).unwrap();
    let other = b"pay 9 coins to node 4242".to_vec();
    assert_eq!(
        verify_message(&other, signature.0, &pub_key).unwrap_err(),
        NodeError::BadSignature
    );
}

#[test]
fn foreign_key_fails_verification() {
    let (priv_key, _) = generate_key().unwrap();
    let (_, other_pub) = generate_key().unwrap();
    let payload = b"hello".to_vec();
    let signature = encode_message(&payload, &priv_key).unwrap();
    assert_eq!(
        verify_message(&payload, signature.0, &other_pub).unwrap_err(),
        NodeError::BadSignature
    );
}
