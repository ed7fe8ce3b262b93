use myboot::sign::{compute_id, sha1_hash, sha256_hash, sign_boot_image, signature_block, verify_boot_image, SignError};

fn hex(b: &[u8]) -> String {
    b.iter().map(|x| format!("{:02x}", x)).collect()
}

#[test]
fn sha1_of_abc() {
    assert_eq!(hex(&sha1_hash(b"abc")), "a9993e364706816aba3e25717850c26c9cd0d89d");
}

#[test]
fn sha256_of_abc() {
    assert_eq!(hex(&sha256_hash(b"abc")), "ba7816bf8f01cfea414140de5dae2223b00361a396177a9cb410ff61f20015ad");
}

#[test]
fn id_digests_parts_and_sizes() {
    let id = compute_id(b"k", 1, b"rr", 2, b"", 0, b"e", 0, None, 0, Some(b"d"), 1, true);
    let mut msg = Vec::new();
    msg.extend_from_slice(b"k");
    msg.extend_from_slice(&1u32.to_le_bytes());
    msg.extend_from_slice(b"rr");
    msg.extend_from_slice(&2u32.to_le_bytes());
    msg.extend_from_slice(&0u32.to_le_bytes());
    msg.extend_from_slice(b"d");
    msg.extend_from_slice(&1u32.to_le_bytes());
    assert_eq!(id, sha1_hash(&msg).to_vec());
    let id2 = compute_id(b"k", 1, b"rr", 2, b"", 0, b"e", 5, Some(b"x"), 3, None, 0, false);
    let mut msg2 = Vec::new();
    msg2.extend_from_slice(b"k");
    msg2.extend_from_slice(&1u32.to_le_bytes());
    msg2.extend_from_slice(b"rr");
    msg2.extend_from_slice(&2u32.to_le_bytes());
    msg2.extend_from_slice(&0u32.to_le_bytes());
    msg2.extend_from_slice(b"e");
    msg2.extend_from_slice(&5u32.to_le_bytes());
    msg2.extend_from_slice(b"x");
    msg2.extend_from_slice(&3u32.to_le_bytes());
    assert_eq!(id2, sha256_hash(&msg2).to_vec());
}

#[test]
fn signature_block_layout() {
    let b = signature_block(b"xy");
    assert_eq!(b.len(), 32 * 1024);
    assert_eq!(&b[..5], b"Brsgn");
    assert_eq!(&b[5..9], &[2, 0, 0, 0]);
    assert_eq!(&b[9..11], b"xy");
    assert!(b[11..].iter().all(|&x| x == 0));
}

#[test]
fn signed_payload_verifies() {
    let mut payload = b"payload".to_vec();
    assert!(!verify_boot_image(&payload));
    payload.extend_from_slice(&signature_block(b"sig"));
    assert!(verify_boot_image(&payload));
    assert!(!verify_boot_image(&payload[1..payload.len() - 1]));
}

#[test]
fn sign_rejects_bad_key() {
    assert_eq!(sign_boot_image(b"payload", b"not a key"), Err(SignError::BadKey));
}

#[test]
fn sign_with_generated_key() {
    let rng = ring::rand::SystemRandom::new();
    let pk8 = ring::signature::EcdsaKeyPair::generate_pkcs8(
        &ring::signature::ECDSA_P256_SHA256_FIXED_SIGNING,
        &rng,
    )
    .unwrap();
    let block = sign_boot_image(b"payload", pk8.as_ref()).unwrap();
    assert_eq!(block.len(), 32 * 1024);
    assert_eq!(&block[..5], b"Brsgn");
    assert_eq!(&block[5..9], &[64, 0, 0, 0]);
    let mut signed = b"payload".to_vec();
    signed.extend_from_slice(&block);
    assert!(verify_boot_image(&signed));
    let key = ring::signature::EcdsaKeyPair::from_pkcs8(
        &ring::signature::ECDSA_P256_SHA256_FIXED_SIGNING,
        pk8.as_ref(),
        &rng,
    )
    .unwrap();
    let public = ring::signature::UnparsedPublicKey::new(
        &ring::signature::ECDSA_P256_SHA256_FIXED,
        ring::signature::KeyPair::public_key(&key).as_ref().to_vec(),
    );
    assert!(public.verify(b"payload", &block[9..73]).is_ok());
    assert!(public.verify(b"other payload", &block[9..73]).is_err());
    assert!(block[73..].iter().all(|&x| x == 0));
}
