//! Digests of image parts and the boot signature block.
use vstd::prelude::*;
use crate::bytes::{append_slice, bytes_match_at, le32_bytes, spec_le32_bytes, spec_starts_with_at};
use crate::constants::{boot_signature_magic, spec_boot_signature_magic};

verus! {

/// The length of a SHA-1 digest.
pub const SHA1_DIGEST_SIZE: usize = 20;
/// The length of a SHA-256 digest.
pub const SHA256_DIGEST_SIZE: usize = 32;
/// The length of the signature block at the end of a signed image.
pub const BOOT_SIGNATURE_SIZE: usize = 32 * 1024;
/// The longest input that the digests of `ring` take, in bytes.
pub const MAX_DIGEST_INPUT: u64 = 0x1fff_ffff_ffff_ffff;

/// The SHA-1 digest of `data`, as `ring::digest::digest` computes it.
pub uninterp spec fn sha1_of(data: Seq<u8>) -> Seq<u8>;

/// The SHA-256 digest of `data`, as `ring::digest::digest` computes it.
pub uninterp spec fn sha256_of(data: Seq<u8>) -> Seq<u8>;

/// `ring::digest::digest` with SHA-1; the digest is 20 bytes long.
#[verifier::external_body]
pub fn sha1_hash(data: &[u8]) -> (r: [u8; 20])
    requires
        data@.len() <= MAX_DIGEST_INPUT,
    ensures
        r@ == sha1_of(data@),
{
    let d = ring::digest::digest(&ring::digest::SHA1_FOR_LEGACY_USE_ONLY, data);
    let mut out = [0u8; 20];
    out.copy_from_slice(d.as_ref());
    out
}

/// `ring::digest::digest` with SHA-256; the digest is 32 bytes long.
#[verifier::external_body]
pub fn sha256_hash(data: &[u8]) -> (r: [u8; 32])
    requires
        data@.len() <= MAX_DIGEST_INPUT,
    ensures
        r@ == sha256_of(data@),
{
    let d = ring::digest::digest(&ring::digest::SHA256, data);
    let mut out = [0u8; 32];
    out.copy_from_slice(d.as_ref());
    out
}

/// `data` followed by `size` as four little-endian bytes.
pub open spec fn spec_part(data: Seq<u8>, size: u32) -> Seq<u8> {
    data + spec_le32_bytes(size)
}

/// The bytes that the id of a boot image is the digest of: kernel, ramdisk
/// and second stage each with its size; the extra part only where its size is
/// not zero; the recovery DTBO and the DTB only where they are given.
pub open spec fn spec_id_message(
    kernel: Seq<u8>,
    kernel_size: u32,
    ramdisk: Seq<u8>,
    ramdisk_size: u32,
    second: Seq<u8>,
    second_size: u32,
    extra: Seq<u8>,
    extra_size: u32,
    recovery_dtbo: Option<Seq<u8>>,
    recovery_dtbo_size: u32,
    dtb: Option<Seq<u8>>,
    dtb_size: u32,
) -> Seq<u8> {
    spec_part(kernel, kernel_size) + spec_part(ramdisk, ramdisk_size) + spec_part(second, second_size)
        + (if extra_size > 0 {
        spec_part(extra, extra_size)
    } else {
        Seq::empty()
    }) + match recovery_dtbo {
        Some(d) => spec_part(d, recovery_dtbo_size),
        None => Seq::empty(),
    } + match dtb {
        Some(d) => spec_part(d, dtb_size),
        None => Seq::empty(),
    }
}

fn push_part(out: &mut Vec<u8>, data: &[u8], size: u32)
    ensures
        final(out)@ == old(out)@ + spec_part(data@, size),
{
    let ghost before = out@;
    append_slice(out, data);
    let b = le32_bytes(size);
    append_slice(out, b.as_slice());
    assert(out@ =~= before + spec_part(data@, size));
}

/// The bytes of `a` in a vector.
fn array_to_vec(a: &[u8]) -> (r: Vec<u8>)
    ensures
        r@ == a@,
{
    crate::bytes::slice_to_vec(a)
}

/// The id of a boot image: the SHA-1 or SHA-256 digest of its parts and sizes.
pub fn compute_id(
    kernel: &[u8],
    kernel_size: u32,
    ramdisk: &[u8],
    ramdisk_size: u32,
    second: &[u8],
    second_size: u32,
    extra: &[u8],
    extra_size: u32,
    recovery_dtbo_data: Option<&[u8]>,
    recovery_dtbo_size: u32,
    dtb_data: Option<&[u8]>,
    dtb_size: u32,
    use_sha1: bool,
) -> (r: Vec<u8>)
    requires
        kernel@.len() + ramdisk@.len() + second@.len() + extra@.len() + 24 + match recovery_dtbo_data {
            Some(d) => d@.len(),
            None => 0,
        } + match dtb_data {
            Some(d) => d@.len(),
            None => 0,
        } <= MAX_DIGEST_INPUT,
    ensures
        ({
            let msg = spec_id_message(
                kernel@,
                kernel_size,
                ramdisk@,
                ramdisk_size,
                second@,
                second_size,
                extra@,
                extra_size,
                match recovery_dtbo_data {
                    Some(d) => Some(d@),
                    None => None,
                },
                recovery_dtbo_size,
                match dtb_data {
                    Some(d) => Some(d@),
                    None => None,
                },
                dtb_size,
            );
            r@ == if use_sha1 {
                sha1_of(msg)
            } else {
                sha256_of(msg)
            }
        }),
        r@.len() == if use_sha1 {
            SHA1_DIGEST_SIZE
        } else {
            SHA256_DIGEST_SIZE
        },
{
    let mut msg: Vec<u8> = Vec::new();
    push_part(&mut msg, kernel, kernel_size);
    push_part(&mut msg, ramdisk, ramdisk_size);
    push_part(&mut msg, second, second_size);
    let ghost m3 = msg@;
    if extra_size > 0 {
        push_part(&mut msg, extra, extra_size);
    } else {
        assert(msg@ =~= m3 + Seq::<u8>::empty());
    }
    let ghost m4 = msg@;
    match recovery_dtbo_data {
        Some(d) => push_part(&mut msg, d, recovery_dtbo_size),
        None => {
            assert(msg@ =~= m4 + Seq::<u8>::empty());
        },
    }
    let ghost m5 = msg@;
    match dtb_data {
        Some(d) => push_part(&mut msg, d, dtb_size),
        None => {
            assert(msg@ =~= m5 + Seq::<u8>::empty());
        },
    }
    if use_sha1 {
        let d = sha1_hash(msg.as_slice());
        array_to_vec(&d)
    } else {
        let d = sha256_hash(msg.as_slice());
        array_to_vec(&d)
    }
}

/// The signature block for the signature `sig`: the magic, the length of the
/// signature as four little-endian bytes, the signature, then zeros up to
/// the block size.
pub open spec fn spec_signature_block(sig: Seq<u8>) -> Seq<u8> {
    let head = spec_boot_signature_magic() + spec_le32_bytes(sig.len() as u32) + sig;
    if head.len() >= BOOT_SIGNATURE_SIZE {
        head
    } else {
        head + Seq::new((BOOT_SIGNATURE_SIZE - head.len()) as nat, |i: int| 0u8)
    }
}

/// The signature block that carries `sig`.
pub fn signature_block(sig: &[u8]) -> (r: Vec<u8>)
    ensures
        r@ == spec_signature_block(sig@),
{
    let mut b: Vec<u8> = Vec::new();
    append_slice(&mut b, boot_signature_magic());
    let l = le32_bytes(sig.len() as u32);
    append_slice(&mut b, l.as_slice());
    append_slice(&mut b, sig);
    let ghost head = b@;
    assert(head =~= spec_boot_signature_magic() + spec_le32_bytes(sig@.len() as u32) + sig@);
    if b.len() < BOOT_SIGNATURE_SIZE {
        let pad = BOOT_SIGNATURE_SIZE - b.len();
        let z = crate::bytes::zeros(pad);
        append_slice(&mut b, z.as_slice());
    }
    b
}

#[verifier::external_type_specification]
#[verifier::external_body]
pub struct ExSystemRandom(ring::rand::SystemRandom);

/// `ring::rand::SystemRandom::new`: the system's random number source.
#[verifier::external_body]
fn system_random() -> (r: ring::rand::SystemRandom) {
    ring::rand::SystemRandom::new()
}

/// Why an image could not be signed.
#[derive(Debug, Clone, Copy, PartialEq, Eq, Structural)]
pub enum SignError {
    /// The key is not a PKCS#8 P-256 key.
    BadKey,
    /// Signing failed.
    SigningFailed,
}

/// The length of an ECDSA P-256 signature in the fixed format: the two
/// 32-byte scalars `r` and `s`.
pub const P256_SIGNATURE_LEN: usize = 64;

/// The public key of the P-256 private key in the PKCS#8 document `pk8`.
pub uninterp spec fn p256_public_key(pk8: Seq<u8>) -> Seq<u8>;

/// Whether ECDSA P-256 with SHA-256, fixed signature format
/// (`ring::signature::ECDSA_P256_SHA256_FIXED`), accepts `sig` as a signature
/// of `msg` under the public key `pk`.
pub uninterp spec fn p256_verifies(pk: Seq<u8>, msg: Seq<u8>, sig: Seq<u8>) -> bool;

/// `ring::signature::EcdsaKeyPair::from_pkcs8` with
/// `ECDSA_P256_SHA256_FIXED_SIGNING`, then `EcdsaKeyPair::sign` of `msg` with
/// that key, the signature taken as its bytes. Both calls draw on `rng`, so
/// nothing is claimed of which keys are taken or when signing succeeds; a
/// signature that comes back is 64 bytes long and verifies for `msg` under
/// the key's public key. A rejected key is `BadKey`, a failed signing
/// `SigningFailed`.
#[verifier::external_body]
fn p256_sign(pk8: &[u8], rng: &ring::rand::SystemRandom, msg: &[u8]) -> (r: Result<Vec<u8>, SignError>)
    ensures
        r matches Ok(sig) ==> sig@.len() == P256_SIGNATURE_LEN && p256_verifies(p256_public_key(pk8@), msg@, sig@),
        r matches Err(e) ==> (e == SignError::BadKey || e == SignError::SigningFailed),
{
    match ring::signature::EcdsaKeyPair::from_pkcs8(&ring::signature::ECDSA_P256_SHA256_FIXED_SIGNING, pk8, rng) {
        Err(_) => Err(SignError::BadKey),
        Ok(key) => match key.sign(rng, msg) {
            Ok(sig) => Ok(sig.as_ref().to_vec()),
            Err(_) => Err(SignError::SigningFailed),
        },
    }
}

/// Signs `payload` with the PKCS#8 key `pk8_bytes` and gives the signature
/// block, of `BOOT_SIGNATURE_SIZE` bytes, which carries a P-256 signature of
/// the payload under the key and marks any data it follows as signed. The
/// signature itself depends on a random nonce.
pub fn sign_boot_image(payload: &[u8], pk8_bytes: &[u8]) -> (r: Result<Vec<u8>, SignError>)
    ensures
        r matches Ok(b) ==> {
            &&& b@.len() == BOOT_SIGNATURE_SIZE
            &&& exists|sig: Seq<u8>|
                #![trigger spec_signature_block(sig)]
                sig.len() == P256_SIGNATURE_LEN && b@ == spec_signature_block(sig) && p256_verifies(
                    p256_public_key(pk8_bytes@),
                    payload@,
                    sig,
                )
            &&& forall|q: Seq<u8>| #[trigger] spec_verify_boot_image(q + b@)
        },
{
    let rng = system_random();
    let bytes = match p256_sign(pk8_bytes, &rng, payload) {
        Ok(s) => s,
        Err(e) => return Err(e),
    };
    let b = signature_block(bytes.as_slice());
    assert(b@ == spec_signature_block(bytes@));
    proof {
        law_signed_payload_verifies(Seq::empty(), bytes@);
        assert forall|q: Seq<u8>| #[trigger] spec_verify_boot_image(q + b@) by {
            law_signed_payload_verifies(q, bytes@);
        }
    }
    Ok(b)
}

/// Whether `payload` ends with a signature block, told by its magic.
pub open spec fn spec_verify_boot_image(payload: Seq<u8>) -> bool {
    payload.len() >= BOOT_SIGNATURE_SIZE && spec_starts_with_at(
        payload,
        payload.len() - BOOT_SIGNATURE_SIZE,
        spec_boot_signature_magic(),
    )
}

/// Whether `payload` ends with a signature block.
pub fn verify_boot_image(payload: &[u8]) -> (r: bool)
    ensures
        r == spec_verify_boot_image(payload@),
{
    if payload.len() < BOOT_SIGNATURE_SIZE {
        return false;
    }
    let sig_start = payload.len() - BOOT_SIGNATURE_SIZE;
    bytes_match_at(payload, sig_start, boot_signature_magic())
}

/// A payload followed by a signature block is seen as signed.
pub proof fn law_signed_payload_verifies(payload: Seq<u8>, sig: Seq<u8>)
    requires
        sig.len() + 9 <= BOOT_SIGNATURE_SIZE,
    ensures
        spec_signature_block(sig).len() == BOOT_SIGNATURE_SIZE,
        spec_verify_boot_image(payload + spec_signature_block(sig)),
{
    let b = spec_signature_block(sig);
    let whole = payload + b;
    assert(whole.subrange(payload.len() as int, payload.len() + 5int) =~= spec_boot_signature_magic());
}

} // verus!
