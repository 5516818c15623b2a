//! Content digests, hex text and Ed25519 signatures, as used by every signed contract.
//!
//! SHA-256 comes from `sha2`, hex text from `hex`, signatures from `ed25519-dalek`, authenticated
//! encryption from `aes-gcm` and key material from `rand`; each call stands behind one trusted
//! item below.

use crate::text::{all_hex, utf8};
use aes_gcm::aead::Aead;
use aes_gcm::{Aes256Gcm, KeyInit};
use ed25519_dalek::{Signature, Signer, SigningKey, Verifier, VerifyingKey};
use rand::rngs::OsRng;
use rand::RngCore;
use sha2::{Digest, Sha256};
use vstd::prelude::*;

verus! {

/// The SHA-256 digest of a byte string, as `sha2::Sha256` computes it.
pub uninterp spec fn sha256_of(data: Seq<u8>) -> Seq<u8>;

/// The Ed25519 public key that `ed25519-dalek` derives from a 32-byte secret key.
pub uninterp spec fn ed25519_public_key_of(secret: Seq<u8>) -> Seq<u8>;

/// The Ed25519 signature that `ed25519-dalek` produces for a message under a secret key.
pub uninterp spec fn ed25519_signature_of(secret: Seq<u8>, message: Seq<u8>) -> Seq<u8>;

/// Whether `ed25519-dalek` accepts a signature on a message under an encoded public key.
pub uninterp spec fn ed25519_accepts(public_key: Seq<u8>, message: Seq<u8>, signature: Seq<u8>) -> bool;

/// The lowercase hex digit of a value below 16.
pub open spec fn hex_digit(v: int) -> char {
    if v < 10 {
        (48 + v) as char
    } else {
        (87 + v) as char
    }
}

/// `hex::encode`: two lowercase hex digits per byte, high nibble first.
pub open spec fn hex_lower(b: Seq<u8>) -> Seq<char>
    decreases b.len(),
{
    if b.len() == 0 {
        Seq::empty()
    } else {
        seq![hex_digit(b[0] as int / 16), hex_digit(b[0] as int % 16)] + hex_lower(b.skip(1))
    }
}

/// The value of one hex digit of either case.
pub open spec fn hex_value(c: u8) -> int {
    if 48 <= c <= 57 {
        c - 48
    } else if 97 <= c <= 102 {
        c - 87
    } else {
        c - 55
    }
}

/// `hex::decode`: an even number of hex digits of either case, two per byte, else an error.
pub open spec fn hex_decode_spec(s: Seq<u8>) -> Option<Seq<u8>> {
    if s.len() % 2 != 0 || !all_hex(s) {
        None
    } else {
        Some(Seq::new((s.len() / 2) as nat, |i: int| (hex_value(s[2 * i]) * 16 + hex_value(s[2 * i + 1])) as u8))
    }
}

/// SHA-256 of `data`, by `sha2::Sha256::digest`. The contract names the digest and states its
/// documented length of 32 bytes; nothing else about the hash function is stated.
#[verifier::external_body]
pub fn sha256(data: &[u8]) -> (r: Vec<u8>)
    ensures
        r@ == sha256_of(data@),
        r@.len() == 32,
{
    Sha256::digest(data).to_vec()
}

/// Lowercase hex text of `data`, by `hex::encode`; the contract states the encoding exactly.
#[verifier::external_body]
pub fn hex_encode(data: &[u8]) -> (r: String)
    ensures
        r@ == hex_lower(data@),
{
    hex::encode(data)
}

/// The bytes that hex text denotes, by `hex::decode`, or `None` where it reports an odd length or
/// a non-hex character; the contract states the decoding exactly.
#[verifier::external_body]
pub fn hex_decode(text: &str) -> (r: Option<Vec<u8>>)
    ensures
        match r {
            Some(v) => hex_decode_spec(utf8(text@)) == Some(v@),
            None => hex_decode_spec(utf8(text@)) is None,
        },
{
    hex::decode(text).ok()
}

/// The public key of a secret key, by `SigningKey::from_bytes(..).verifying_key()`. The key is
/// named; that it is 32 bytes long follows from its type.
#[verifier::external_body]
pub fn ed25519_public_key(secret: &[u8; 32]) -> (r: [u8; 32])
    ensures
        r@ == ed25519_public_key_of(secret@),
{
    SigningKey::from_bytes(secret).verifying_key().to_bytes()
}

/// The signature of `message` under `secret`, by `SigningKey::sign`. Besides naming the result,
/// the contract states Ed25519's documented correctness: the matching public key accepts it.
#[verifier::external_body]
pub fn ed25519_sign(secret: &[u8; 32], message: &[u8]) -> (r: [u8; 64])
    ensures
        r@ == ed25519_signature_of(secret@, message@),
        ed25519_accepts(ed25519_public_key_of(secret@), message@, r@),
{
    SigningKey::from_bytes(secret).sign(message).to_bytes()
}

/// Whether `signature` verifies `message` under the encoded `public_key`, by
/// `VerifyingKey::from_bytes` and `VerifyingKey::verify`; a key that is not 32 bytes or not a
/// valid point, or a signature that is not 64 bytes, is rejected. Which keys and signatures
/// verify is named, not stated.
#[verifier::external_body]
pub fn ed25519_verify(public_key: &[u8], message: &[u8], signature: &[u8]) -> (r: bool)
    ensures
        r == (public_key@.len() == 32 && signature@.len() == 64 && ed25519_accepts(
            public_key@,
            message@,
            signature@,
        )),
{
    let Ok(key_bytes) = <[u8; 32]>::try_from(public_key) else { return false };
    let Ok(key) = VerifyingKey::from_bytes(&key_bytes) else { return false };
    let Ok(signature) = Signature::from_slice(signature) else { return false };
    key.verify(message, &signature).is_ok()
}

/// Thirty-two bytes from the operating system's random source, by `OsRng::fill_bytes`. Nothing
/// is promised of the bytes.
#[verifier::external_body]
pub fn random_secret() -> (r: [u8; 32]) {
    let mut bytes = [0u8; 32];
    OsRng.fill_bytes(&mut bytes);
    bytes
}

proof fn lemma_hex_lower_shape(b: Seq<u8>)
    ensures
        hex_lower(b).len() == 2 * b.len(),
        forall|i: int| 0 <= i < b.len() ==> #[trigger] hex_lower(b)[2 * i] == hex_digit(b[i] as int / 16) && hex_lower(b)[2 * i + 1] == hex_digit(b[i] as int % 16),
    decreases b.len(),
{
    if b.len() > 0 {
        lemma_hex_lower_shape(b.skip(1));
        let h = hex_lower(b);
        let t = hex_lower(b.skip(1));
        assert forall|i: int| 0 <= i < b.len() implies #[trigger] h[2 * i] == hex_digit(b[i] as int / 16) && h[2 * i + 1] == hex_digit(b[i] as int % 16) by {
            if i > 0 {
                assert(b.skip(1)[i - 1] == b[i]);
                assert(h[2 * i] == t[2 * (i - 1)]);
                assert(h[2 * i + 1] == t[2 * (i - 1) + 1]);
            }
        }
    }
}

/// Every character of lowercase hex text is a digit or one of `a` to `f`, two per byte.
pub proof fn lemma_hex_lower_digits(b: Seq<u8>)
    ensures
        hex_lower(b).len() == 2 * b.len(),
        forall|j: int| 0 <= j < hex_lower(b).len() ==> ('0' <= #[trigger] hex_lower(b)[j] <= '9' || 'a' <= hex_lower(b)[j] <= 'f'),
{
    lemma_hex_lower_shape(b);
    let h = hex_lower(b);
    assert forall|j: int| 0 <= j < h.len() implies ('0' <= #[trigger] h[j] <= '9' || 'a' <= h[j] <= 'f') by {
        let i = j / 2;
        assert(0 <= i < b.len());
        if j % 2 == 0 {
            assert(j == 2 * i);
            assert(h[2 * i] == hex_digit(b[i] as int / 16));
        } else {
            assert(j == 2 * i + 1);
            assert(h[2 * i] == hex_digit(b[i] as int / 16));
            assert(h[2 * i + 1] == hex_digit(b[i] as int % 16));
        }
    }
}

proof fn lemma_hex_digit_round_trip(v: int)
    requires
        0 <= v < 16,
    ensures
        '\0' <= hex_digit(v) <= '\u{7f}',
        hex_value(hex_digit(v) as u8) == v,
        48 <= hex_digit(v) as u8 <= 57 || 97 <= hex_digit(v) as u8 <= 102,
{
}

/// Hex text decodes back to the bytes it encodes.
pub proof fn lemma_hex_round_trip(b: Seq<u8>)
    ensures
        hex_decode_spec(utf8(hex_lower(b))) == Some(b),
        utf8(hex_lower(b)).len() == 2 * b.len(),
        crate::text::all_lower_hex(utf8(hex_lower(b))),
{
    lemma_hex_lower_shape(b);
    let h = hex_lower(b);
    assert forall|j: int| 0 <= j < h.len() implies '\0' <= #[trigger] h[j] <= '\u{7f}' by {
        let i = j / 2;
        assert(0 <= i < b.len());
        if j % 2 == 0 {
            assert(j == 2 * i);
            assert(h[2 * i] == hex_digit(b[i] as int / 16));
            lemma_hex_digit_round_trip(b[i] as int / 16);
        } else {
            assert(j == 2 * i + 1);
            assert(h[2 * i] == hex_digit(b[i] as int / 16));
            assert(h[2 * i + 1] == hex_digit(b[i] as int % 16));
            lemma_hex_digit_round_trip(b[i] as int % 16);
        }
    }
    assert(vstd::utf8::is_ascii_chars(h));
    vstd::utf8::is_ascii_chars_encode_utf8(h);
    let u = utf8(h);
    assert forall|j: int| 0 <= j < u.len() implies crate::text::is_hex_byte(#[trigger] u[j]) && crate::text::is_lower_hex_byte(u[j]) by {
        let i = j / 2;
        assert(0 <= i < b.len());
        assert(u[j] == h[j] as u8);
        if j % 2 == 0 {
            assert(j == 2 * i);
            assert(h[2 * i] == hex_digit(b[i] as int / 16));
            lemma_hex_digit_round_trip(b[i] as int / 16);
        } else {
            assert(j == 2 * i + 1);
            assert(h[2 * i] == hex_digit(b[i] as int / 16));
            assert(h[2 * i + 1] == hex_digit(b[i] as int % 16));
            lemma_hex_digit_round_trip(b[i] as int % 16);
        }
    }
    let d = hex_decode_spec(u);
    assert(d is Some);
    assert forall|i: int| 0 <= i < b.len() implies #[trigger] d->0[i] == b[i] by {
        assert(h[2 * i] == hex_digit(b[i] as int / 16));
        assert(u[2 * i] == h[2 * i] as u8);
        assert(u[2 * i + 1] == h[2 * i + 1] as u8);
        lemma_hex_digit_round_trip(b[i] as int / 16);
        lemma_hex_digit_round_trip(b[i] as int % 16);
    }
    assert(d->0 =~= b);
}

/// The largest plaintext `aes-gcm` encrypts in one message: 2^36 bytes.
pub const AES_GCM_MAX_PLAINTEXT: u64 = 68_719_476_736;

/// The AES-256-GCM ciphertext, tag included, that `aes-gcm` produces for a plaintext under a
/// 32-byte key and a 12-byte nonce.
pub uninterp spec fn aes256gcm_seal_of(key: Seq<u8>, nonce: Seq<u8>, plaintext: Seq<u8>) -> Seq<u8>;

/// The plaintext that `aes-gcm` recovers from a ciphertext under a key and nonce, or `None`
/// where the ciphertext does not authenticate.
pub uninterp spec fn aes256gcm_open_of(key: Seq<u8>, nonce: Seq<u8>, ciphertext: Seq<u8>) -> Option<Seq<u8>>;

/// Encrypt with AES-256-GCM and no associated data, by `Aead::encrypt`. `aes-gcm` refuses only
/// plaintexts beyond 2^36 bytes, which `requires` leaves out. Besides naming the ciphertext, the
/// contract states what the source shows of its length (the plaintext and a 16-byte tag) and the
/// documented correctness of the scheme: decrypting under the same key and nonce gives the
/// plaintext back.
#[verifier::external_body]
pub fn aes256gcm_seal(key: &[u8; 32], nonce: &[u8; 12], plaintext: &[u8]) -> (r: Vec<u8>)
    requires
        plaintext@.len() <= AES_GCM_MAX_PLAINTEXT,
    ensures
        r@ == aes256gcm_seal_of(key@, nonce@, plaintext@),
        r@.len() == plaintext@.len() + 16,
        aes256gcm_open_of(key@, nonce@, r@) == Some(plaintext@),
{
    match Aes256Gcm::new(key.into()).encrypt(nonce.into(), plaintext) {
        Ok(ciphertext) => ciphertext,
        Err(_) => Vec::new(),
    }
}

/// Decrypt with AES-256-GCM and no associated data, by `Aead::decrypt`: the plaintext, or `None`
/// where authentication fails. The nonce must be 12 bytes, as `GenericArray::from_slice` panics
/// otherwise. What decrypts to what is named, not stated.
#[verifier::external_body]
pub fn aes256gcm_open(key: &[u8; 32], nonce: &[u8], ciphertext: &[u8]) -> (r: Option<Vec<u8>>)
    requires
        nonce@.len() == 12,
    ensures
        match r {
            Some(p) => aes256gcm_open_of(key@, nonce@, ciphertext@) == Some(p@),
            None => aes256gcm_open_of(key@, nonce@, ciphertext@) is None,
        },
{
    Aes256Gcm::new(key.into()).decrypt(aes_gcm::Nonce::from_slice(nonce), ciphertext).ok()
}

/// Twelve bytes from the operating system's random source, by `OsRng::fill_bytes`, for a nonce.
/// Nothing is promised of the bytes.
#[verifier::external_body]
pub fn random_nonce() -> (r: [u8; 12]) {
    let mut bytes = [0u8; 12];
    OsRng.fill_bytes(&mut bytes);
    bytes
}

} // verus!
