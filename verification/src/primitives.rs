//! The calls into the cryptography crates and into `std` that the verified
//! code rests on.  Nothing here is proved: each item's contract restates
//! what the called function's source or documentation says of it.

use vstd::prelude::*;
use vstd::utf8::{decode_utf8, valid_utf8};

use chacha20poly1305::aead::{Aead, KeyInit};
use chacha20poly1305::{XChaCha20Poly1305, XNonce};
use hkdf::Hkdf;
use rand_core::{OsRng, RngCore};
use sha2::Sha256;
use x25519_dalek::{PublicKey, StaticSecret};

verus! {

/// The X25519 public key (the clamped scalar times the base point) of a
/// 32-byte secret.
pub uninterp spec fn x25519_public_key_of(secret: Seq<u8>) -> Seq<u8>;

/// The X25519 shared secret of a 32-byte secret and a peer's 32-byte
/// public key.
pub uninterp spec fn x25519_shared_of(secret: Seq<u8>, peer_public: Seq<u8>) -> Seq<u8>;

/// HKDF-SHA256 with no salt, expanded to 32 bytes with the given info.
pub uninterp spec fn hkdf_sha256_32_of(ikm: Seq<u8>, info: Seq<u8>) -> Seq<u8>;

/// XChaCha20-Poly1305 encryption with empty associated data: ciphertext
/// followed by the 16-byte tag.
pub uninterp spec fn xchacha_seal_of(key: Seq<u8>, nonce: Seq<u8>, plaintext: Seq<u8>) -> Seq<u8>;

/// XChaCha20-Poly1305 decryption with empty associated data; `None` when
/// the tag does not authenticate.
pub uninterp spec fn xchacha_open_of(key: Seq<u8>, nonce: Seq<u8>, ciphertext: Seq<u8>) -> Option<Seq<u8>>;

/// The largest plaintext the cipher accepts is below 2^32 - 1 blocks of
/// 64 bytes.
pub open spec fn fits_cipher(len: nat) -> bool {
    len / 64 < 0xffff_ffff
}

/// A fresh X25519 secret from the operating system's generator
/// (`StaticSecret::random_from_rng(OsRng)`, then `to_bytes`).  The bytes are
/// random, so nothing is claimed of them; `OsRng` panics when the operating
/// system cannot supply randomness, which no contract can rule out.
#[verifier::external_body]
pub(crate) fn random_secret() -> (res: [u8; 32]) {
    StaticSecret::random_from_rng(OsRng).to_bytes()
}

/// `PublicKey::from(&StaticSecret::from(secret))`: the public key of the
/// secret, named `x25519_public_key_of`.
#[verifier::external_body]
pub(crate) fn x25519_public_key(secret: &[u8; 32]) -> (res: [u8; 32])
    ensures
        res@ == x25519_public_key_of(secret@),
{
    PublicKey::from(&StaticSecret::from(*secret)).to_bytes()
}

/// `StaticSecret::diffie_hellman`: the shared secret, named
/// `x25519_shared_of`.  As x25519-dalek documents, two parties that each use
/// their own secret and the other's public key reach the same shared secret.
#[verifier::external_body]
pub(crate) fn x25519_diffie_hellman(secret: &[u8; 32], peer_public: &[u8; 32]) -> (res: [u8; 32])
    ensures
        res@ == x25519_shared_of(secret@, peer_public@),
        forall|other: Seq<u8>|
            other.len() == 32 && peer_public@ == #[trigger] x25519_public_key_of(other) ==> res@
                == x25519_shared_of(other, x25519_public_key_of(secret@)),
{
    StaticSecret::from(*secret).diffie_hellman(&PublicKey::from(*peer_public)).to_bytes()
}

/// `Hkdf::<Sha256>::new(None, ikm)` then `expand(info, 32 bytes)`, named
/// `hkdf_sha256_32_of`.  The crate's `expand` only refuses outputs longer
/// than 255 hash lengths, so 32 bytes always succeed.
#[verifier::external_body]
pub(crate) fn hkdf_sha256_32(ikm: &[u8; 32], info: &[u8]) -> (res: Option<[u8; 32]>)
    ensures
        res is Some,
        res matches Some(k) ==> k@ == hkdf_sha256_32_of(ikm@, info@),
{
    let mut okm = [0u8; 32];
    match Hkdf::<Sha256>::new(None, ikm).expand(info, &mut okm) {
        Ok(()) => Some(okm),
        Err(_) => None,
    }
}

/// `XChaCha20Poly1305::encrypt` with empty associated data, named
/// `xchacha_seal_of`.  The crate refuses a plaintext of 2^32 - 1 blocks of
/// 64 bytes or more and otherwise appends the 16-byte tag.
#[verifier::external_body]
pub(crate) fn xchacha_seal(key: &[u8; 32], nonce: &[u8; 24], plaintext: &[u8]) -> (res: Option<Vec<u8>>)
    ensures
        res is Some <==> fits_cipher(plaintext@.len()),
        res matches Some(c) ==> c@ == xchacha_seal_of(key@, nonce@, plaintext@) && c@.len()
            == plaintext@.len() + 16,
{
    XChaCha20Poly1305::new(chacha20poly1305::Key::from_slice(key)).encrypt(
        XNonce::from_slice(nonce),
        plaintext,
    ).ok()
}

/// `XChaCha20Poly1305::decrypt` with empty associated data, named
/// `xchacha_open_of`.  As for any AEAD, decrypting what was encrypted under
/// the same key and nonce gives the plaintext back.
#[verifier::external_body]
pub(crate) fn xchacha_open(key: &[u8; 32], nonce: &[u8; 24], ciphertext: &[u8]) -> (res: Option<Vec<u8>>)
    ensures
        res matches Some(p) ==> xchacha_open_of(key@, nonce@, ciphertext@) == Some(p@),
        res is None ==> xchacha_open_of(key@, nonce@, ciphertext@) is None,
        forall|p: Seq<u8>|
            fits_cipher(p.len()) && ciphertext@ == #[trigger] xchacha_seal_of(key@, nonce@, p)
                ==> res is Some && res.unwrap()@ == p,
{
    XChaCha20Poly1305::new(chacha20poly1305::Key::from_slice(key)).decrypt(
        XNonce::from_slice(nonce),
        ciphertext,
    ).ok()
}

/// 24 random bytes from the operating system (`OsRng::fill_bytes`).  The
/// bytes are random, so nothing is claimed of them; `OsRng` panics when
/// the operating system cannot supply randomness.
#[verifier::external_body]
pub fn random_nonce() -> (res: [u8; 24]) {
    let mut nonce = [0u8; 24];
    OsRng.fill_bytes(&mut nonce);
    nonce
}

/// `String::from_utf8`: the text the bytes encode, when they are UTF-8.
#[verifier::external_body]
pub(crate) fn utf8_to_string(bytes: Vec<u8>) -> (res: Option<String>)
    ensures
        res is Some <==> valid_utf8(bytes@),
        res matches Some(s) ==> s@ == decode_utf8(bytes@),
{
    String::from_utf8(bytes).ok()
}

} // verus!
