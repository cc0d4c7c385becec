//! Key material: X25519 key pairs and the symmetric key two devices agree
//! on from one's secret key and the other's public key.

use vstd::prelude::*;
use crate::error::SpanError;
use crate::hex::{hex_panics, spec_decode_hex};
use crate::primitives::{
    hkdf_sha256_32, hkdf_sha256_32_of, random_secret, x25519_diffie_hellman, x25519_public_key,
    x25519_public_key_of, x25519_shared_of,
};

pub use crate::hex::{decode_hex, encode_hex};
pub use crate::primitives::random_nonce;

verus! {

pub const PUBLIC_KEY_BYTES: usize = 32;

pub const NONCE_BYTES: usize = 24;

pub const SHARED_KEY_BYTES: usize = 32;

/// A fresh key pair `(secret, public)`; the secret is random and the public
/// key belongs to it.
pub fn generate_keypair() -> (res: ([u8; 32], [u8; 32]))
    ensures
        res.1@ == x25519_public_key_of(res.0@),
{
    let secret = random_secret();
    let public = x25519_public_key(&secret);
    (secret, public)
}

/// The key derived from a secret key and a peer's public key bytes:
/// HKDF-SHA256 over their X25519 shared secret.
pub open spec fn spec_shared_key(secret: Seq<u8>, peer_public: Seq<u8>, info: Seq<u8>) -> Seq<u8> {
    hkdf_sha256_32_of(x25519_shared_of(secret, peer_public), info)
}

/// What `shared_key` gives for a secret key and a peer public key in hex.
pub open spec fn spec_shared_key_result(
    secret: Seq<u8>,
    peer_public_hex: Seq<char>,
    info: Seq<u8>,
) -> Result<Seq<u8>, SpanError> {
    match spec_decode_hex(peer_public_hex) {
        None => Err(SpanError::BadPeerPublicKey),
        Some(b) => if b.len() != 32 {
            Err(SpanError::BadPeerPublicKeyLength)
        } else {
            Ok(spec_shared_key(secret, b, info))
        },
    }
}

/// The symmetric key agreed with the peer whose public key is given in hex.
///
/// Two devices derive the same key: one from its secret key and the other's
/// public key, the other from its own secret key and the first one's public
/// key.
pub fn shared_key(
    private_key: &[u8; 32],
    peer_public_key_hex: &str,
    info: &[u8],
) -> (res: Result<[u8; 32], SpanError>)
    requires
        !hex_panics(peer_public_key_hex@),
    ensures
        res matches Ok(k) ==> spec_shared_key_result(private_key@, peer_public_key_hex@, info@)
            == Ok::<Seq<u8>, SpanError>(k@),
        res matches Err(e) ==> spec_shared_key_result(private_key@, peer_public_key_hex@, info@)
            == Err::<Seq<u8>, SpanError>(e),
        forall|other: Seq<u8>|
            other.len() == 32 && (#[trigger] x25519_public_key_of(other)).len() == 32
                && spec_decode_hex(peer_public_key_hex@) == Some(x25519_public_key_of(other))
                ==> spec_shared_key_result(private_key@, peer_public_key_hex@, info@) == Ok::<
                Seq<u8>,
                SpanError,
            >(spec_shared_key(other, x25519_public_key_of(private_key@), info@)),
{
    let peer_public_key_bytes = match decode_hex(peer_public_key_hex) {
        Some(b) => b,
        None => {
            return Err(SpanError::BadPeerPublicKey);
        },
    };
    if peer_public_key_bytes.len() != PUBLIC_KEY_BYTES {
        return Err(SpanError::BadPeerPublicKeyLength);
    }
    let mut peer_bytes = [0u8; 32];
    let mut i: usize = 0;
    while i < 32
        invariant
            i <= 32,
            peer_public_key_bytes@.len() == 32,
            forall|j: int| 0 <= j < i ==> peer_bytes@[j] == peer_public_key_bytes@[j],
        decreases 32 - i,
    {
        peer_bytes[i] = peer_public_key_bytes[i];
        i = i + 1;
    }
    assert(peer_bytes@ =~= peer_public_key_bytes@);
    let shared = x25519_diffie_hellman(private_key, &peer_bytes);
    match hkdf_sha256_32(&shared, info) {
        Some(k) => Ok(k),
        None => Err(SpanError::KeyDerivationFailed),
    }
}

} // verus!
