//! SHA-256 hashing and X25519 key pairs.

use vstd::prelude::*;
use crate::protocol::peer_id::{PeerId, PeerIdError, is_endpoint_key};

verus! {

/// The SHA-256 digest of a byte string.
pub uninterp spec fn sha256_digest(data: Seq<u8>) -> Seq<u8>;

/// The X25519 public key that belongs to a 32-byte secret.
pub uninterp spec fn x25519_public_key(secret: Seq<u8>) -> Seq<u8>;

/// Computes the SHA-256 hash of the input with `sha2::Sha256::digest`.
/// Trusted: the 32 bytes returned are the named digest of the input.
#[verifier::external_body]
pub fn sha256(data: &[u8]) -> (r: [u8; 32])
    ensures
        r@ == sha256_digest(data@),
{
    <sha2::Sha256 as sha2::Digest>::digest(data).into()
}

/// Derives the X25519 public key of a secret with `x25519_dalek::StaticSecret`
/// and `x25519_dalek::PublicKey::from`. Trusted: the result is the named public key of the secret.
#[verifier::external_body]
fn x25519_public_of(secret: &[u8; 32]) -> (r: [u8; 32])
    ensures
        r@ == x25519_public_key(secret@),
{
    x25519_dalek::PublicKey::from(&x25519_dalek::StaticSecret::from(*secret)).to_bytes()
}

/// 32 random bytes from the operating system (`rand::rngs::OsRng`).
/// Nothing is said of the bytes.
#[verifier::external_body]
fn os_random_bytes() -> (r: [u8; 32]) {
    let mut bytes = [0u8; 32];
    rand::RngCore::fill_bytes(&mut rand::rngs::OsRng, &mut bytes);
    bytes
}

/// The peer id bytes that belong to a secret: the SHA-256 of its X25519 public key.
pub open spec fn peer_id_bytes_of_secret(secret: Seq<u8>) -> Seq<u8> {
    sha256_digest(x25519_public_key(secret))
}

/// X25519 key pair for end-to-end encryption.
pub struct KeyPair {
    secret: [u8; 32],
    public: [u8; 32],
}

impl View for KeyPair {
    /// A key pair is determined by its secret.
    type V = Seq<u8>;

    closed spec fn view(&self) -> Seq<u8> {
        self.secret@
    }
}

impl KeyPair {
    #[verifier::type_invariant]
    spec fn consistent(self) -> bool {
        self.public@ == x25519_public_key(self.secret@)
    }

    /// Generates a new random key pair.
    pub fn generate() -> (r: Self)
        ensures
            r@.len() == 32,
    {
        Self::from_secret_bytes(os_random_bytes())
    }

    /// The 32-byte public key.
    pub fn public_key_bytes(&self) -> (r: [u8; 32])
        ensures
            r@ == x25519_public_key(self@),
    {
        proof {
            use_type_invariant(self);
        }
        self.public
    }

    /// Derives the peer id: the SHA-256 of the public key, which must be a valid endpoint key.
    pub fn peer_id(&self) -> (r: PeerId)
        requires
            is_endpoint_key(peer_id_bytes_of_secret(self@)),
        ensures
            r@ == peer_id_bytes_of_secret(self@),
    {
        let public = self.public_key_bytes();
        let digest = sha256(&public);
        assert(digest@.subrange(0, 32) =~= digest@);
        PeerId::from_public_key(&digest)
    }

    /// Derives the peer id, checking that the SHA-256 of the public key is a
    /// valid endpoint key: `InvalidBytes` where it is not.
    pub fn try_peer_id(&self) -> (r: Result<PeerId, PeerIdError>)
        ensures
            r is Ok <==> is_endpoint_key(peer_id_bytes_of_secret(self@)),
            r matches Ok(p) ==> p@ == peer_id_bytes_of_secret(self@),
            r matches Err(e) ==> e == PeerIdError::InvalidBytes,
    {
        let digest = sha256(&self.public_key_bytes());
        PeerId::from_bytes(digest)
    }

    /// The raw secret key bytes (for serialization).
    pub fn secret_bytes(&self) -> (r: [u8; 32])
        ensures
            r@ == self@,
    {
        self.secret
    }

    /// Rebuilds a key pair from saved secret bytes.
    pub fn from_secret_bytes(bytes: [u8; 32]) -> (r: Self)
        ensures
            r@ == bytes@,
    {
        let public = x25519_public_of(&bytes);
        KeyPair { secret: bytes, public }
    }
}

} // verus!
