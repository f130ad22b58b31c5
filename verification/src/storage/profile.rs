//! User profile: username, private key and the peer id derived from it, and the
//! hex text in which keys are stored.

use vstd::prelude::*;
use crate::protocol::crypto::{KeyPair, peer_id_bytes_of_secret};
use crate::protocol::peer_id::{PeerId, PeerIdError, is_endpoint_key};
use crate::storage::error::StorageError;
use crate::text::{char_count, hex_decode, hex_lower, is_hex_text, str_trim, trim};

verus! {

/// Longest username, in characters.
pub const MAX_USERNAME_CHARS: usize = 32;

/// How many fresh keys are tried for a new profile before giving up.
pub const KEY_ATTEMPTS: usize = 64;

/// Text that is empty or whitespace only.
pub open spec fn is_blank(s: Seq<char>) -> bool {
    trim(s).len() == 0
}

/// Lowercase hex text of bytes with `hex::encode`.
/// Trusted: the result is two lowercase digits per byte, high nibble first, as the crate documents.
#[verifier::external_body]
fn hex_encode(bytes: &[u8; 32]) -> (r: String)
    ensures
        r@ == hex_lower(bytes@),
{
    hex::encode(bytes)
}

/// Bytes of hex text with `hex::decode`. Trusted: the text decodes exactly
/// when it has even length and only hex digits of either case, to the bytes
/// the digit pairs stand for, as the crate's source shows.
#[verifier::external_body]
fn hex_decode_text(s: &str) -> (r: Option<Vec<u8>>)
    ensures
        r is Some <==> (s@.len() % 2 == 0 && is_hex_text(s@)),
        r matches Some(v) ==> v@ == hex_decode(s@),
{
    hex::decode(s).ok()
}

/// Why stored key text could not be read.
#[derive(Debug, Clone, Copy, PartialEq, Eq, Structural)]
pub enum KeyHexError {
    /// The text is not hexadecimal of even length.
    InvalidHex,
    /// The text decodes to a number of bytes other than 32.
    WrongLength,
}

/// The stored text of a 32-byte key: lowercase hex.
pub fn encode_key_hex(bytes: &[u8; 32]) -> (r: String)
    ensures
        r@ == hex_lower(bytes@),
{
    hex_encode(bytes)
}

/// Reads a 32-byte key from hex text (either case).
pub fn decode_key_hex(s: &str) -> (r: Result<[u8; 32], KeyHexError>)
    ensures
        !(s@.len() % 2 == 0 && is_hex_text(s@)) ==> r == Err::<[u8; 32], KeyHexError>(KeyHexError::InvalidHex),
        (s@.len() % 2 == 0 && is_hex_text(s@)) ==> (match r {
            Ok(b) => s@.len() == 64 && b@ == hex_decode(s@),
            Err(e) => s@.len() != 64 && e == KeyHexError::WrongLength,
        }),
{
    match hex_decode_text(s) {
        None => Err(KeyHexError::InvalidHex),
        Some(v) => {
            if v.len() != 32 {
                return Err(KeyHexError::WrongLength);
            }
            let mut arr = [0u8; 32];
            let mut i: usize = 0;
            while i < 32
                invariant
                    i <= 32,
                    v@.len() == 32,
                    forall|j: int| 0 <= j < i ==> arr@[j] == v@[j],
                decreases 32 - i,
            {
                arr[i] = v[i];
                i = i + 1;
            }
            assert(arr@ =~= v@);
            Ok(arr)
        },
    }
}

/// `keys[i]` is the first key whose peer id is a valid endpoint key.
pub open spec fn is_first_valid_key(keys: Seq<[u8; 32]>, i: int) -> bool {
    &&& 0 <= i < keys.len()
    &&& is_endpoint_key(peer_id_bytes_of_secret(keys[i]@))
    &&& forall|j: int| 0 <= j < i ==> !is_endpoint_key(peer_id_bytes_of_secret((#[trigger] keys[j])@))
}

/// Some key's peer id is a valid endpoint key.
pub open spec fn some_key_valid(keys: Seq<[u8; 32]>) -> bool {
    exists|i: int| 0 <= i < keys.len() && is_endpoint_key(peer_id_bytes_of_secret((#[trigger] keys[i])@))
}

/// What making a profile from drawn keys gives: `EmptyUsername` on a blank
/// name; otherwise the profile of the first key with a valid peer id, or
/// `KeyGenerationFailed` where there is none.
pub open spec fn drawn_profile_outcome(username: Seq<char>, keys: Seq<[u8; 32]>, r: Result<Profile, StorageError>) -> bool {
    if is_blank(username) {
        r matches Err(StorageError::EmptyUsername)
    } else if some_key_valid(keys) {
        r matches Ok(p) && exists|i: int|
            #[trigger] is_first_valid_key(keys, i) && p.spec_username() == username && p.spec_private_key()
                == keys[i]@ && p.spec_peer_id() == peer_id_bytes_of_secret(keys[i]@)
    } else {
        r matches Err(StorageError::KeyGenerationFailed)
    }
}

/// User profile with persistent identity.
#[derive(Debug, Clone)]
pub struct Profile {
    /// Human-readable username (must be unique in the network).
    pub username: String,
    /// Private key as 32 bytes (X25519).
    private_key: [u8; 32],
    /// Derived peer id (SHA-256 of the public key), stored for convenience.
    pub peer_id: [u8; 32],
}

impl Profile {
    /// The private key bytes.
    pub closed spec fn spec_private_key(&self) -> Seq<u8> {
        self.private_key@
    }

    /// The username.
    pub closed spec fn spec_username(&self) -> Seq<char> {
        self.username@
    }

    /// The stored peer id bytes.
    pub closed spec fn spec_peer_id(&self) -> Seq<u8> {
        self.peer_id@
    }

    /// A profile with a fresh key pair: `KEY_ATTEMPTS` keys are drawn at random
    /// and the profile is what [`Profile::from_drawn_keys`] makes of them.
    pub fn new(username: String) -> (r: Result<Self, StorageError>)
        ensures
            exists|keys: Seq<[u8; 32]>|
                keys.len() == KEY_ATTEMPTS && #[trigger] drawn_profile_outcome(username@, keys, r),
            is_blank(username@) ==> (r matches Err(StorageError::EmptyUsername)),
            !is_blank(username@) ==> (r is Ok || (r matches Err(StorageError::KeyGenerationFailed))),
            r matches Ok(p) ==> p.spec_username() == username@ && p.spec_peer_id() == peer_id_bytes_of_secret(
                p.spec_private_key(),
            ) && is_endpoint_key(p.spec_peer_id()),
    {
        let mut keys: Vec<[u8; 32]> = Vec::new();
        let mut attempt: usize = 0;
        while attempt < KEY_ATTEMPTS
            invariant
                attempt <= KEY_ATTEMPTS,
                keys@.len() == attempt,
            decreases KEY_ATTEMPTS - attempt,
        {
            keys.push(KeyPair::generate().secret_bytes());
            attempt = attempt + 1;
        }
        let r = Self::from_drawn_keys(username, keys.as_slice());
        assert(drawn_profile_outcome(username@, keys@, r));
        r
    }

    /// The profile made from keys drawn at random: on a blank username,
    /// `EmptyUsername`; otherwise the profile of the first key whose peer id is
    /// one that the transport accepts, or `KeyGenerationFailed` where no key's is.
    pub fn from_drawn_keys(username: String, keys: &[[u8; 32]]) -> (r: Result<Self, StorageError>)
        ensures
            drawn_profile_outcome(username@, keys@, r),
    {
        let trimmed = str_trim(username.as_str());
        if char_count(trimmed) == 0 {
            return Err(StorageError::EmptyUsername);
        }
        let mut i: usize = 0;
        while i < keys.len()
            invariant
                i <= keys@.len(),
                !is_blank(username@),
                forall|j: int| 0 <= j < i ==> !is_endpoint_key(peer_id_bytes_of_secret((#[trigger] keys@[j])@)),
            decreases keys@.len() - i,
        {
            let k = keys[i];
            if KeyPair::from_secret_bytes(k).try_peer_id().is_ok() {
                let p = Self::from_existing(username, k);
                assert(is_first_valid_key(keys@, i as int));
                return Ok(p);
            }
            i = i + 1;
        }
        proof {
            if some_key_valid(keys@) {
                let w = choose|w: int| 0 <= w < keys@.len() && is_endpoint_key(peer_id_bytes_of_secret((#[trigger] keys@[w])@));
                assert(!is_endpoint_key(peer_id_bytes_of_secret(keys@[w]@)));
            }
        }
        Err(StorageError::KeyGenerationFailed)
    }

    /// Restores a profile from an existing private key and username. The key's
    /// peer id must be one that the transport accepts.
    pub fn from_existing(username: String, private_key: [u8; 32]) -> (r: Self)
        requires
            is_endpoint_key(peer_id_bytes_of_secret(private_key@)),
        ensures
            r.spec_username() == username@,
            r.spec_private_key() == private_key@,
            r.spec_peer_id() == peer_id_bytes_of_secret(private_key@),
    {
        let keypair = KeyPair::from_secret_bytes(private_key);
        let peer_id = keypair.peer_id();
        Profile { username, private_key, peer_id: *peer_id.as_bytes() }
    }

    /// Restores a profile from an existing private key and username, checking
    /// that the key's peer id is one that the transport accepts: `InvalidBytes`
    /// where it is not.
    pub fn try_from_existing(username: String, private_key: [u8; 32]) -> (r: Result<Self, PeerIdError>)
        ensures
            r is Ok <==> is_endpoint_key(peer_id_bytes_of_secret(private_key@)),
            r matches Ok(p) ==> p.spec_username() == username@ && p.spec_private_key() == private_key@
                && p.spec_peer_id() == peer_id_bytes_of_secret(private_key@),
            r matches Err(e) ==> e == PeerIdError::InvalidBytes,
    {
        match KeyPair::from_secret_bytes(private_key).try_peer_id() {
            Ok(_) => Ok(Self::from_existing(username, private_key)),
            Err(e) => Err(e),
        }
    }

    /// The stored peer id as a `PeerId`; the stored bytes must be a valid key.
    pub fn peer_id(&self) -> (r: PeerId)
        requires
            is_endpoint_key(self.spec_peer_id()),
        ensures
            r@ == self.spec_peer_id(),
    {
        PeerId::new(self.peer_id)
    }

    /// The stored peer id as a `PeerId`, checking that the bytes are a valid key.
    pub fn try_peer_id(&self) -> (r: Result<PeerId, PeerIdError>)
        ensures
            r is Ok <==> is_endpoint_key(self.spec_peer_id()),
            r matches Ok(p) ==> p@ == self.spec_peer_id(),
            r matches Err(e) ==> e == PeerIdError::InvalidBytes,
    {
        match PeerId::from_bytes(self.peer_id) {
            Ok(_) => Ok(self.peer_id()),
            Err(e) => Err(e),
        }
    }

    /// The username.
    pub fn username(&self) -> (r: &String)
        ensures
            r@ == self.spec_username(),
    {
        &self.username
    }

    /// The stored peer id bytes.
    pub fn peer_id_bytes(&self) -> (r: [u8; 32])
        ensures
            r@ == self.spec_peer_id(),
    {
        self.peer_id
    }

    /// The private key.
    pub fn private_key(&self) -> (r: [u8; 32])
        ensures
            r@ == self.spec_private_key(),
    {
        self.private_key
    }

    /// The full key pair, rebuilt from the stored secret.
    pub fn keypair(&self) -> (r: KeyPair)
        ensures
            r@ == self.spec_private_key(),
    {
        KeyPair::from_secret_bytes(self.private_key)
    }

    /// Sets the username to the trimmed new name. Fails, changing nothing, on a
    /// blank name or one of more than 32 characters. Storing the profile is
    /// left to the caller.
    pub fn update_username(&mut self, new_username: String) -> (r: Result<(), StorageError>)
        ensures
            final(self).spec_peer_id() == old(self).spec_peer_id(),
            final(self).spec_private_key() == old(self).spec_private_key(),
            is_blank(new_username@) ==> (r matches Err(StorageError::EmptyUsername)),
            !is_blank(new_username@) && trim(new_username@).len() > 32 ==> (r matches Err(
                StorageError::UsernameTooLong,
            )),
            r is Err ==> final(self).spec_username() == old(self).spec_username(),
            !is_blank(new_username@) && trim(new_username@).len() <= 32 ==> r is Ok,
            r is Ok ==> final(self).spec_username() == trim(new_username@),
    {
        let trimmed = str_trim(new_username.as_str());
        let n = char_count(trimmed);
        if n == 0 {
            return Err(StorageError::EmptyUsername);
        }
        if n > MAX_USERNAME_CHARS {
            return Err(StorageError::UsernameTooLong);
        }
        self.username = trimmed.to_string();
        Ok(())
    }

    /// The profile after a username requested at start-up: a non-blank name that
    /// differs from the stored one replaces it (untrimmed), and `true` says the
    /// profile changed and needs storing; otherwise the profile is kept.
    pub fn apply_requested_username(self, username: Option<String>) -> (r: (Self, bool))
        ensures
            r.0.spec_peer_id() == self.spec_peer_id(),
            r.0.spec_private_key() == self.spec_private_key(),
            (match username {
                Some(n) => !is_blank(n@) && n@ != self.spec_username(),
                None => false,
            }) ==> r.1 && r.0.spec_username() == username.unwrap()@,
            !(match username {
                Some(n) => !is_blank(n@) && n@ != self.spec_username(),
                None => false,
            }) ==> !r.1 && r.0.spec_username() == self.spec_username(),
    {
        match username {
            Some(n) => {
                let blank = char_count(str_trim(n.as_str())) == 0;
                if !blank && n != self.username {
                    let mut updated = self;
                    updated.username = n;
                    (updated, true)
                } else {
                    (self, false)
                }
            },
            None => (self, false),
        }
    }
}

/// Storing a key as hex text and reading the text back gives the key.
pub proof fn law_key_hex_roundtrip(bytes: Seq<u8>)
    requires
        bytes.len() == 32,
    ensures
        hex_lower(bytes).len() == 64,
        is_hex_text(hex_lower(bytes)),
        hex_decode(hex_lower(bytes)) == bytes,
{
    crate::text::lemma_hex_lower_roundtrip(bytes);
}

} // verus!
