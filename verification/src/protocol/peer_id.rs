//! 32-byte identifier of a network peer: the encoded Ed25519 key by which the
//! transport identifies an endpoint.

use vstd::prelude::*;
use crate::text::{
    encode_hex_lower, hex_lower, hex_decode, is_hex_lower_text, lemma_hex_lower_roundtrip,
    lemma_hex_lower_text_roundtrip,
};

verus! {

/// Whether 32 bytes are the encoding of a valid Ed25519 point, that is, an
/// endpoint id that the transport accepts.
pub uninterp spec fn is_endpoint_key(bytes: Seq<u8>) -> bool;

/// What the transport's text parser makes of an endpoint id string: the key
/// bytes, or `None` where it refuses the text.
pub uninterp spec fn endpoint_id_from_str(s: Seq<char>) -> Option<Seq<u8>>;

/// Asks `iroh::EndpointId::from_bytes` whether the bytes form an endpoint id.
/// Trusted: the result is the named predicate of the bytes; `from_bytes`
/// succeeds exactly on the encodings of valid Ed25519 points.
#[verifier::external_body]
fn endpoint_key_valid(bytes: &[u8; 32]) -> (r: bool)
    ensures
        r == is_endpoint_key(bytes@),
{
    iroh::EndpointId::from_bytes(bytes).is_ok()
}

/// Parses an endpoint id with `iroh::EndpointId::from_str` and returns its bytes.
/// Trusted: the result is the named parse of the text; a key that comes back is
/// a valid endpoint id; text of 64 lowercase hex digits is decoded as hex and
/// accepted exactly when the decoded bytes are a valid key (the source decodes
/// 64-character input with `HEXLOWER`, then calls `from_bytes`, which keeps the
/// bytes as given). What other text (base32) gives is left to the name.
#[verifier::external_body]
fn parse_endpoint_id(s: &str) -> (r: Option<[u8; 32]>)
    ensures
        r matches Some(b) ==> endpoint_id_from_str(s@) == Some(b@) && is_endpoint_key(b@),
        r is None ==> endpoint_id_from_str(s@) is None,
        (s@.len() == 64 && is_hex_lower_text(s@)) ==> (r is Some <==> is_endpoint_key(
            hex_decode(s@),
        )),
        (s@.len() == 64 && is_hex_lower_text(s@)) ==> (r matches Some(b) ==> b@ == hex_decode(
            s@,
        )),
{
    <iroh::EndpointId as std::str::FromStr>::from_str(s).ok().map(|k| *k.as_bytes())
}

/// The public key of a freshly generated `iroh::SecretKey` (random).
/// Trusted: the bytes are a valid endpoint id, as every public key of a
/// secret key is; nothing else is said of them.
#[verifier::external_body]
fn generate_endpoint_key() -> (r: [u8; 32])
    ensures
        is_endpoint_key(r@),
{
    *iroh::SecretKey::generate().public().as_bytes()
}

/// Why a peer id could not be made.
#[derive(Debug, Clone, Copy, PartialEq, Eq, Structural)]
pub enum PeerIdError {
    /// The bytes are not a valid endpoint key.
    InvalidBytes,
    /// The text is not an endpoint id in hex (or base32) form.
    InvalidHex,
}

/// The text of a peer id error. A refused text is reported without the
/// transport's reason for refusing it.
pub open spec fn peer_id_error_text(e: PeerIdError) -> Seq<char> {
    match e {
        PeerIdError::InvalidBytes => "Некорректные байты EndpointId: data is not a valid public key"@,
        PeerIdError::InvalidHex => "Ошибка парсинга hex"@,
    }
}

impl PeerIdError {
    /// The text of the error.
    pub fn message(&self) -> (r: String)
        ensures
            r@ == peer_id_error_text(*self),
    {
        match *self {
            PeerIdError::InvalidBytes => "Некорректные байты EndpointId: data is not a valid public key".to_owned(),
            PeerIdError::InvalidHex => "Ошибка парсинга hex".to_owned(),
        }
    }
}

/// Unique 32-byte identifier of a network peer.
#[derive(Debug, Clone, Copy, PartialEq, Eq, Hash)]
pub struct PeerId {
    bytes: [u8; 32],
}

impl View for PeerId {
    type V = Seq<u8>;

    closed spec fn view(&self) -> Seq<u8> {
        self.bytes@
    }
}

impl PeerId {
    #[verifier::type_invariant]
    spec fn valid(self) -> bool {
        is_endpoint_key(self.bytes@)
    }

    /// Creates a peer id from raw bytes, which must be a valid endpoint key.
    pub fn new(bytes: [u8; 32]) -> (r: Self)
        requires
            is_endpoint_key(bytes@),
        ensures
            r@ == bytes@,
    {
        PeerId { bytes }
    }

    /// Creates a peer id from raw bytes; fails on bytes that are not a valid endpoint key.
    pub fn from_bytes(bytes: [u8; 32]) -> (r: Result<Self, PeerIdError>)
        ensures
            is_endpoint_key(bytes@) <==> r is Ok,
            r matches Ok(p) ==> p@ == bytes@,
            r matches Err(e) ==> e == PeerIdError::InvalidBytes,
    {
        if endpoint_key_valid(&bytes) {
            Ok(Self::new(bytes))
        } else {
            Err(PeerIdError::InvalidBytes)
        }
    }

    /// Derives a peer id from a public key: its first 32 bytes.
    pub fn from_public_key(public_key: &[u8]) -> (r: Self)
        requires
            public_key@.len() >= 32,
            is_endpoint_key(public_key@.subrange(0, 32)),
        ensures
            r@ == public_key@.subrange(0, 32),
    {
        let mut bytes = [0u8; 32];
        let mut i: usize = 0;
        while i < 32
            invariant
                i <= 32,
                public_key@.len() >= 32,
                forall|j: int| 0 <= j < i ==> bytes@[j] == public_key@[j],
            decreases 32 - i,
        {
            bytes[i] = public_key[i];
            i = i + 1;
        }
        assert(bytes@ =~= public_key@.subrange(0, 32));
        Self::new(bytes)
    }

    /// The peer id as lowercase hex (64 characters).
    pub fn to_hex(&self) -> (r: String)
        ensures
            r@ == hex_lower(self@),
    {
        encode_hex_lower(&self.bytes)
    }

    /// Parses a peer id from its 64-character lowercase hex form (base32 is accepted too).
    pub fn from_hex(hex_str: &str) -> (r: Result<Self, PeerIdError>)
        ensures
            r matches Ok(p) ==> endpoint_id_from_str(hex_str@) == Some(p@),
            r matches Err(e) ==> endpoint_id_from_str(hex_str@) is None && e == PeerIdError::InvalidHex,
            (hex_str@.len() == 64 && is_hex_lower_text(hex_str@)) ==> (r is Ok <==> is_endpoint_key(
                hex_decode(hex_str@),
            )),
            (hex_str@.len() == 64 && is_hex_lower_text(hex_str@)) ==> (r matches Ok(p) ==> p@
                == hex_decode(hex_str@)),
    {
        match parse_endpoint_id(hex_str) {
            Some(bytes) => Ok(Self::new(bytes)),
            None => Err(PeerIdError::InvalidHex),
        }
    }

    /// The raw 32 bytes.
    pub fn as_bytes(&self) -> (r: &[u8; 32])
        ensures
            r@ == self@,
            is_endpoint_key(self@),
    {
        proof {
            use_type_invariant(self);
        }
        &self.bytes
    }

    /// A random peer id (for testing).
    pub fn random() -> (r: Self)
        ensures
            is_endpoint_key(r@),
    {
        Self::new(generate_endpoint_key())
    }

    /// The short display form: the first 8 hex characters.
    pub fn short(&self) -> (r: String)
        ensures
            r@ == hex_lower(self@).subrange(0, 8),
    {
        let first = [self.bytes[0], self.bytes[1], self.bytes[2], self.bytes[3]];
        let r = encode_hex_lower(&first);
        proof {
            assert forall|k: int| 0 <= k < 8 implies #[trigger] r@[k] == hex_lower(self@)[k] by {
                assert(first@[k / 2] == self.bytes@[k / 2]);
            }
            assert(r@ =~= hex_lower(self@).subrange(0, 8));
        }
        r
    }
}

/// A peer id is 32 bytes long.
pub proof fn lemma_peer_id_len(p: PeerId)
    ensures
        p@.len() == 32,
{
}

/// Printing a peer id in hex and parsing the text back gives the same peer id:
/// the text of `to_hex` is 64 lowercase hex digits, which `from_hex` decodes
/// back to the id's bytes, a valid key, so it accepts them.
pub proof fn law_hex_roundtrip(p: PeerId)
    requires
        is_endpoint_key(p@),
    ensures
        hex_lower(p@).len() == 64,
        is_hex_lower_text(hex_lower(p@)),
        hex_decode(hex_lower(p@)) == p@,
        is_endpoint_key(hex_decode(hex_lower(p@))),
{
    lemma_hex_lower_roundtrip(p@);
}

/// Parsing 64 lowercase hex digits and printing the id again gives the same
/// text: the bytes that `from_hex` keeps from such text are 32, and `to_hex`
/// of them is the text.
pub proof fn law_hex_text_roundtrip(s: Seq<char>)
    requires
        s.len() == 64,
        is_hex_lower_text(s),
    ensures
        hex_decode(s).len() == 32,
        hex_lower(hex_decode(s)) == s,
{
    lemma_hex_lower_text_roundtrip(s);
}

} // verus!
