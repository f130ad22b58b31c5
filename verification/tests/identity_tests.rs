use undertow_protocol::protocol::crypto::{sha256, KeyPair};
use undertow_protocol::protocol::peer_id::{PeerId, PeerIdError};

fn unhex(s: &str) -> Vec<u8> {
    (0..s.len()).step_by(2).map(|i| u8::from_str_radix(&s[i..i + 2], 16).unwrap()).collect()
}

fn arr(v: Vec<u8>) -> [u8; 32] {
    let mut a = [0u8; 32];
    a.copy_from_slice(&v);
    a
}

#[test]
fn sha256_known_vectors() {
    assert_eq!(
        sha256(b"abc").to_vec(),
        unhex("ba7816bf8f01cfea414140de5dae2223b00361a396177a9cb410ff61f20015ad")
    );
    assert_eq!(
        sha256(b"").to_vec(),
        unhex("e3b0c44298fc1c149afbf4c8996fb92427ae41e4649b934ca495991b7852b855")
    );
}

#[test]
fn keypair_public_key_from_known_secret() {
    let secret = arr(unhex("77076d0a7318a57d3c16c17251b26645df4c2f87ebc0992ab177fba51db92c2a"));
    let kp = KeyPair::from_secret_bytes(secret);
    assert_eq!(kp.secret_bytes(), secret);
    assert_eq!(
        kp.public_key_bytes().to_vec(),
        unhex("8520f0098930a754748b7ddcb43ef75a0dbf3a0d26381af4eba4a98eaa9b4e6a")
    );
    assert_eq!(
        kp.peer_id().as_bytes().to_vec(),
        unhex("300c9c9603b92a4b39ed3958bf9240114804db4fd373012c0ca47432d63425ae")
    );
}

#[test]
fn keypair_generate_is_consistent() {
    let kp = KeyPair::generate();
    let again = KeyPair::from_secret_bytes(kp.secret_bytes());
    assert_eq!(again.public_key_bytes(), kp.public_key_bytes());
}

#[test]
fn peer_id_from_bytes_accepts_valid_key() {
    let mut b = [0u8; 32];
    b[0] = 3;
    let id = PeerId::from_bytes(b).unwrap();
    assert_eq!(id.as_bytes(), &b);
}

#[test]
fn peer_id_from_bytes_rejects_invalid_key() {
    let mut b = [0u8; 32];
    b[0] = 2;
    assert_eq!(PeerId::from_bytes(b), Err(PeerIdError::InvalidBytes));
}

#[test]
fn peer_id_hex_roundtrip() {
    let mut b = [0u8; 32];
    b[0] = 0x0e;
    b[1] = 0xab;
    let id = PeerId::from_bytes(b).unwrap();
    let text = id.to_hex();
    assert_eq!(text, format!("0eab{}", "0".repeat(60)));
    assert_eq!(PeerId::from_hex(&text), Ok(id));
    let r = PeerId::random();
    assert_eq!(PeerId::from_hex(&r.to_hex()), Ok(r));
}

#[test]
fn peer_id_from_hex_rejects_bad_text() {
    assert_eq!(PeerId::from_hex("xyz"), Err(PeerIdError::InvalidHex));
    assert_eq!(PeerId::from_hex(""), Err(PeerIdError::InvalidHex));
    let mut bad = String::from("02");
    bad.push_str(&"0".repeat(62));
    assert_eq!(PeerId::from_hex(&bad), Err(PeerIdError::InvalidHex));
}

#[test]
fn peer_id_short_is_first_eight_hex_digits() {
    let mut b = [0u8; 32];
    b[0] = 0x1f;
    b[1] = 0x02;
    b[2] = 0xff;
    b[3] = 0x40;
    b[4] = 0x55;
    let id = PeerId::from_bytes(b).unwrap();
    assert_eq!(id.short(), "1f02ff40");
    let r = PeerId::random();
    assert_eq!(r.short(), r.to_hex()[..8].to_string());
}

#[test]
fn peer_id_from_public_key_takes_first_32_bytes() {
    let mut key = vec![0u8; 40];
    key[0] = 4;
    key[35] = 9;
    let id = PeerId::from_public_key(&key);
    assert_eq!(id.as_bytes().to_vec(), key[..32].to_vec());
}

#[test]
fn random_peer_ids_differ() {
    assert_ne!(PeerId::random(), PeerId::random());
}

#[test]
fn peer_id_text_parses_and_prints_back() {
    let text = format!("0eab{}", "0".repeat(60));
    let id = PeerId::from_hex(&text).unwrap();
    assert_eq!(id.to_hex(), text);
}

#[test]
fn peer_id_error_messages() {
    let mut b = [0u8; 32];
    b[0] = 2;
    let outside = iroh::EndpointId::from_bytes(&b).unwrap_err();
    assert_eq!(PeerIdError::InvalidBytes.message(), format!("Некорректные байты EndpointId: {}", outside));
    assert_eq!(PeerIdError::InvalidHex.message(), "Ошибка парсинга hex");
}
