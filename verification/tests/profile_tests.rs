use std::path::PathBuf;
use undertow_protocol::protocol::crypto::{sha256, KeyPair};
use undertow_protocol::protocol::peer_id::PeerIdError;
use undertow_protocol::storage::error::StorageError;
use undertow_protocol::storage::paths::{config_dir, profile_path};
use undertow_protocol::storage::profile::{
    decode_key_hex, encode_key_hex, KeyHexError, Profile, KEY_ATTEMPTS, MAX_USERNAME_CHARS,
};

fn alice_secret() -> [u8; 32] {
    let hex = "77076d0a7318a57d3c16c17251b26645df4c2f87ebc0992ab177fba51db92c2a";
    decode_key_hex(hex).unwrap()
}

#[test]
fn limits() {
    assert_eq!(MAX_USERNAME_CHARS, 32);
    assert_eq!(KEY_ATTEMPTS, 64);
}

#[test]
fn key_hex_roundtrip() {
    let secret = alice_secret();
    let text = encode_key_hex(&secret);
    assert_eq!(text, "77076d0a7318a57d3c16c17251b26645df4c2f87ebc0992ab177fba51db92c2a");
    assert_eq!(decode_key_hex(&text), Ok(secret));
    assert_eq!(decode_key_hex(&text.to_uppercase()), Ok(secret));
}

#[test]
fn key_hex_errors() {
    assert_eq!(decode_key_hex("abc"), Err(KeyHexError::InvalidHex));
    assert_eq!(decode_key_hex("zz"), Err(KeyHexError::InvalidHex));
    assert_eq!(decode_key_hex("abcd"), Err(KeyHexError::WrongLength));
    assert_eq!(decode_key_hex(""), Err(KeyHexError::WrongLength));
}

#[test]
fn new_profile_rejects_blank_username() {
    assert!(matches!(Profile::new(String::new()), Err(StorageError::EmptyUsername)));
    assert!(matches!(Profile::new("  \t ".to_string()), Err(StorageError::EmptyUsername)));
}

#[test]
fn new_profile_derives_peer_id() {
    let p = Profile::new("alice".to_string()).unwrap();
    assert_eq!(p.username, "alice");
    let kp = KeyPair::from_secret_bytes(p.private_key());
    assert_eq!(p.peer_id, sha256(&kp.public_key_bytes()));
    assert_eq!(p.peer_id().as_bytes(), &p.peer_id);
    assert_eq!(p.try_peer_id().unwrap().as_bytes(), &p.peer_id);
    assert_eq!(p.keypair().public_key_bytes(), kp.public_key_bytes());
}

#[test]
fn existing_profile_from_known_key() {
    let p = Profile::from_existing("alice".to_string(), alice_secret());
    assert_eq!(p.private_key(), alice_secret());
    assert_eq!(
        encode_key_hex(&p.peer_id),
        "300c9c9603b92a4b39ed3958bf9240114804db4fd373012c0ca47432d63425ae"
    );
}

#[test]
fn update_username_rules() {
    let mut p = Profile::from_existing("alice".to_string(), alice_secret());
    assert!(p.update_username("  bob  ".to_string()).is_ok());
    assert_eq!(p.username, "bob");
    assert!(matches!(p.update_username("   ".to_string()), Err(StorageError::EmptyUsername)));
    assert_eq!(p.username, "bob");
    assert!(matches!(p.update_username("x".repeat(33)), Err(StorageError::UsernameTooLong)));
    assert_eq!(p.username, "bob");
    assert!(p.update_username("y".repeat(32)).is_ok());
    assert_eq!(p.username, "y".repeat(32));
    assert!(p.update_username("é".repeat(32)).is_ok());
    assert_eq!(p.private_key(), alice_secret());
}

#[test]
fn requested_username_at_start() {
    let p = Profile::from_existing("alice".to_string(), alice_secret());
    let (p, changed) = p.apply_requested_username(None);
    assert!(!changed);
    assert_eq!(p.username, "alice");
    let (p, changed) = p.apply_requested_username(Some("alice".to_string()));
    assert!(!changed);
    let (p, changed) = p.apply_requested_username(Some("  ".to_string()));
    assert!(!changed);
    assert_eq!(p.username, "alice");
    let (p, changed) = p.apply_requested_username(Some("carol".to_string()));
    assert!(changed);
    assert_eq!(p.username, "carol");
}

#[test]
fn profile_paths() {
    let dir = config_dir();
    assert_eq!(dir.file_name().unwrap(), "undertow");
    let path = profile_path();
    assert_eq!(path.file_name().unwrap(), "profile.toml");
    assert_eq!(path.parent().unwrap(), dir.as_path());
}

#[test]
fn checked_restore_from_key() {
    let p = Profile::try_from_existing("alice".to_string(), alice_secret()).unwrap();
    assert_eq!(p.username, "alice");
    assert_eq!(p.private_key(), alice_secret());
    assert_eq!(
        encode_key_hex(&p.peer_id),
        "300c9c9603b92a4b39ed3958bf9240114804db4fd373012c0ca47432d63425ae"
    );
    let kp = KeyPair::from_secret_bytes(alice_secret());
    assert_eq!(kp.try_peer_id().unwrap().as_bytes(), &p.peer_id);
}

#[test]
fn checked_restore_rejects_key_without_valid_peer_id() {
    let mut secret = [0u8; 32];
    secret[0] = 1;
    assert!(matches!(
        Profile::try_from_existing("bob".to_string(), secret),
        Err(PeerIdError::InvalidBytes)
    ));
    assert!(matches!(KeyPair::from_secret_bytes(secret).try_peer_id(), Err(PeerIdError::InvalidBytes)));
}

#[test]
fn paths_for_a_given_platform_directory() {
    let base = PathBuf::from("/home/u/.config");
    assert_eq!(undertow_protocol::storage::paths::config_dir_in(Some(base.clone())), PathBuf::from("/home/u/.config/undertow"));
    assert_eq!(undertow_protocol::storage::paths::config_dir_in(None), PathBuf::from("./undertow"));
    assert_eq!(
        undertow_protocol::storage::paths::profile_path_in(Some(base)),
        PathBuf::from("/home/u/.config/undertow/profile.toml")
    );
    assert_eq!(undertow_protocol::storage::paths::profile_path_in(None), PathBuf::from("./undertow/profile.toml"));
}

#[test]
fn profile_getters() {
    let p = Profile::from_existing("alice".to_string(), alice_secret());
    assert_eq!(p.username(), "alice");
    assert_eq!(p.peer_id_bytes(), p.peer_id);
}

#[test]
fn profile_from_drawn_keys_takes_first_valid_key() {
    let mut invalid = [0u8; 32];
    invalid[0] = 1;
    let p = Profile::from_drawn_keys("alice".to_string(), &[invalid, alice_secret(), invalid]).unwrap();
    assert_eq!(p.private_key(), alice_secret());
    assert_eq!(p.username(), "alice");
    assert_eq!(
        encode_key_hex(&p.peer_id),
        "300c9c9603b92a4b39ed3958bf9240114804db4fd373012c0ca47432d63425ae"
    );
    assert!(matches!(
        Profile::from_drawn_keys("alice".to_string(), &[invalid, invalid]),
        Err(StorageError::KeyGenerationFailed)
    ));
    assert!(matches!(Profile::from_drawn_keys("alice".to_string(), &[]), Err(StorageError::KeyGenerationFailed)));
    assert!(matches!(
        Profile::from_drawn_keys("  ".to_string(), &[alice_secret()]),
        Err(StorageError::EmptyUsername)
    ));
}
