use diceroll::command::CommandOption;
use diceroll::{authenticate, reroll, route, AuthError, InteractionKind, RerollError, Roll, Route};
use ed25519_dalek::{Keypair, PublicKey, SecretKey, Signer};

fn keypair() -> Keypair {
    let secret = SecretKey::from_bytes(&[7u8; 32]).unwrap();
    let public: PublicKey = (&secret).into();
    Keypair { secret, public }
}

fn signed(ts: &str, body: &[u8]) -> (String, String) {
    let kp = keypair();
    let mut message = ts.as_bytes().to_vec();
    message.extend_from_slice(body);
    let sig = kp.sign(&message);
    (hex::encode(kp.public.to_bytes()), hex::encode(sig.to_bytes()))
}

const BODY: &[u8] = br#"{"type":1}"#;

#[test]
fn genuine_request_is_accepted() {
    let (key, sig) = signed("1700000000", BODY);
    let r = authenticate(key.as_bytes(), Some(sig.as_bytes()), Some(b"1700000000"), BODY);
    assert_eq!(r, Ok(()));
    let upper = sig.to_uppercase();
    let r = authenticate(key.to_uppercase().as_bytes(), Some(upper.as_bytes()), Some(b"1700000000"), BODY);
    assert_eq!(r, Ok(()));
}

#[test]
fn flipped_body_byte_is_rejected() {
    let (key, sig) = signed("1700000000", BODY);
    for i in 0..BODY.len() {
        let mut body = BODY.to_vec();
        body[i] ^= 1;
        let r = authenticate(key.as_bytes(), Some(sig.as_bytes()), Some(b"1700000000"), &body);
        assert_eq!(r, Err(AuthError::InvalidSignature));
    }
}

#[test]
fn other_timestamp_is_rejected() {
    let (key, sig) = signed("1700000000", BODY);
    let r = authenticate(key.as_bytes(), Some(sig.as_bytes()), Some(b"1700000001"), BODY);
    assert_eq!(r, Err(AuthError::InvalidSignature));
    let r = authenticate(key.as_bytes(), Some(sig.as_bytes()), Some(b"170000000"), BODY);
    assert_eq!(r, Err(AuthError::InvalidSignature));
}

#[test]
fn malformed_headers() {
    let (key, sig) = signed("1", BODY);
    assert_eq!(authenticate(key.as_bytes(), None, Some(b"1"), BODY), Err(AuthError::Malformed));
    assert_eq!(authenticate(key.as_bytes(), Some(sig.as_bytes()), None, BODY), Err(AuthError::Malformed));
    let odd = &sig[1..];
    assert_eq!(authenticate(key.as_bytes(), Some(odd.as_bytes()), Some(b"1"), BODY), Err(AuthError::Malformed));
    let short = &sig[2..];
    assert_eq!(authenticate(key.as_bytes(), Some(short.as_bytes()), Some(b"1"), BODY), Err(AuthError::Malformed));
    let not_hex = format!("zz{}", &sig[2..]);
    assert_eq!(authenticate(key.as_bytes(), Some(not_hex.as_bytes()), Some(b"1"), BODY), Err(AuthError::Malformed));
    assert_eq!(authenticate(&key.as_bytes()[2..], Some(sig.as_bytes()), Some(b"1"), BODY), Err(AuthError::Malformed));
    assert_eq!(authenticate(b"", Some(sig.as_bytes()), Some(b"1"), BODY), Err(AuthError::Malformed));
}

#[test]
fn signature_from_another_key_is_rejected() {
    let (_, sig) = signed("1", BODY);
    let other = SecretKey::from_bytes(&[9u8; 32]).unwrap();
    let other_public: PublicKey = (&other).into();
    let key = hex::encode(other_public.to_bytes());
    assert_eq!(authenticate(key.as_bytes(), Some(sig.as_bytes()), Some(b"1"), BODY), Err(AuthError::InvalidSignature));
}

#[test]
fn routes() {
    assert_eq!(route(&InteractionKind::Ping), Route::Pong);
    assert_eq!(route(&InteractionKind::Command { name: "roll".to_string() }), Route::NewRoll);
    assert_eq!(route(&InteractionKind::Command { name: "rolls".to_string() }), Route::Unrecognized);
    assert_eq!(route(&InteractionKind::Button), Route::Reroll);
    assert_eq!(route(&InteractionKind::OtherComponent), Route::Unrecognized);
    assert_eq!(route(&InteractionKind::Other), Route::Unrecognized);
}

fn token_of(id: u64) -> String {
    let options = vec![CommandOption::Text { name: "dice".to_string(), value: "3d6".to_string() }];
    Roll::from_command(id, &options).unwrap().to_custom_id()
}

#[test]
fn reroll_policy() {
    let token = token_of(11);
    assert!(reroll(token.clone(), 12, false).is_ok());
    assert_eq!(reroll(token.clone(), 12, true).err(), Some(RerollError::NotRequester));
    let again = reroll(token.clone(), 11, true).unwrap();
    assert_eq!(again.to_custom_id(), token);
    assert_eq!(reroll("x1".to_string(), 11, false).err(), Some(RerollError::MalformedToken));
}
