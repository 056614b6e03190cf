use base64::Engine;
use hmac::Mac;

use sniper_bot::okx::auth::generate_sign;
use sniper_bot::okx::client::classify_login;
use sniper_bot::okx::client::create_login_packet;
use sniper_bot::okx::client::AuthHandshake;
use sniper_bot::okx::client::AuthState;
use sniper_bot::okx::client::LoginOutcome;
use sniper_bot::okx::protocol::decode;

#[test]
fn sign_is_deterministic() {
    let a = generate_sign("secret-key", "1700000000");
    let b = generate_sign("secret-key", "1700000000");
    assert_eq!(a, b);
}

#[test]
fn sign_distinguishes_trivially_distinct_inputs() {
    let base = generate_sign("secret-key", "1700000000");
    assert_ne!(base, generate_sign("secret-kez", "1700000000"));
    assert_ne!(base, generate_sign("secret-key", "1700000001"));
}

#[test]
fn sign_is_base64_of_a_32_byte_digest() {
    // 32 MAC bytes give exactly 44 padded Base64 characters, and the
    // output is not the canonical string handed in.
    let s = generate_sign("k", "123");
    assert_eq!(s.len(), 44);
    assert_ne!(s, "123GET/users/self/verify");
    assert!(s.chars().all(|c| c.is_ascii_alphanumeric() || c == '+' || c == '/' || c == '='));
}

#[test]
fn sign_agrees_with_a_direct_composition() {
    // The same canonical string, keyed and encoded directly: the library
    // must produce the identical signature.
    let mut mac = hmac::Hmac::<sha2::Sha256>::new_from_slice(b"my-secret").unwrap();
    mac.update(b"1700000000GET/users/self/verify");
    let expected =
        base64::engine::general_purpose::STANDARD.encode(mac.finalize().into_bytes());
    assert_eq!(generate_sign("my-secret", "1700000000"), expected);
}

#[test]
fn login_packet_embeds_credentials_and_signature() {
    let sign = generate_sign("sec", "123");
    let pkt = create_login_packet("key-1", "phrase-1", "sec", "123");
    let expected = format!(
        "{{\"op\":\"login\",\"args\":[{{\"apiKey\":\"key-1\",\"passphrase\":\"phrase-1\",\"timestamp\":\"123\",\"sign\":\"{}\"}}]}}",
        sign
    );
    assert_eq!(pkt, expected);
}

#[test]
fn login_success_frame_confirms() {
    let env = decode("{\"event\":\"login\",\"msg\":\"\",\"code\":\"0\",\"connId\":\"a4d3ae55\"}").unwrap();
    assert!(matches!(classify_login(&env), LoginOutcome::Success));
}

#[test]
fn login_error_frame_rejects_with_code() {
    let env = decode("{\"event\":\"error\",\"code\":\"60009\",\"msg\":\"Login failed.\"}").unwrap();
    match classify_login(&env) {
        LoginOutcome::Failure { code, msg } => {
            assert_eq!(code.as_deref(), Some("60009"));
            assert_eq!(msg.as_deref(), Some("Login failed."));
        }
        _ => panic!("expected a failure"),
    }
}

#[test]
fn stray_frames_are_discarded_while_waiting() {
    let mut hs = AuthHandshake::new();
    assert_eq!(hs.state, AuthState::Authenticating);
    let ack = decode("{\"event\":\"subscribe\",\"arg\":{\"channel\":\"account\"}}").unwrap();
    hs.on_frame(&ack);
    assert_eq!(hs.state, AuthState::Authenticating);
    let pong = decode("pong").unwrap();
    hs.on_frame(&pong);
    assert_eq!(hs.state, AuthState::Authenticating);
    let ok = decode("{\"event\":\"login\",\"code\":\"0\",\"msg\":\"\"}").unwrap();
    hs.on_frame(&ok);
    assert_eq!(hs.state, AuthState::Authenticated);
    assert!(hs.is_settled());
}

#[test]
fn handshake_fails_on_error_and_on_close() {
    let mut hs = AuthHandshake::new();
    let err = decode("{\"event\":\"error\",\"code\":\"60008\",\"msg\":\"no\"}").unwrap();
    hs.on_frame(&err);
    assert_eq!(hs.state, AuthState::Failed);

    let mut hs2 = AuthHandshake::new();
    hs2.on_close();
    assert_eq!(hs2.state, AuthState::Failed);
}

#[test]
fn settled_handshake_keeps_its_result() {
    let mut hs = AuthHandshake::new();
    let ok = decode("{\"event\":\"login\",\"code\":\"0\",\"msg\":\"\"}").unwrap();
    hs.on_frame(&ok);
    let err = decode("{\"event\":\"error\",\"code\":\"1\",\"msg\":\"x\"}").unwrap();
    hs.on_frame(&err);
    assert_eq!(hs.state, AuthState::Authenticated);
}
