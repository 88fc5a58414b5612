use hoshi::connection::{
    EnvelopeError, control_plane_endpoint, e2ee_envelope, open_envelope, recipient_guid, relay_error_message,
    relay_ws_uri, select_relay_index, trim_trailing_slashes,
};
use hoshi::noise::{derive_public_key, encode_base64, encrypt_e2ee_payload};
use hoshi::wire::{E2eeEnvelope, RelayEntry, RelayErrorPacket};

fn relay(ip: &str, port: u16) -> RelayEntry {
    RelayEntry { guid: "g".to_string(), public_key: "k".to_string(), ip: ip.to_string(), port }
}

#[test]
fn endpoints_drop_trailing_slashes() {
    assert_eq!(trim_trailing_slashes("http://cp//"), "http://cp");
    assert_eq!(trim_trailing_slashes("///"), "");
    assert_eq!(control_plane_endpoint("https://cp.example/", "/relays"), "https://cp.example/relays");
    assert_eq!(control_plane_endpoint("https://cp.example", "/noise/public-key"), "https://cp.example/noise/public-key");
}

#[test]
fn relay_urls_bracket_ipv6() {
    assert_eq!(relay_ws_uri(&relay("10.1.2.3", 2800)), "ws://10.1.2.3:2800/relay");
    assert_eq!(relay_ws_uri(&relay("::1", 80)), "ws://[::1]:80/relay");
    assert_eq!(relay_ws_uri(&relay("[fe80::1]", 0)), "ws://[fe80::1]:0/relay");
    assert_eq!(relay_ws_uri(&relay("h", 65535)), "ws://h:65535/relay");
}

#[test]
fn relays_are_picked_by_chance() {
    assert_eq!(select_relay_index(0, 5), None);
    assert_eq!(select_relay_index(3, 5), Some(2));
    assert_eq!(select_relay_index(1, u64::MAX), Some(0));
}

#[test]
fn envelopes_roundtrip() {
    let private = [4u8; 32];
    let public = encode_base64(&derive_public_key(&private));
    let ciphertext = encrypt_e2ee_payload(&public, b"payload").unwrap();
    let env = e2ee_envelope(&ciphertext);
    assert_eq!(env.version, 1);
    assert_eq!(env.alg, "Noise_N_25519_ChaChaPoly_BLAKE2s");
    assert_eq!(open_envelope(&private, &env).unwrap(), b"payload");
    let other = E2eeEnvelope { version: 1, alg: "Noise_X".to_string(), ciphertext: env.ciphertext.clone() };
    assert!(matches!(open_envelope(&private, &other), Err(EnvelopeError::UnsupportedAlgorithm(a)) if a == "Noise_X"));
    let garbled = E2eeEnvelope { version: 1, alg: env.alg.clone(), ciphertext: "!!".to_string() };
    assert!(matches!(open_envelope(&private, &garbled), Err(EnvelopeError::Ciphertext(_))));
    assert!(matches!(open_envelope(&[5u8; 32], &env), Err(EnvelopeError::Decrypt(_))));
}

#[test]
fn relay_errors_and_recipients() {
    let e = RelayErrorPacket { error: "unknown recipient".to_string(), recipient: Some("g1".to_string()) };
    assert_eq!(relay_error_message(&e), "relay error: unknown recipient (g1)");
    let e = RelayErrorPacket { error: "busy".to_string(), recipient: None };
    assert_eq!(relay_error_message(&e), "relay error: busy");
    assert_eq!(recipient_guid("  g1 \n"), Some("g1"));
    assert_eq!(recipient_guid(" \t "), None);
}
