use hoshi::control_plane::{
    Client, ClientType, ProofError, RelayPresence, canonicalize_base64, canonicalize_base64_32, check_client_type,
    check_registration_proof, check_relay_registration, generate_static_private_key, list_relays, list_relays_get, now, read_proof_fields, register_relay, seconds_to_i64, relay_token_claims, relay_token_times,
    verify_registration_proof,
};
use hoshi::noise::{create_registration_handshake, derive_public_key, encode_base64};
use hoshi::wire::{ClientEntry, RelayEntry};

fn relay(guid: &str, key: &str, last_seen: i64) -> (String, RelayPresence) {
    (
        guid.to_string(),
        RelayPresence {
            entry: RelayEntry { guid: guid.to_string(), public_key: key.to_string(), ip: "10.0.0.1".to_string(), port: 2800 },
            last_seen,
        },
    )
}

#[test]
fn stale_relays_are_dropped_and_the_rest_sorted_by_key() {
    let presences = vec![relay("g1", "zz", 100), relay("g2", "aa", 10), relay("g3", "mm", 50), relay("g4", "bb", 9)];
    let (live, stale) = list_relays(&presences, 100);
    let keys: Vec<String> = live.iter().map(|e| e.public_key.clone()).collect();
    assert_eq!(keys, vec!["aa", "mm", "zz"]);
    assert_eq!(stale, vec!["g4"]);
    let (live, stale) = list_relays(&presences, i64::MIN);
    assert_eq!(live.len(), 4);
    assert!(stale.is_empty());
}

#[test]
fn clients_get_the_time_of_registration() {
    let before = now();
    let client = Client::create_client("key");
    assert_eq!(client.public_key, "key");
    assert!(client.created_at >= before);
    assert!(client.last_seen >= client.created_at);
    let entry = ClientEntry::from(&client);
    assert_eq!(entry.public_key, "key");
}

#[test]
fn control_plane_canonicalization_returns_the_key() {
    let key = encode_base64(&[8u8; 32]);
    let (canonical, bytes) = canonicalize_base64_32(&key, "public_key").unwrap();
    assert_eq!(canonical, key);
    assert_eq!(bytes, [8u8; 32]);
    assert_eq!(canonicalize_base64_32("AAAA", "public_key").unwrap_err().message(), "invalid public_key length");
}

#[test]
fn registration_proofs() {
    let server_private = [1u8; 32];
    let server_public = encode_base64(&derive_public_key(&server_private));
    let client_private = [2u8; 32];
    let client_public = derive_public_key(&client_private);
    let payload = b"{\"public_key\":\"x\"}";
    let handshake = create_registration_handshake(&client_private, &server_public, payload).unwrap();

    assert_eq!(verify_registration_proof(&server_private, &client_public, &handshake, payload), Ok(()));
    assert_eq!(verify_registration_proof(&server_private, &[9u8; 32], &handshake, payload), Err(ProofError::Invalid));
    assert_eq!(verify_registration_proof(&server_private, &client_public, &handshake, b"other"), Err(ProofError::Invalid));
    assert_eq!(verify_registration_proof(&[3u8; 32], &client_public, &handshake, payload), Err(ProofError::Invalid));
    let big = vec![0u8; 65536];
    assert_eq!(verify_registration_proof(&server_private, &client_public, &big, payload), Err(ProofError::TooLarge));

    let (canonical, key, message) = read_proof_fields(&encode_base64(&client_public), &encode_base64(&handshake)).unwrap();
    assert_eq!(canonical, encode_base64(&client_public));
    assert_eq!(key, client_public);
    assert!(check_registration_proof(&server_private, &key, &message, payload).is_ok());
    let err = check_registration_proof(&server_private, &key, &message, b"nope").unwrap_err();
    assert_eq!(err.status, 400);
    assert_eq!(err.message, "invalid registration proof");
}

#[test]
fn proof_fields_errors() {
    let err = read_proof_fields("???", "").unwrap_err();
    assert_eq!((err.status, err.message.as_str()), (400, "invalid public_key base64"));
    let err = read_proof_fields(&encode_base64(&[1u8; 31]), "").unwrap_err();
    assert_eq!((err.status, err.message.as_str()), (400, "invalid public_key length"));
    let err = read_proof_fields(&encode_base64(&[1u8; 32]), "***").unwrap_err();
    assert_eq!((err.status, err.message.as_str()), (400, "invalid noise_handshake base64"));
}

#[test]
fn relays_cannot_register_as_clients() {
    assert!(check_client_type(ClientType::Device).is_ok());
    assert!(check_client_type(ClientType::User).is_ok());
    let err = check_client_type(ClientType::Relay).unwrap_err();
    assert_eq!(err.message, "relay is not allowed in /clients");
}

#[test]
fn canonical_base64_of_any_length() {
    assert_eq!(canonicalize_base64("AQID").as_deref(), Some("AQID"));
    assert_eq!(canonicalize_base64(""), Some(String::new()));
    assert_eq!(canonicalize_base64("not base64!"), None);
}

#[test]
fn relay_registration_checks() {
    let key = encode_base64(&[5u8; 32]);
    let guid = "0190a0b1-c2d3-7e4f-8a9b-0c1d2e3f4a5b";
    let (g, k) = check_relay_registration(guid, &key, 2800).unwrap();
    assert_eq!(g, guid);
    assert_eq!(k, key);
    let (g, _) = check_relay_registration("0190A0B1C2D37E4F8A9B0C1D2E3F4A5B", &key, 2800).unwrap();
    assert_eq!(g, guid);
    let err = check_relay_registration("nope", &key, 2800).unwrap_err();
    assert_eq!((err.status, err.message.as_str()), (400, "invalid guid"));
    let err = check_relay_registration(guid, "***", 2800).unwrap_err();
    assert_eq!((err.status, err.message.as_str()), (400, "invalid public_key base64"));
    let err = check_relay_registration(guid, &key, 0).unwrap_err();
    assert_eq!((err.status, err.message.as_str()), (400, "invalid port"));
}

#[test]
fn relay_tokens_last_a_day() {
    assert_eq!(relay_token_times(1_000), (1_000, 87_400));
}

#[test]
fn static_keys_are_fresh() {
    let a = generate_static_private_key().unwrap();
    let b = generate_static_private_key().unwrap();
    assert_ne!(a, b);
    assert_ne!(derive_public_key(&a), derive_public_key(&b));
}

#[test]
fn relay_token_claims_need_a_uuid() {
    let guid = "0190a0b1-c2d3-7e4f-8a9b-0c1d2e3f4a5b";
    let c = relay_token_claims(guid, ClientType::Device, 500).unwrap();
    assert_eq!((c.sub.as_str(), c.iat, c.exp, c.client_type), (guid, 500, 86_900, ClientType::Device));
    let err = relay_token_claims("broken", ClientType::User, 500).unwrap_err();
    assert_eq!((err.status, err.message.as_str()), (500, "stored client guid is invalid"));
}

#[test]
fn registry_lists_live_relays_and_forgets_stale_ones() {
    let registry = dashmap::DashMap::new();
    let mut registry = registry;
    for (guid, key, seen) in [("g1", "zz", 100), ("g2", "aa", 10), ("g3", "mm", 50), ("g4", "bb", 9)] {
        let (g, p) = relay(guid, key, seen);
        registry.insert(g, p);
    }
    let listed = list_relays_get(&mut registry, 100);
    let keys: Vec<String> = listed.iter().map(|e| e.public_key.clone()).collect();
    assert_eq!(keys, vec!["aa", "mm", "zz"]);
    assert_eq!(registry.len(), 3);
    assert!(!registry.contains_key("g4"));
}

#[test]
fn registering_a_relay_twice_replaces_it() {
    let mut registry = dashmap::DashMap::new();
    let entry = RelayEntry { guid: "g".to_string(), public_key: "k".to_string(), ip: "10.0.0.2".to_string(), port: 2800 };
    assert_eq!(register_relay(&mut registry, "g".to_string(), entry.clone(), 5), 201);
    assert_eq!(register_relay(&mut registry, "g".to_string(), entry, 7), 200);
    assert_eq!(registry.len(), 1);
    assert_eq!(registry.get("g").unwrap().last_seen, 7);
}

#[test]
fn clock_readings_saturate_at_i64_max() {
    assert_eq!(seconds_to_i64(0), 0);
    assert_eq!(seconds_to_i64(1_700_000_000), 1_700_000_000);
    assert_eq!(seconds_to_i64(i64::MAX as u64), i64::MAX);
    assert_eq!(seconds_to_i64(u64::MAX), i64::MAX);
}

#[test]
fn a_client_record_keeps_the_times_it_is_given() {
    let c = Client::with_times("key", 10, 20);
    assert_eq!((c.public_key.as_str(), c.created_at, c.last_seen), ("key", 10, 20));
}

#[test]
fn a_registration_handshake_is_the_payload_and_ninety_six_bytes() {
    let server_private = [1u8; 32];
    let server_public = encode_base64(&derive_public_key(&server_private));
    let client_private = [2u8; 32];
    let payload = b"abc";
    let handshake = create_registration_handshake(&client_private, &server_public, payload).unwrap();
    assert_eq!(handshake.len(), 3 + 96);
    assert_eq!(verify_registration_proof(&server_private, &derive_public_key(&client_private), &handshake, payload), Ok(()));
    assert!(generate_static_private_key().is_ok());
}
