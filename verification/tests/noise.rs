use base64::Engine;
use hoshi::noise::{
    KeyError, NoiseError, canonicalize_base64_32, decode_base64, decode_base64_32, decrypt_e2ee_payload,
    derive_public_key, encode_base64, encrypt_e2ee_payload, create_relay_initiator_handshake,
    finish_relay_initiator_handshake, open_relay_packet, seal_relay_packet,
};

#[test]
fn e2ee_encrypt_decrypt_roundtrip() {
    let recipient_private = [7_u8; 32];
    let recipient_public = encode_base64(&derive_public_key(&recipient_private));
    let payload = b"hello-e2ee";

    let ciphertext = encrypt_e2ee_payload(&recipient_public, payload).expect("encrypt");
    let decrypted = decrypt_e2ee_payload(&recipient_private, &ciphertext).expect("decrypt");

    assert_eq!(decrypted, payload);
}

#[test]
fn e2ee_rejects_a_bad_key_and_garbage() {
    match encrypt_e2ee_payload("not base64!", b"x") {
        Err(NoiseError::Key(KeyError::InvalidBase64 { field })) => assert_eq!(field, "recipient_public_key"),
        other => panic!("unexpected {other:?}"),
    }
    match encrypt_e2ee_payload(&encode_base64(&[1, 2, 3]), b"x") {
        Err(NoiseError::Key(KeyError::InvalidLength { field })) => assert_eq!(field, "recipient_public_key"),
        other => panic!("unexpected {other:?}"),
    }
    assert!(matches!(decrypt_e2ee_payload(&[7_u8; 32], &[1, 2, 3]), Err(NoiseError::Decrypt)));
}

#[test]
fn base64_matches_the_standard_engine() {
    assert_eq!(encode_base64(b"hi"), "aGk=");
    assert_eq!(encode_base64(&[0u8; 32]), base64::engine::general_purpose::STANDARD.encode([0u8; 32]));
    assert_eq!(decode_base64("aGk=").unwrap(), b"hi");
    match decode_base64("aGk") {
        Err(KeyError::Base64(m)) => assert!(m.starts_with("invalid base64: ")),
        other => panic!("unexpected {other:?}"),
    }
}

#[test]
fn key_fields_are_32_bytes_of_base64() {
    let key = encode_base64(&[9u8; 32]);
    assert_eq!(decode_base64_32(&key, "k").unwrap(), [9u8; 32]);
    let err = decode_base64_32("%%%", "k").unwrap_err();
    assert_eq!(err.message(), "invalid k base64");
    let err = decode_base64_32("aGk=", "k").unwrap_err();
    assert_eq!(err.message(), "invalid k length");
    assert_eq!(canonicalize_base64_32(&key, "k").unwrap(), key);
}

#[test]
fn public_key_of_a_private_key() {
    // RFC 7748, section 6.1: Alice's key pair.
    let private = [
        0x77, 0x07, 0x6d, 0x0a, 0x73, 0x18, 0xa5, 0x7d, 0x3c, 0x16, 0xc1, 0x72, 0x51, 0xb2, 0x66, 0x45, 0xdf, 0x4c, 0x2f,
        0x87, 0xeb, 0xc0, 0x99, 0x2a, 0xb1, 0x77, 0xfb, 0xa5, 0x1d, 0xb9, 0x2c, 0x2a,
    ];
    let public = [
        0x85, 0x20, 0xf0, 0x09, 0x89, 0x30, 0xa7, 0x54, 0x74, 0x8b, 0x7d, 0xdc, 0xb4, 0x3e, 0xf7, 0x5a, 0x0d, 0xbf, 0x3a,
        0x0d, 0x26, 0x38, 0x1a, 0xf4, 0xeb, 0xa4, 0xa9, 0x8e, 0xaa, 0x9b, 0x4e, 0x6a,
    ];
    assert_eq!(derive_public_key(&private), public);
}

#[test]
fn relay_session_handshake() {
    let relay_private = [4u8; 32];
    let relay_public = encode_base64(&derive_public_key(&relay_private));
    let (initiator, first) = create_relay_initiator_handshake(&relay_public).unwrap();

    let params: snow::params::NoiseParams = "Noise_NK_25519_ChaChaPoly_BLAKE2s".parse().unwrap();
    let mut responder = snow::Builder::new(params).local_private_key(&relay_private).build_responder().unwrap();
    let mut buf = vec![0u8; 1024];
    responder.read_message(&first, &mut buf).unwrap();
    let n = responder.write_message(&[], &mut buf).unwrap();
    let reply = buf[..n].to_vec();

    let mut transport = finish_relay_initiator_handshake(initiator, &reply).unwrap();
    let mut responder = responder.into_transport_mode().unwrap();
    let sealed = seal_relay_packet(&mut transport, b"ping").unwrap();
    let mut opened = vec![0u8; 64];
    let m = responder.read_message(&sealed, &mut opened).unwrap();
    assert_eq!(&opened[..m], b"ping");

    let mut back = vec![0u8; 64];
    let n = responder.write_message(b"pong", &mut back).unwrap();
    assert_eq!(open_relay_packet(&mut transport, &back[..n]).unwrap(), b"pong".to_vec());
    assert!(matches!(open_relay_packet(&mut transport, b"forged"), Err(NoiseError::Decrypt)));
    assert!(matches!(seal_relay_packet(&mut transport, &vec![0u8; 65520]), Err(NoiseError::Handshake)));
}

#[test]
fn relay_session_errors() {
    assert!(matches!(
        create_relay_initiator_handshake("???"),
        Err(NoiseError::Key(KeyError::InvalidBase64 { .. }))
    ));
    assert!(matches!(
        create_relay_initiator_handshake(&encode_base64(&[1u8; 16])),
        Err(NoiseError::Key(KeyError::InvalidLength { .. }))
    ));
    let relay_public = encode_base64(&derive_public_key(&[4u8; 32]));
    let (initiator, _) = create_relay_initiator_handshake(&relay_public).unwrap();
    assert!(matches!(finish_relay_initiator_handshake(initiator, b"garbage"), Err(NoiseError::Decrypt)));
    let (initiator, _) = create_relay_initiator_handshake(&relay_public).unwrap();
    assert!(matches!(finish_relay_initiator_handshake(initiator, &vec![0u8; 70000]), Err(NoiseError::Decrypt)));
}

#[test]
fn noise_messages_have_their_stated_lengths() {
    let recipient_public = encode_base64(&derive_public_key(&[7_u8; 32]));
    assert_eq!(encrypt_e2ee_payload(&recipient_public, b"hello").unwrap().len(), 5 + 48);
    assert_eq!(encrypt_e2ee_payload(&recipient_public, &[]).unwrap().len(), 48);
    assert!(encrypt_e2ee_payload(&recipient_public, &vec![0u8; 65535 - 48]).is_ok());
    assert!(matches!(encrypt_e2ee_payload(&recipient_public, &vec![0u8; 65535 - 47]), Err(NoiseError::Handshake)));
    let (_, first) = create_relay_initiator_handshake(&recipient_public).unwrap();
    assert_eq!(first.len(), 48);
}

#[test]
fn relay_packets_carry_a_sixteen_byte_tag() {
    let relay_private = [4u8; 32];
    let relay_public = encode_base64(&derive_public_key(&relay_private));
    let (initiator, first) = create_relay_initiator_handshake(&relay_public).unwrap();
    let params: snow::params::NoiseParams = "Noise_NK_25519_ChaChaPoly_BLAKE2s".parse().unwrap();
    let mut responder = snow::Builder::new(params).local_private_key(&relay_private).build_responder().unwrap();
    let mut buf = vec![0u8; 1024];
    responder.read_message(&first, &mut buf).unwrap();
    let n = responder.write_message(&[], &mut buf).unwrap();
    let mut transport = finish_relay_initiator_handshake(initiator, &buf[..n]).unwrap();
    let mut responder = responder.into_transport_mode().unwrap();
    assert_eq!(seal_relay_packet(&mut transport, b"twelve bytes").unwrap().len(), 12 + 16);
    let mut back = vec![0u8; 64];
    let n = responder.write_message(b"abc", &mut back).unwrap();
    assert_eq!(n, 3 + 16);
    assert_eq!(open_relay_packet(&mut transport, &back[..n]).unwrap().len(), 3);
}
