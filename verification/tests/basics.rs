use hoshi::audio_chunk::{AudioChunk, linear_to_ulaw, ulaw_to_linear};
use hoshi::chat::{ChatMessage, last_message};
use hoshi::contact::{Contact, ContactType};
use hoshi::identity::{HoshiIdentity, SeedError, identity_from_seed_text, parse_seed_hex, extract_ed25519_public_key_hex};
use hoshi::node::{chat_path, peer_key_from_chat_path, user_path};
use hoshi::record::{HoshiPayload, HoshiRecord};
use hoshi::store::Store;

#[test]
fn identity_roundtrip() {
    let identity = HoshiIdentity::generate();
    let seed = identity.seed();
    let restored = HoshiIdentity::from_seed(seed);
    assert_eq!(identity.public_key_hex(), restored.public_key_hex());
}

#[test]
fn public_key_is_64_hex_chars() {
    let identity = HoshiIdentity::generate();
    let hex = identity.public_key_hex();
    assert_eq!(hex.len(), 64);
    assert!(hex.chars().all(|c| c.is_ascii_hexdigit()));
}

#[test]
fn public_key_of_a_known_seed() {
    // RFC 8032, section 7.1, test 1.
    let mut seed = [0u8; 32];
    let hex = "9d61b19deffd5a60ba844af492ec2cc44449c5697b326919703bac031cae7f60";
    for i in 0..32 {
        seed[i] = u8::from_str_radix(&hex[2 * i..2 * i + 2], 16).unwrap();
    }
    assert_eq!(
        HoshiIdentity::from_seed(seed).public_key_hex(),
        "d75a980182b10ab7d54bfed3c964073a0ee172f3daa62325af021a68f707511a"
    );
}

#[test]
fn seed_files() {
    let hex = "9d61b19deffd5a60ba844af492ec2cc44449c5697b326919703bac031cae7f60";
    let seed = parse_seed_hex(hex).unwrap();
    assert_eq!(seed[0], 0x9d);
    assert_eq!(seed[31], 0x60);
    assert_eq!(parse_seed_hex("abcd"), Err(SeedError::Length(4)));
    let bad = "zz61b19deffd5a60ba844af492ec2cc44449c5697b326919703bac031cae7f60";
    assert_eq!(parse_seed_hex(bad), Err(SeedError::InvalidHex));
    assert!(identity_from_seed_text("  \n").is_none());
    let id = identity_from_seed_text(&format!("{hex}\n")).unwrap().unwrap();
    assert_eq!(id.seed(), seed);
    assert!(matches!(identity_from_seed_text("12"), Some(Err(SeedError::Length(2)))));
}

#[test]
fn chat_paths_are_shared_and_reversible() {
    let a = "00ff10";
    let b = "0f0f01";
    assert_eq!(chat_path(a, b), "/chat/0ff011");
    assert_eq!(chat_path(b, a), chat_path(a, b));
    assert_eq!(peer_key_from_chat_path(a, &chat_path(a, b)), Some(b.to_string()));
    assert_eq!(peer_key_from_chat_path(b, "/chat/0ff011/extra"), Some(a.to_string()));
    assert_eq!(peer_key_from_chat_path(a, "/user/00"), None);
    assert_eq!(peer_key_from_chat_path(a, "/chat/0f"), None);
    assert_eq!(user_path("abc"), "/user/abc");
    assert_eq!(ChatMessage::calc_chat_id(a, b), "/chat/0ff011");
}

#[test]
fn latest_message_is_by_time_then_id() {
    let m = |id: &str, t: i64| ChatMessage::new(id.to_string(), t, "a".to_string(), "b".to_string(), id.to_string());
    let msgs = vec![m("b", 5), m("c", 3), m("a", 5)];
    assert_eq!(last_message(&msgs).unwrap().id, "b");
    assert!(last_message(&vec![]).is_none());
    assert!(m("a", 1) < m("a", 2));
    assert!(m("a", 2) < m("b", 2));
    assert!(m("a", 2) == m("a", 2));
    let created = ChatMessage::create("00".to_string(), "01".to_string(), "hi".to_string());
    assert_eq!(created.created_at, 0);
    assert_eq!(created.id.len(), 36);
    assert_eq!(created.chat_id(), "/chat/01");
}

#[test]
fn contacts_and_aliases() {
    let c = Contact::new("k".to_string());
    assert_eq!(c.contact_type, ContactType::Contact);
    assert_eq!(Contact::new_unknown("k".to_string()).contact_type, ContactType::Unknown);
    assert_eq!(c.display_name(Some("Kay".to_string())), "Kay");
    // FNV-1a of "k" picks emoji 12 and 11 of the table.
    let alias = c.display_name(None);
    assert_eq!(alias.chars().count(), 2);
    assert_eq!(alias, Contact::new("k".to_string()).display_name(None));
}

#[test]
fn record_hash_is_blake3_of_its_fields() {
    let r = HoshiRecord::with_id(0x0102, "me".to_string(), HoshiPayload::Text { content: "hi".to_string() });
    let mut bytes = 0x0102u128.to_be_bytes().to_vec();
    bytes.extend_from_slice(b"me");
    bytes.extend_from_slice(b"text");
    bytes.extend_from_slice(b"hi");
    assert_eq!(r.digest_input(), bytes);
    assert_eq!(r.hash(), *blake3::hash(&bytes).as_bytes());
    assert_eq!(r.id(), 0x0102);
}

#[test]
fn ulaw_codec() {
    assert_eq!(linear_to_ulaw(0), 0x7F);
    assert_eq!(linear_to_ulaw(1000), 0x4E);
    assert_eq!(linear_to_ulaw(-1000), 0xCE);
    assert_eq!(ulaw_to_linear(0x4E), 988);
    assert_eq!(ulaw_to_linear(0xCE), -988);
    for code in 0..=255u8 {
        let back = linear_to_ulaw(ulaw_to_linear(code));
        if code == 0xFF {
            assert_eq!(back, 0x7F);
        } else {
            assert_eq!(back, code);
        }
    }
    let chunk = AudioChunk::ULaw { id: "s".to_string(), chunk_offset: 7, sample_rate: 24000, samples: vec![0x4E, 0x7F] };
    assert_eq!(chunk.decode_i16(), vec![988, 0]);
    assert_eq!(chunk.id(), "s");
    assert_eq!(chunk.chunk_offset(), 7);
    assert_eq!(chunk.sample_rate(), 24000);
    assert_eq!(chunk.samples(), &[0x4E, 0x7F]);
}

#[test]
fn cert_contains_correct_public_key() {
    let identity = HoshiIdentity::generate();
    let (cert_der, _) = identity.generate_self_signed_cert().unwrap();
    let extracted = extract_ed25519_public_key_hex(cert_der.as_ref()).unwrap();
    assert_eq!(extracted, identity.public_key_hex());
}

#[test]
fn certificates_are_a_function_of_the_key() {
    let identity = HoshiIdentity::from_seed([11u8; 32]);
    let (a, key_a) = identity.generate_self_signed_cert().unwrap();
    let (b, key_b) = identity.generate_self_signed_cert().unwrap();
    assert_eq!(a, b);
    assert_eq!(key_a, key_b);
    assert_eq!(extract_ed25519_public_key_hex(b"not a certificate"), None);
}
