use hoshi::config::{ClientConfig, ClientConfigFile, ConfigError, default_control_plane_uri, normalize};
use hoshi::noise::{KeyError, decode_base64, encode_base64};

fn file(uri: &str, device: &str, user: Option<&str>) -> ClientConfigFile {
    ClientConfigFile {
        control_plane_uri: uri.to_string(),
        device_noise_static_private_key: device.to_string(),
        user_noise_static_private_key: user.map(|u| u.to_string()),
        noise_static_private_key: None,
    }
}

#[test]
fn blank_settings_get_defaults() {
    let c = normalize(file("", "  ", None), true).unwrap();
    assert_eq!(c.control_plane_uri, "http://127.0.0.1:2600");
    assert_eq!(decode_base64(&c.device_noise_static_private_key).unwrap().len(), 32);
    assert!(c.user_noise_static_private_key.is_none());
    assert!(c.noise_static_private_key.is_none());
    let r = normalize(file(" \t", "", Some("   ")), false).unwrap();
    assert_eq!(r.control_plane_uri, "https://cp.wikinarau.org");
    assert!(r.user_noise_static_private_key.is_none());
    assert_eq!(default_control_plane_uri(true), "http://127.0.0.1:2600");
}

#[test]
fn settings_are_trimmed_and_keys_kept() {
    let device_key = encode_base64(&[3u8; 32]);
    let user_key = encode_base64(&[7u8; 32]);
    let c = normalize(
        file("  http://127.0.0.1:2600  ", &format!("  {device_key}  "), Some(&format!("  {user_key}  "))),
        true,
    )
    .unwrap();
    assert_eq!(c.control_plane_uri, "http://127.0.0.1:2600");
    assert_eq!(c.device_noise_static_private_key, device_key);
    assert_eq!(c.user_noise_static_private_key.as_deref(), Some(user_key.as_str()));
}

#[test]
fn legacy_key_field_is_refused() {
    let mut f = file("http://127.0.0.1:2600", "", None);
    f.noise_static_private_key = Some(encode_base64(&[9u8; 32]));
    match normalize(f, true) {
        Err(e @ ConfigError::LegacyKeyField) => assert!(e.message().contains("noise_static_private_key")),
        other => panic!("unexpected {other:?}"),
    }
}

#[test]
fn bad_keys_are_errors() {
    match normalize(file("x", "not-base64", None), true) {
        Err(ConfigError::Key(KeyError::InvalidBase64 { field })) => {
            assert_eq!(field, "device_noise_static_private_key")
        },
        other => panic!("unexpected {other:?}"),
    }
    match normalize(file("x", &encode_base64(&[1u8; 16]), None), true) {
        Err(ConfigError::Key(KeyError::InvalidLength { field })) => {
            assert_eq!(field, "device_noise_static_private_key")
        },
        other => panic!("unexpected {other:?}"),
    }
    match normalize(file("x", "", Some("%%")), true) {
        Err(e @ ConfigError::Key(KeyError::InvalidBase64 { .. })) => {
            assert_eq!(e.message(), "invalid user_noise_static_private_key base64")
        },
        other => panic!("unexpected {other:?}"),
    }
}

#[test]
fn config_keeps_its_path_and_key_bytes() {
    let key = encode_base64(&[3u8; 32]);
    let c = ClientConfig::new("/tmp/client.toml".to_string(), file("u", &key, None), false).unwrap();
    assert_eq!(c.config_path, "/tmp/client.toml");
    assert_eq!(c.control_plane_uri, "u");
    assert_eq!(c.noise_static_private_key_bytes().unwrap(), [3u8; 32]);
    let f = c.to_file();
    assert_eq!(f.device_noise_static_private_key, key);
    assert!(f.user_noise_static_private_key.is_none());
    assert!(f.noise_static_private_key.is_none());
}

#[test]
fn public_half_of_the_static_key() {
    let private = [7u8; 32];
    let c = ClientConfig::new("p".to_string(), file("u", &encode_base64(&private), None), false).unwrap();
    assert_eq!(c.noise_static_public_key().unwrap(), encode_base64(&hoshi::noise::derive_public_key(&private)));
}
