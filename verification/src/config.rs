//! The client's settings: where the control plane is, and the client's static Noise keys.
use vstd::prelude::*;
use crate::identity::random_seed;
use crate::noise::{KeyError, base64_decode, base64_encode, canonicalize_base64_32, decode_base64_32, derive_public_key, encode_base64, x25519_public};
use crate::text::{trim_spec, trim_str};

verus! {

/// The control plane a build talks to when its settings name none: a local one for debug
/// builds, the public one otherwise.
pub open spec fn default_uri_spec(debug_build: bool) -> Seq<char> {
    if debug_build {
        "http://127.0.0.1:2600"@
    } else {
        "https://cp.wikinarau.org"@
    }
}

/// The control plane a build talks to when its settings name none.
pub fn default_control_plane_uri(debug_build: bool) -> (r: String)
    ensures
        r@ == default_uri_spec(debug_build),
{
    if debug_build {
        String::from_str("http://127.0.0.1:2600")
    } else {
        String::from_str("https://cp.wikinarau.org")
    }
}

/// The settings as the settings file holds them. `noise_static_private_key` is the field
/// older clients wrote; a file that still holds it is refused.
#[derive(Debug, Clone)]
pub struct ClientConfigFile {
    pub control_plane_uri: String,
    pub device_noise_static_private_key: String,
    pub user_noise_static_private_key: Option<String>,
    pub noise_static_private_key: Option<String>,
}

/// The client's settings.
#[derive(Debug, Clone)]
pub struct ClientConfig {
    pub config_path: String,
    pub control_plane_uri: String,
    pub device_noise_static_private_key: String,
    pub user_noise_static_private_key: Option<String>,
}

/// Why a settings file was refused.
#[derive(Debug)]
pub enum ConfigError {
    /// The file holds the old `noise_static_private_key` field.
    LegacyKeyField,
    /// A key field is not the base64 of 32 bytes.
    Key(KeyError),
}

impl ConfigError {
    /// The message of the error.
    pub fn message(&self) -> (r: String)
        ensures
            r@ == match self {
                ConfigError::LegacyKeyField => legacy_field_message(),
                ConfigError::Key(e) => key_error_message(*e),
            },
    {
        match self {
            ConfigError::LegacyKeyField => String::from_str(
                "the noise_static_private_key field is no longer supported; use device_noise_static_private_key",
            ),
            ConfigError::Key(e) => e.message(),
        }
    }
}

/// The message of a refused legacy key field.
pub open spec fn legacy_field_message() -> Seq<char> {
    "the noise_static_private_key field is no longer supported; use device_noise_static_private_key"@
}

/// The message of a key error.
pub open spec fn key_error_message(e: KeyError) -> Seq<char> {
    match e {
        KeyError::Base64(m) => m@,
        KeyError::InvalidBase64 { field } => "invalid "@ + field@ + " base64"@,
        KeyError::InvalidLength { field } => "invalid "@ + field@ + " length"@,
    }
}

/// A new static Noise key: 32 random bytes in base64.
fn generate_noise_static_private_key() -> (r: String)
    ensures
        exists|k: Seq<u8>| k.len() == 32 && r@ == base64_encode(k),
{
    let key = random_seed();
    encode_base64(&key)
}

/// The URI the settings end up with: the file's, trimmed, or the default when blank.
pub open spec fn normalized_uri(file_uri: Seq<char>, debug_build: bool) -> Seq<char> {
    if trim_spec(file_uri).len() == 0 {
        default_uri_spec(debug_build)
    } else {
        trim_spec(file_uri)
    }
}

/// True when a key field can be used: it is blank or it is the base64 of 32 bytes.
pub open spec fn key_accepted(key_text: Seq<char>) -> bool {
    let t = trim_spec(key_text);
    t.len() == 0 || (base64_decode(t) matches Some(v) && v.len() == 32)
}

/// True when the file holds no legacy field and each key field it holds can be used.
pub open spec fn file_accepted(file: ClientConfigFile) -> bool {
    &&& file.noise_static_private_key is None
    &&& key_accepted(file.device_noise_static_private_key@)
    &&& (file.user_noise_static_private_key matches Some(u) ==> key_accepted(u@))
}

/// True when `key` is what the device key field normalizes to: the trimmed key (already
/// canonical base64), or some new 32-byte key when it was blank.
pub open spec fn device_key_ok(key_text: Seq<char>, key: Seq<char>) -> bool {
    let t = trim_spec(key_text);
    if t.len() == 0 {
        exists|k: Seq<u8>| k.len() == 32 && key == base64_encode(k)
    } else {
        key == t
    }
}

/// What the user key field normalizes to: absent when it is missing or blank, else the
/// trimmed key.
pub open spec fn normalized_user_key(user: Option<Seq<char>>) -> Option<Seq<char>> {
    match user {
        None => None,
        Some(u) => if trim_spec(u).len() == 0 { None } else { Some(trim_spec(u)) },
    }
}

/// The views of an optional key.
pub open spec fn opt_view(k: Option<String>) -> Option<Seq<char>> {
    match k {
        Some(s) => Some(s@),
        None => None,
    }
}

/// True when `e` is the error a key field named `field` holding `key_text` gets.
pub open spec fn key_err(key_text: Seq<char>, field: Seq<char>, e: KeyError) -> bool {
    let t = trim_spec(key_text);
    match base64_decode(t) {
        None => e matches KeyError::InvalidBase64 { field: f } && f@ == field,
        Some(v) => v.len() != 32 && (e matches KeyError::InvalidLength { field: f } && f@ == field),
    }
}

/// True when `e` is the error a refused file gets: the legacy field first, then the device
/// key, then the user key.
pub open spec fn normalized_err(file: ClientConfigFile, e: ConfigError) -> bool {
    if file.noise_static_private_key is Some {
        e is LegacyKeyField
    } else if !key_accepted(file.device_noise_static_private_key@) {
        e matches ConfigError::Key(k)
            && key_err(file.device_noise_static_private_key@, "device_noise_static_private_key"@, k)
    } else {
        &&& file.user_noise_static_private_key matches Some(u)
        &&& e matches ConfigError::Key(k) && key_err(u@, "user_noise_static_private_key"@, k)
    }
}

/// True when `c` is what an accepted file normalizes to.
pub open spec fn normalized_ok(file: ClientConfigFile, debug_build: bool, c: ClientConfigFile) -> bool {
    &&& c.control_plane_uri@ == normalized_uri(file.control_plane_uri@, debug_build)
    &&& device_key_ok(file.device_noise_static_private_key@, c.device_noise_static_private_key@)
    &&& opt_view(c.user_noise_static_private_key) == normalized_user_key(opt_view(file.user_noise_static_private_key))
    &&& c.noise_static_private_key is None
}

/// The settings file made whole: the URI trimmed, or the default when it is blank; the
/// device key trimmed and put in canonical base64, or a new random key when it is blank;
/// the user key trimmed and canonical, or dropped when it is blank. A file that still holds
/// the old `noise_static_private_key` field is refused, and so is a key that is not the
/// base64 of 32 bytes.
pub fn normalize(file: ClientConfigFile, debug_build: bool) -> (r: Result<ClientConfigFile, ConfigError>)
    ensures
        r is Ok <==> file_accepted(file),
        r matches Ok(c) ==> normalized_ok(file, debug_build, c),
        r matches Err(e) ==> normalized_err(file, e),
{
    if file.noise_static_private_key.is_some() {
        return Err(ConfigError::LegacyKeyField);
    }
    let uri_trimmed = trim_str(file.control_plane_uri.as_str());
    let control_plane_uri = if uri_trimmed.is_empty() {
        default_control_plane_uri(debug_build)
    } else {
        uri_trimmed.to_string()
    };
    let device_trimmed = trim_str(file.device_noise_static_private_key.as_str());
    proof {
        reveal_strlit("device_noise_static_private_key");
        reveal_strlit("user_noise_static_private_key");
    }
    let device_noise_static_private_key = if device_trimmed.is_empty() {
        generate_noise_static_private_key()
    } else {
        match canonicalize_base64_32(device_trimmed, "device_noise_static_private_key") {
            Ok(k) => k,
            Err(e) => return Err(ConfigError::Key(e)),
        }
    };
    let user_noise_static_private_key = match &file.user_noise_static_private_key {
        None => None,
        Some(u) => {
            let user_trimmed = trim_str(u.as_str());
            if user_trimmed.is_empty() {
                None
            } else {
                match canonicalize_base64_32(user_trimmed, "user_noise_static_private_key") {
                    Ok(k) => Some(k),
                    Err(e) => return Err(ConfigError::Key(e)),
                }
            }
        },
    };
    Ok(ClientConfigFile {
        control_plane_uri,
        device_noise_static_private_key,
        user_noise_static_private_key,
        noise_static_private_key: None,
    })
}

impl ClientConfig {
    /// The settings kept at `config_path`, made whole from what the file holds (a missing
    /// file holds blank fields).
    pub fn new(config_path: String, file: ClientConfigFile, debug_build: bool) -> (r: Result<Self, ConfigError>)
        ensures
            r is Ok <==> file_accepted(file),
            r matches Ok(c) ==> c.config_path == config_path && normalized_ok(file, debug_build, c.to_file_spec()),
            r matches Err(e) ==> normalized_err(file, e),
    {
        let normalized = normalize(file, debug_build)?;
        Ok(ClientConfig {
            config_path,
            control_plane_uri: normalized.control_plane_uri,
            device_noise_static_private_key: normalized.device_noise_static_private_key,
            user_noise_static_private_key: normalized.user_noise_static_private_key,
        })
    }

    /// The settings as the file holds them.
    pub open spec fn to_file_spec(self) -> ClientConfigFile {
        ClientConfigFile {
            control_plane_uri: self.control_plane_uri,
            device_noise_static_private_key: self.device_noise_static_private_key,
            user_noise_static_private_key: self.user_noise_static_private_key,
            noise_static_private_key: None,
        }
    }

    /// The settings as the file should hold them: no legacy field, and no user key when
    /// there is none.
    pub fn to_file(&self) -> (r: ClientConfigFile)
        ensures
            r.control_plane_uri@ == self.control_plane_uri@,
            r.device_noise_static_private_key@ == self.device_noise_static_private_key@,
            opt_view(r.user_noise_static_private_key) == opt_view(self.user_noise_static_private_key),
            r.noise_static_private_key is None,
    {
        let user_noise_static_private_key = match &self.user_noise_static_private_key {
            Some(u) => Some(u.clone()),
            None => None,
        };
        ClientConfigFile {
            control_plane_uri: self.control_plane_uri.clone(),
            device_noise_static_private_key: self.device_noise_static_private_key.clone(),
            user_noise_static_private_key,
            noise_static_private_key: None,
        }
    }

    /// The public half of the device's static Noise key, in base64.
    pub fn noise_static_public_key(&self) -> (r: Result<String, KeyError>)
        ensures
            match base64_decode(self.device_noise_static_private_key@) {
                Some(v) => if v.len() == 32 {
                    r matches Ok(s) && s@ == base64_encode(x25519_public(v))
                } else {
                    r is Err
                },
                None => r is Err,
            },
    {
        let private = decode_base64_32(self.device_noise_static_private_key.as_str(), "device_noise_static_private_key")?;
        let public = derive_public_key(&private);
        Ok(encode_base64(&public))
    }

    /// The 32 bytes of the device's static Noise key.
    pub fn noise_static_private_key_bytes(&self) -> (r: Result<[u8; 32], KeyError>)
        ensures
            match base64_decode(self.device_noise_static_private_key@) {
                Some(v) => if v.len() == 32 { r matches Ok(k) && k@ == v } else { r is Err },
                None => r is Err,
            },
    {
        decode_base64_32(self.device_noise_static_private_key.as_str(), "device_noise_static_private_key")
    }
}

} // verus!
