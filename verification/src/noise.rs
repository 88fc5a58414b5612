//! Keys as the control plane and the clients exchange them: 32-byte X25519 keys in
//! standard, padded base64.
use vstd::prelude::*;

verus! {

/// The character of a six-bit value in the standard base64 alphabet: `A`-`Z`, `a`-`z`,
/// `0`-`9`, `+`, `/`.
pub open spec fn base64_char(v: int) -> char {
    if v < 26 {
        (65 + v) as char
    } else if v < 52 {
        (97 + v - 26) as char
    } else if v < 62 {
        (48 + v - 52) as char
    } else if v == 62 {
        '+'
    } else {
        '/'
    }
}

/// The standard, padded base64 text of some bytes (`base64::engine::general_purpose::STANDARD`):
/// each three bytes become four characters of six bits each, and a last group of one or
/// two bytes is padded with `=` to four characters.
pub open spec fn base64_encode(bytes: Seq<u8>) -> Seq<char>
    decreases bytes.len(),
{
    if bytes.len() == 0 {
        Seq::empty()
    } else if bytes.len() == 1 {
        let a = bytes[0] as int;
        seq![base64_char(a / 4), base64_char((a % 4) * 16), '=', '=']
    } else if bytes.len() == 2 {
        let a = bytes[0] as int;
        let b = bytes[1] as int;
        seq![base64_char(a / 4), base64_char((a % 4) * 16 + b / 16), base64_char((b % 16) * 4), '=']
    } else {
        let a = bytes[0] as int;
        let b = bytes[1] as int;
        let c = bytes[2] as int;
        seq![base64_char(a / 4), base64_char((a % 4) * 16 + b / 16), base64_char((b % 16) * 4 + c / 64), base64_char(c % 64)]
            + base64_encode(bytes.subrange(3, bytes.len() as int))
    }
}

/// What the standard, padded base64 engine decodes a text to, when it accepts it.
pub uninterp spec fn base64_decode(text: Seq<char>) -> Option<Seq<u8>>;

/// `STANDARD.encode`: the base64 text of the bytes. Decoding it gives the bytes back.
#[verifier::external_body]
pub fn encode_base64(value: &[u8]) -> (r: String)
    requires
        value@.len() <= usize::MAX / 2,
    ensures
        r@ == base64_encode(value@),
        base64_decode(r@) == Some(value@),
{
    base64::Engine::encode(&base64::engine::general_purpose::STANDARD, value)
}

/// `STANDARD.decode`: the bytes a base64 text stands for, or the decoder's error as text.
/// The engine requires canonical padding and rejects trailing bits, so a text it accepts
/// is the encoding of what it decodes to; every four characters decode to at most three
/// bytes.
#[verifier::external_body]
fn decode_base64_text(value: &str) -> (r: Result<Vec<u8>, String>)
    ensures
        r matches Ok(v) ==> base64_decode(value@) == Some(v@) && base64_encode(v@) == value@ && v@.len() <= value@.len(),
        r is Err ==> base64_decode(value@) is None,
{
    match base64::Engine::decode(&base64::engine::general_purpose::STANDARD, value) {
        Ok(v) => Ok(v),
        Err(err) => Err(format!("invalid base64: {err}")),
    }
}

/// The X25519 public key of a private key: the private key times the base point.
pub uninterp spec fn x25519_public(private_key: Seq<u8>) -> Seq<u8>;

/// `x25519(private_key, X25519_BASEPOINT_BYTES)`: the public key of an X25519 private key.
#[verifier::external_body]
pub fn derive_public_key(private_key: &[u8; 32]) -> (r: [u8; 32])
    ensures
        r@ == x25519_public(private_key@),
{
    x25519_dalek::x25519(*private_key, x25519_dalek::X25519_BASEPOINT_BYTES)
}

/// Why a key could not be read.
#[derive(Debug)]
pub enum KeyError {
    /// The text is not base64; the decoder's message.
    Base64(String),
    /// The named field is not base64.
    InvalidBase64 { field: String },
    /// The named field does not decode to 32 bytes.
    InvalidLength { field: String },
}

impl KeyError {
    /// The message of the error.
    pub fn message(&self) -> (r: String)
        ensures
            r@ == match self {
                KeyError::Base64(m) => m@,
                KeyError::InvalidBase64 { field } => "invalid "@ + field@ + " base64"@,
                KeyError::InvalidLength { field } => "invalid "@ + field@ + " length"@,
            },
    {
        match self {
            KeyError::Base64(m) => m.clone(),
            KeyError::InvalidBase64 { field } => {
                let mut s = String::from_str("invalid ");
                s.append(field.as_str());
                s.append(" base64");
                s
            },
            KeyError::InvalidLength { field } => {
                let mut s = String::from_str("invalid ");
                s.append(field.as_str());
                s.append(" length");
                s
            },
        }
    }
}

/// The bytes a base64 text stands for.
pub fn decode_base64(value: &str) -> (r: Result<Vec<u8>, KeyError>)
    ensures
        r matches Ok(v) ==> base64_decode(value@) == Some(v@) && base64_encode(v@) == value@ && v@.len() <= value@.len(),
        r is Err ==> base64_decode(value@) is None && r matches Err(KeyError::Base64(_)),
{
    match decode_base64_text(value) {
        Ok(v) => Ok(v),
        Err(m) => Err(KeyError::Base64(m)),
    }
}

/// The 32-byte key a base64 field holds: an error names the field when the text is not
/// base64 or does not decode to 32 bytes.
pub fn decode_base64_32(value: &str, field: &str) -> (r: Result<[u8; 32], KeyError>)
    ensures
        match base64_decode(value@) {
            None => r matches Err(KeyError::InvalidBase64 { field: f }) && f@ == field@,
            Some(v) => if v.len() == 32 {
                r matches Ok(k) && k@ == v
            } else {
                r matches Err(KeyError::InvalidLength { field: f }) && f@ == field@
            },
        },
        r matches Ok(k) ==> base64_encode(k@) == value@,
{
    match decode_base64_text(value) {
        Err(_) => Err(KeyError::InvalidBase64 { field: field.to_string() }),
        Ok(v) => {
            if v.len() != 32 {
                return Err(KeyError::InvalidLength { field: field.to_string() });
            }
            Ok(key_from_bytes(&v))
        },
    }
}

/// A 32-byte key holding the bytes of `v`.
pub(crate) fn key_from_bytes(v: &Vec<u8>) -> (r: [u8; 32])
    requires
        v@.len() == 32,
    ensures
        r@ == v@,
{
    let mut key = [0u8; 32];
    let mut i: usize = 0;
    while i < 32
        invariant
            i <= 32,
            v@.len() == 32,
            forall|k: int| 0 <= k < i ==> key@[k] == v@[k],
        decreases 32 - i,
    {
        key[i] = v[i];
        i += 1;
    }
    assert(key@ =~= v@);
    key
}

/// The canonical base64 form of a 32-byte key field.
pub fn canonicalize_base64_32(value: &str, field: &str) -> (r: Result<String, KeyError>)
    ensures
        match base64_decode(value@) {
            None => r matches Err(KeyError::InvalidBase64 { field: f }) && f@ == field@,
            Some(v) => if v.len() == 32 {
                r matches Ok(s) && s@ == base64_encode(v)
            } else {
                r matches Err(KeyError::InvalidLength { field: f }) && f@ == field@
            },
        },
        r matches Ok(s) ==> s@ == value@,
{
    let key = decode_base64_32(value, field)?;
    Ok(encode_base64(&key))
}

/// Why a Noise operation failed.
#[derive(Debug)]
pub enum NoiseError {
    /// A key could not be read.
    Key(KeyError),
    /// The handshake could not be built or written.
    Handshake,
    /// The message could not be read or decrypted.
    Decrypt,
    /// The message was read but did not finish the handshake.
    Unfinished,
}

/// True when `message` is a `Noise_N` message carrying `payload` to the holder of the key
/// `recipient`: it is 48 bytes longer than the payload (the ephemeral key and the tag),
/// and every responder whose private key has that public key reads the payload back
/// from it, into any buffer that can hold the payload, and finishes the handshake.
pub open spec fn n_sealed_for(recipient: Seq<u8>, message: Seq<u8>, payload: Seq<u8>) -> bool {
    &&& message.len() == payload.len() + 48
    &&& forall|sk: Seq<u8>, out_len: nat|
        #![trigger noise_n_read(sk, message, out_len)]
        sk.len() == 32 && x25519_public(sk) == recipient && out_len >= payload.len()
            ==> noise_n_read(sk, message, out_len) == Some((payload, true))
}

/// A `Noise_N_25519_ChaChaPoly_BLAKE2s` initiator toward `recipient_public_key`
/// (`snow::Builder::remote_public_key`, `build_initiator`) writing `payload` as its one
/// handshake message (`write_message`). The message holds a fresh ephemeral key, so its
/// bytes are not stated. snow writes the ephemeral key (32 bytes) and the payload with a
/// 16-byte tag, and refuses only a message over 65535 bytes; the ephemeral-static
/// Diffie-Hellman value is the one a responder with the recipient's private key works
/// out, so it reads the payload back.
#[verifier::external_body]
fn noise_n_seal(recipient_public_key: &[u8; 32], payload: &[u8]) -> (r: Option<Vec<u8>>)
    requires
        payload@.len() <= usize::MAX - 256,
    ensures
        r is Some <==> payload@.len() + 48 <= 65535,
        r matches Some(m) ==> n_sealed_for(recipient_public_key@, m@, payload@),
{
    let params: snow::params::NoiseParams = match "Noise_N_25519_ChaChaPoly_BLAKE2s".parse() {
        Ok(p) => p,
        Err(_) => return None,
    };
    let mut initiator = match snow::Builder::new(params).remote_public_key(recipient_public_key).build_initiator() {
        Ok(i) => i,
        Err(_) => return None,
    };
    let mut message = vec![0u8; payload.len() + 256];
    match initiator.write_message(payload, &mut message) {
        Ok(n) => Some(message[..n].to_vec()),
        Err(_) => None,
    }
}

/// What a `Noise_N` responder with this static private key reads from a message, given a
/// payload buffer of `out_len` bytes: the payload and whether the handshake finished;
/// `None` when it rejects the message.
pub uninterp spec fn noise_n_read(private_key: Seq<u8>, message: Seq<u8>, out_len: nat) -> Option<(Seq<u8>, bool)>;

/// A `Noise_N_25519_ChaChaPoly_BLAKE2s` responder with this static key
/// (`snow::Builder::local_private_key`, `build_responder`) reading one message into a
/// buffer of `out_len` bytes (`read_message`), then asked whether the handshake finished.
/// Reading is a function of the key and the message; the contract names its outcome.
#[verifier::external_body]
fn noise_n_open(private_key: &[u8; 32], message: &[u8], out_len: usize) -> (r: Option<(Vec<u8>, bool)>)
    ensures
        match r {
            Some((p, f)) => noise_n_read(private_key@, message@, out_len as nat) == Some((p@, f)),
            None => noise_n_read(private_key@, message@, out_len as nat) is None,
        },
{
    let params: snow::params::NoiseParams = match "Noise_N_25519_ChaChaPoly_BLAKE2s".parse() {
        Ok(p) => p,
        Err(_) => return None,
    };
    let mut responder = match snow::Builder::new(params).local_private_key(private_key).build_responder() {
        Ok(r) => r,
        Err(_) => return None,
    };
    let mut payload = vec![0u8; out_len];
    match responder.read_message(message, &mut payload) {
        Ok(n) => Some((payload[..n].to_vec(), responder.is_handshake_finished())),
        Err(_) => None,
    }
}

/// Encrypts a payload end to end for the holder of the key `recipient_public_key_b64`
/// names: a one-message Noise `N` handshake carrying the payload. It fails only on a key
/// that is not the base64 of 32 bytes, or on a payload too large for one Noise message.
pub fn encrypt_e2ee_payload(recipient_public_key_b64: &str, payload: &[u8]) -> (r: Result<Vec<u8>, NoiseError>)
    requires
        payload@.len() <= usize::MAX - 256,
    ensures
        match base64_decode(recipient_public_key_b64@) {
            None => r matches Err(NoiseError::Key(KeyError::InvalidBase64 { field: f })) && f@ == "recipient_public_key"@,
            Some(v) => if v.len() != 32 {
                r matches Err(NoiseError::Key(KeyError::InvalidLength { field: f })) && f@ == "recipient_public_key"@
            } else if payload@.len() + 48 <= 65535 {
                r matches Ok(m) && n_sealed_for(v, m@, payload@)
            } else {
                r matches Err(NoiseError::Handshake)
            },
        },
{
    proof {
        reveal_strlit("recipient_public_key");
    }
    let key = match decode_base64_32(recipient_public_key_b64, "recipient_public_key") {
        Ok(k) => k,
        Err(e) => return Err(NoiseError::Key(e)),
    };
    match noise_n_seal(&key, payload) {
        Some(m) => Ok(m),
        None => Err(NoiseError::Handshake),
    }
}

/// The payload buffer a message is read into: as long as the message, at least one byte.
pub open spec fn open_buffer_len(message_len: nat) -> nat {
    if message_len >= 1 { message_len } else { 1 }
}

/// Decrypts a payload sent end to end to the holder of `local_private_key`.
pub fn decrypt_e2ee_payload(local_private_key: &[u8; 32], message: &[u8]) -> (r: Result<Vec<u8>, NoiseError>)
    ensures
        match noise_n_read(local_private_key@, message@, open_buffer_len(message@.len())) {
            None => r matches Err(NoiseError::Decrypt),
            Some((p, finished)) => if finished {
                r matches Ok(v) && v@ == p
            } else {
                r matches Err(NoiseError::Unfinished)
            },
        },
{
    let out_len = if message.len() >= 1 { message.len() } else { 1 };
    match noise_n_open(local_private_key, message, out_len) {
        None => Err(NoiseError::Decrypt),
        Some((p, finished)) => {
            if !finished {
                return Err(NoiseError::Unfinished);
            }
            Ok(p)
        },
    }
}

/// What a Noise `X` responder with this static private key reads from a handshake
/// message, given a payload buffer of `out_len` bytes: the payload, whether the
/// handshake finished, and the initiator's static key; `None` when it rejects it.
pub uninterp spec fn noise_x_read(private_key: Seq<u8>, message: Seq<u8>, out_len: nat) -> Option<(Seq<u8>, bool, Option<Seq<u8>>)>;

/// True when `message` is a `Noise_X` message from the holder of `sender_private_key`
/// carrying `payload` to the holder of the key `recipient`: it is 96 bytes longer than the
/// payload (the ephemeral key, the sender's encrypted static key and the tags), and every
/// responder whose private key has that public key reads the payload back from it, into
/// any buffer that can hold the payload, finishes the handshake and learns the sender's
/// public key.
pub open spec fn x_sealed_for(sender_private_key: Seq<u8>, recipient: Seq<u8>, message: Seq<u8>, payload: Seq<u8>) -> bool {
    &&& message.len() == payload.len() + 96
    &&& forall|sk: Seq<u8>, out_len: nat|
        #![trigger noise_x_read(sk, message, out_len)]
        sk.len() == 32 && x25519_public(sk) == recipient && out_len >= payload.len()
            ==> noise_x_read(sk, message, out_len) == Some((payload, true, Some(x25519_public(sender_private_key))))
}

/// What is encrypted end to end for a key decrypts, with the private key behind it, to
/// the payload: `decrypt_e2ee_payload(sk, m)` is `Ok(payload)` for every `m` that
/// `encrypt_e2ee_payload` returns for the public key of `sk`.
pub proof fn law_e2ee_round_trip(private_key: Seq<u8>, message: Seq<u8>, payload: Seq<u8>)
    requires
        private_key.len() == 32,
        n_sealed_for(x25519_public(private_key), message, payload),
    ensures
        noise_n_read(private_key, message, open_buffer_len(message.len())) == Some((payload, true)),
{
    assert(noise_n_read(private_key, message, open_buffer_len(message.len())) == Some((payload, true)));
}

/// A `Noise_X_25519_ChaChaPoly_BLAKE2s` initiator with this static key toward
/// `remote_public_key` writing `payload` as its one handshake message. The message holds
/// a fresh ephemeral key, so its bytes are not stated. snow writes the ephemeral key (32
/// bytes), the initiator's static public key with a tag (48) and the payload with a tag,
/// and refuses only a message over 65535 bytes; a responder with the remote's private key
/// works out the same Diffie-Hellman values, so it reads the payload and the initiator's
/// public key back.
#[verifier::external_body]
fn noise_x_seal(local_private_key: &[u8; 32], remote_public_key: &[u8; 32], payload: &[u8]) -> (r: Option<Vec<u8>>)
    requires
        payload@.len() <= usize::MAX - 256,
    ensures
        r is Some <==> payload@.len() + 96 <= 65535,
        r matches Some(m) ==> x_sealed_for(local_private_key@, remote_public_key@, m@, payload@),
{
    let params: snow::params::NoiseParams = match "Noise_X_25519_ChaChaPoly_BLAKE2s".parse() {
        Ok(p) => p,
        Err(_) => return None,
    };
    let mut initiator = match snow::Builder::new(params).local_private_key(local_private_key).remote_public_key(remote_public_key).build_initiator() {
        Ok(i) => i,
        Err(_) => return None,
    };
    let mut message = vec![0u8; payload.len() + 256];
    match initiator.write_message(payload, &mut message) {
        Ok(n) => Some(message[..n].to_vec()),
        Err(_) => None,
    }
}

/// The handshake a client registers with: a Noise `X` message to the control plane's key
/// (`remote_public_key_b64`), proving the client's static key and carrying `payload`. It
/// fails only on a key that is not the base64 of 32 bytes, or on a payload too large for
/// one Noise message.
pub fn create_registration_handshake(local_private_key: &[u8; 32], remote_public_key_b64: &str, payload: &[u8]) -> (r: Result<Vec<u8>, NoiseError>)
    requires
        payload@.len() <= usize::MAX - 256,
    ensures
        match base64_decode(remote_public_key_b64@) {
            None => r matches Err(NoiseError::Key(KeyError::InvalidBase64 { field: f })) && f@ == "public_key"@,
            Some(v) => if v.len() != 32 {
                r matches Err(NoiseError::Key(KeyError::InvalidLength { field: f })) && f@ == "public_key"@
            } else if payload@.len() + 96 <= 65535 {
                r matches Ok(m) && x_sealed_for(local_private_key@, v, m@, payload@)
            } else {
                r matches Err(NoiseError::Handshake)
            },
        },
{
    proof {
        reveal_strlit("public_key");
    }
    let key = match decode_base64_32(remote_public_key_b64, "public_key") {
        Ok(k) => k,
        Err(e) => return Err(NoiseError::Key(e)),
    };
    match noise_x_seal(local_private_key, &key, payload) {
        Some(m) => Ok(m),
        None => Err(NoiseError::Handshake),
    }
}

/// A Noise handshake in progress (`snow::HandshakeState`); opaque here.
#[verifier::external_type_specification]
#[verifier::external_body]
pub struct ExHandshakeState(snow::HandshakeState);

/// A finished Noise session's transport state (`snow::TransportState`); opaque here.
#[verifier::external_type_specification]
#[verifier::external_body]
pub struct ExTransportState(snow::TransportState);

/// A `Noise_NK_25519_ChaChaPoly_BLAKE2s` initiator toward `relay_public_key`
/// (`snow::Builder::remote_public_key`, `build_initiator`) that has written its first
/// handshake message with an empty payload into a 256-byte buffer (`write_message`). The
/// message holds a fresh ephemeral key, so its bytes are not stated; snow writes the
/// ephemeral key (32 bytes) and the empty payload's 16-byte tag, and nothing in it fails.
#[verifier::external_body]
fn noise_nk_initiate(relay_public_key: &[u8; 32]) -> (r: Option<(snow::HandshakeState, Vec<u8>)>)
    ensures
        r is Some,
        r matches Some((_, m)) ==> m@.len() == 48,
{
    let params: snow::params::NoiseParams = match "Noise_NK_25519_ChaChaPoly_BLAKE2s".parse() {
        Ok(p) => p,
        Err(_) => return None,
    };
    let mut initiator = match snow::Builder::new(params).remote_public_key(relay_public_key).build_initiator() {
        Ok(i) => i,
        Err(_) => return None,
    };
    let mut message = vec![0u8; 256];
    match initiator.write_message(&[], &mut message) {
        Ok(n) => Some((initiator, message[..n].to_vec())),
        Err(_) => None,
    }
}

/// `HandshakeState::read_message` of one message into a payload buffer of `out_len`
/// bytes: the payload's length, or `None` when the state rejects the message. The outcome
/// rests on the ephemeral secret inside the state, which is opaque here, so it is not
/// named; the source shows that a message over 65535 bytes is rejected before it is read.
#[verifier::external_body]
fn noise_read_message(state: &mut snow::HandshakeState, message: &[u8], out_len: usize) -> (r: Option<usize>)
    ensures
        message@.len() > 65535 ==> r is None,
{
    let mut payload = vec![0u8; out_len];
    match state.read_message(message, &mut payload) {
        Ok(n) => Some(n),
        Err(_) => None,
    }
}

/// `HandshakeState::is_handshake_finished`: whether every message of the pattern has
/// been written or read. It reads the opaque state, so nothing is stated of it.
#[verifier::external_body]
fn noise_handshake_finished(state: &snow::HandshakeState) -> (r: bool) {
    state.is_handshake_finished()
}

/// `HandshakeState::into_transport_mode`: the session's transport state, or `None` when
/// snow refuses the switch. It reads the opaque state, so nothing is stated of it.
#[verifier::external_body]
fn noise_into_transport(state: snow::HandshakeState) -> (r: Option<snow::TransportState>) {
    match state.into_transport_mode() {
        Ok(t) => Some(t),
        Err(_) => None,
    }
}

/// Opens a session with a relay: a Noise `NK` initiator toward the relay's key
/// (`relay_public_key_b64`) and the first handshake message it sends (48 bytes). It fails
/// only on a key that is not the base64 of 32 bytes.
pub fn create_relay_initiator_handshake(relay_public_key_b64: &str) -> (r: Result<(snow::HandshakeState, Vec<u8>), NoiseError>)
    ensures
        match base64_decode(relay_public_key_b64@) {
            None => r matches Err(NoiseError::Key(KeyError::InvalidBase64 { field: f })) && f@ == "public_key"@,
            Some(v) => if v.len() != 32 {
                r matches Err(NoiseError::Key(KeyError::InvalidLength { field: f })) && f@ == "public_key"@
            } else {
                r matches Ok((_, m)) && m@.len() == 48
            },
        },
{
    proof {
        reveal_strlit("public_key");
    }
    let key = match decode_base64_32(relay_public_key_b64, "public_key") {
        Ok(k) => k,
        Err(e) => return Err(NoiseError::Key(e)),
    };
    match noise_nk_initiate(&key) {
        Some(started) => Ok(started),
        None => Err(NoiseError::Handshake),
    }
}

/// Finishes a session with a relay: reads the relay's reply into a buffer as long as the
/// reply (at least one byte), requires the handshake to be over, and switches to
/// transport mode. A reply snow rejects is `Decrypt`, one that leaves the handshake open
/// is `Unfinished`, a refused switch is `Handshake`.
pub fn finish_relay_initiator_handshake(initiator: snow::HandshakeState, response_message: &[u8]) -> (r: Result<snow::TransportState, NoiseError>)
    ensures
        response_message@.len() > 65535 ==> r matches Err(NoiseError::Decrypt),
        r matches Err(e) ==> (e matches NoiseError::Decrypt || e matches NoiseError::Unfinished || e matches NoiseError::Handshake),
{
    let mut state = initiator;
    let out_len = if response_message.len() >= 1 { response_message.len() } else { 1 };
    if noise_read_message(&mut state, response_message, out_len).is_none() {
        return Err(NoiseError::Decrypt);
    }
    if !noise_handshake_finished(&state) {
        return Err(NoiseError::Unfinished);
    }
    match noise_into_transport(state) {
        Some(t) => Ok(t),
        None => Err(NoiseError::Handshake),
    }
}

/// `TransportState::write_message` of a payload into a buffer 1024 bytes longer than the
/// payload: the ciphertext, or `None` when snow refuses. The ciphertext rests on the
/// session keys and nonce inside the opaque state, so its bytes are not named, nor is
/// whether the nonce is used up; the source shows that the ciphertext is the payload and
/// a 16-byte tag, and that one that would pass 65535 bytes is refused.
#[verifier::external_body]
fn transport_write(transport: &mut snow::TransportState, payload: &[u8]) -> (r: Option<Vec<u8>>)
    requires
        payload@.len() <= usize::MAX - 1024,
    ensures
        payload@.len() + 16 > 65535 ==> r is None,
        r matches Some(c) ==> c@.len() == payload@.len() + 16,
{
    let mut message = vec![0u8; payload.len() + 1024];
    match transport.write_message(payload, &mut message) {
        Ok(n) => Some(message[..n].to_vec()),
        Err(_) => None,
    }
}

/// `TransportState::read_message` of a message into a buffer of `out_len` bytes: the
/// plaintext, or `None` when it does not decrypt. It rests on the opaque session state,
/// so it is not named; the source shows that a message over 65535 bytes is refused and
/// that a plaintext is the message without its 16-byte tag.
#[verifier::external_body]
fn transport_read(transport: &mut snow::TransportState, message: &[u8], out_len: usize) -> (r: Option<Vec<u8>>)
    ensures
        message@.len() > 65535 ==> r is None,
        r matches Some(p) ==> p@.len() + 16 == message@.len(),
{
    let mut payload = vec![0u8; out_len];
    match transport.read_message(message, &mut payload) {
        Ok(n) => Some(payload[..n].to_vec()),
        Err(_) => None,
    }
}

/// Encrypts a packet for the relay over the session with it; `Handshake` when the
/// session refuses to write it.
pub fn seal_relay_packet(transport: &mut snow::TransportState, payload: &[u8]) -> (r: Result<Vec<u8>, NoiseError>)
    requires
        payload@.len() <= usize::MAX - 1024,
    ensures
        payload@.len() + 16 > 65535 ==> r matches Err(NoiseError::Handshake),
        r matches Err(e) ==> e matches NoiseError::Handshake,
        r matches Ok(c) ==> c@.len() == payload@.len() + 16,
{
    match transport_write(transport, payload) {
        Some(c) => Ok(c),
        None => Err(NoiseError::Handshake),
    }
}

/// Decrypts a packet from the relay over the session with it, into a buffer 1024 bytes
/// longer than the packet (at least one byte before that); `Decrypt` when it does not
/// decrypt.
pub fn open_relay_packet(transport: &mut snow::TransportState, ciphertext: &[u8]) -> (r: Result<Vec<u8>, NoiseError>)
    requires
        ciphertext@.len() <= usize::MAX - 1024,
    ensures
        ciphertext@.len() > 65535 ==> r matches Err(NoiseError::Decrypt),
        r matches Err(e) ==> e matches NoiseError::Decrypt,
        r matches Ok(p) ==> p@.len() + 16 == ciphertext@.len(),
{
    let n = if ciphertext.len() >= 1 { ciphertext.len() } else { 1 };
    match transport_read(transport, ciphertext, n + 1024) {
        Some(p) => Ok(p),
        None => Err(NoiseError::Decrypt),
    }
}

} // verus!
