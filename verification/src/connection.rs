//! The client's connection to the control plane and a relay: the endpoints it calls, the
//! relay it picks, and how end-to-end encrypted payloads are wrapped and unwrapped. The
//! HTTP requests, the WebSocket and the relay's transport encryption are run by the
//! application.
use vstd::prelude::*;
use vstd::string::StrSliceExecFns;
use crate::noise::{KeyError, NoiseError, base64_decode, base64_encode, decode_base64, decrypt_e2ee_payload, encode_base64, noise_n_read, open_buffer_len};
use crate::wire::{E2eeEnvelope, RelayEntry, RelayErrorPacket};

verus! {

/// The characters with every trailing `c` removed (`str::trim_end_matches`).
pub open spec fn strip_trailing(s: Seq<char>, c: char) -> Seq<char>
    decreases s.len(),
{
    if s.len() > 0 && s.last() == c {
        strip_trailing(s.drop_last(), c)
    } else {
        s
    }
}

/// The control plane's URI without trailing slashes.
pub fn trim_trailing_slashes(uri: &str) -> (r: &str)
    ensures
        r@ == strip_trailing(uri@, '/'),
{
    let mut k = uri.unicode_len();
    assert(uri@.subrange(0, k as int) =~= uri@);
    while k > 0 && uri.get_char(k - 1) == '/'
        invariant
            k <= uri@.len(),
            strip_trailing(uri@, '/') == strip_trailing(uri@.subrange(0, k as int), '/'),
        decreases k,
    {
        assert(uri@.subrange(0, k as int).drop_last() =~= uri@.subrange(0, k - 1));
        k -= 1;
    }
    uri.substring_char(0, k)
}

/// The URL of a control plane endpoint: the control plane's URI without trailing slashes,
/// then the endpoint's path.
pub fn control_plane_endpoint(uri: &str, path: &str) -> (r: String)
    ensures
        r@ == strip_trailing(uri@, '/') + path@,
{
    let mut s = trim_trailing_slashes(uri).to_string();
    s.append(path);
    s
}

/// True when a character occurs in the string.
pub open spec fn has_char(s: Seq<char>, c: char) -> bool {
    exists|i: int| 0 <= i < s.len() && s[i] == c
}

/// The host part of a relay's WebSocket URL: an IPv6 address (it holds a colon) goes in
/// brackets unless it already is.
pub open spec fn relay_host(ip: Seq<char>) -> Seq<char> {
    if has_char(ip, ':') && !(ip.len() > 0 && ip[0] == '[') {
        "["@ + ip + "]"@
    } else {
        ip
    }
}

/// The WebSocket URL of a relay: `ws://{host}:{port}/relay`.
pub open spec fn relay_ws_uri_spec(ip: Seq<char>, port: u16) -> Seq<char> {
    "ws://"@ + relay_host(ip) + ":"@ + crate::text::ascii_chars(crate::call::decimal_ascii(port as nat)) + "/relay"@
}

/// True when the string holds the character.
fn contains_char(s: &str, c: char) -> (r: bool)
    ensures
        r == has_char(s@, c),
{
    let n = s.unicode_len();
    let mut i: usize = 0;
    while i < n
        invariant
            i <= n,
            n == s@.len(),
            forall|k: int| 0 <= k < i ==> s@[k] != c,
        decreases n - i,
    {
        if s.get_char(i) == c {
            return true;
        }
        i += 1;
    }
    false
}

/// The WebSocket URL of a relay.
pub fn relay_ws_uri(relay: &RelayEntry) -> (r: String)
    ensures
        r@ == relay_ws_uri_spec(relay.ip@, relay.port),
{
    proof {
        reveal_strlit("ws://");
        reveal_strlit("[");
        reveal_strlit("]");
        reveal_strlit(":");
        reveal_strlit("/relay");
    }
    let ip = relay.ip.as_str();
    let bracketed = contains_char(ip, ':') && !(ip.unicode_len() > 0 && ip.get_char(0) == '[');
    let mut s = String::from_str("ws://");
    if bracketed {
        s.append("[");
        s.append(ip);
        s.append("]");
    } else {
        s.append(ip);
    }
    s.append(":");
    let port = crate::text::string_from_ascii(crate::call::decimal_bytes(relay.port as u64));
    s.append(port.as_str());
    s.append("/relay");
    s
}

/// Which relay of `count` a random number picks: the number modulo the count; none when
/// the registry lists no relay.
pub fn select_relay_index(count: usize, random: u64) -> (r: Option<usize>)
    ensures
        count == 0 ==> r.is_none(),
        count > 0 ==> r == Some(((random as usize) % count) as usize),
{
    if count == 0 {
        return None;
    }
    Some((random as usize) % count)
}

/// The name of the end-to-end encryption scheme an envelope names.
pub open spec fn e2ee_alg() -> Seq<char> {
    "Noise_N_25519_ChaChaPoly_BLAKE2s"@
}

/// Wraps an end-to-end ciphertext for the relay: version 1, the Noise `N` scheme, and
/// the ciphertext in base64.
pub fn e2ee_envelope(ciphertext: &[u8]) -> (r: E2eeEnvelope)
    requires
        ciphertext@.len() <= usize::MAX / 2,
    ensures
        r.version == 1,
        r.alg@ == e2ee_alg(),
        r.ciphertext@ == base64_encode(ciphertext@),
{
    E2eeEnvelope { version: 1, alg: String::from_str("Noise_N_25519_ChaChaPoly_BLAKE2s"), ciphertext: encode_base64(ciphertext) }
}

/// Why an envelope could not be opened.
#[derive(Debug)]
pub enum EnvelopeError {
    /// The envelope names another scheme.
    UnsupportedAlgorithm(String),
    /// The ciphertext is not base64.
    Ciphertext(KeyError),
    /// The ciphertext could not be decrypted.
    Decrypt(NoiseError),
}

/// Opens an envelope sent end to end to the holder of `local_private_key`.
pub fn open_envelope(local_private_key: &[u8; 32], envelope: &E2eeEnvelope) -> (r: Result<Vec<u8>, EnvelopeError>)
    ensures
        envelope.alg@ != e2ee_alg() ==> (r matches Err(EnvelopeError::UnsupportedAlgorithm(a)) && a@ == envelope.alg@),
        envelope.alg@ == e2ee_alg() && base64_decode(envelope.ciphertext@) is None ==> (r matches Err(EnvelopeError::Ciphertext(_))),
        envelope.alg@ == e2ee_alg() ==> (base64_decode(envelope.ciphertext@) matches Some(c) ==> match noise_n_read(local_private_key@, c, open_buffer_len(c.len())) {
            Some((p, true)) => r matches Ok(v) && v@ == p,
            _ => r matches Err(EnvelopeError::Decrypt(_)),
        }),
{
    proof {
        reveal_strlit("Noise_N_25519_ChaChaPoly_BLAKE2s");
    }
    if !crate::text::str_eq(envelope.alg.as_str(), "Noise_N_25519_ChaChaPoly_BLAKE2s") {
        return Err(EnvelopeError::UnsupportedAlgorithm(envelope.alg.clone()));
    }
    let ciphertext = match decode_base64(envelope.ciphertext.as_str()) {
        Ok(c) => c,
        Err(e) => return Err(EnvelopeError::Ciphertext(e)),
    };
    match decrypt_e2ee_payload(local_private_key, ciphertext.as_slice()) {
        Ok(p) => Ok(p),
        Err(e) => Err(EnvelopeError::Decrypt(e)),
    }
}

/// The message of a relay's error report: the error, then the recipient in brackets
/// when the report names one.
pub fn relay_error_message(err: &RelayErrorPacket) -> (r: String)
    ensures
        r@ == match err.recipient {
            Some(rc) => "relay error: "@ + err.error@ + " ("@ + rc@ + ")"@,
            None => "relay error: "@ + err.error@,
        },
{
    let mut s = String::from_str("relay error: ");
    s.append(err.error.as_str());
    match &err.recipient {
        Some(rc) => {
            s.append(" (");
            s.append(rc.as_str());
            s.append(")");
        },
        None => {},
    }
    s
}

/// The recipient a message is sent to: the guid trimmed; an empty guid is refused.
pub fn recipient_guid(guid: &str) -> (r: Option<&str>)
    ensures
        crate::text::trim_spec(guid@).len() == 0 ==> r.is_none(),
        crate::text::trim_spec(guid@).len() > 0 ==> (r matches Some(g) && g@ == crate::text::trim_spec(guid@)),
{
    let g = crate::text::trim_str(guid);
    if g.is_empty() {
        None
    } else {
        Some(g)
    }
}

} // verus!
