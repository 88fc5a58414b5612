//! The shapes of the messages exchanged with the control plane and the relays.
use vstd::prelude::*;

verus! {

/// An error the control plane answers with.
#[derive(Debug, Clone)]
pub struct ErrorResponse {
    pub error: String,
}

/// The control plane's static Noise public key, in base64.
#[derive(Debug, Clone)]
pub struct NoisePublicKeyResponse {
    pub public_key: String,
}

/// A request for a relay token: the client's public key and a Noise handshake proving it
/// holds the private key.
#[derive(Debug, Clone)]
pub struct IssueRelayTokenRequest {
    pub public_key: String,
    pub noise_handshake: String,
}

/// A relay token and the ids the control plane knows the client and device by.
#[derive(Debug, Clone)]
pub struct IssueRelayTokenResponse {
    pub token: String,
    pub client_guid: String,
    pub device_guid: String,
}

/// A relay as the control plane lists it.
#[derive(Debug, Clone)]
pub struct RelayEntry {
    pub guid: String,
    pub public_key: String,
    pub ip: String,
    pub port: u16,
}

/// The answer to a client lookup.
#[derive(Debug, Clone)]
pub struct LookupClientResponse {
    pub client: ClientEntry,
}

/// A client as the control plane lists it.
#[derive(Debug, Clone)]
pub struct ClientEntry {
    pub public_key: String,
}

/// A packet for a relay to pass on: its recipient and the encrypted payload.
#[derive(Debug, Clone)]
pub struct RelayPacket {
    pub recipient: String,
    pub payload: String,
}

/// A relay's report that a packet could not be passed on.
#[derive(Debug, Clone)]
pub struct RelayErrorPacket {
    pub error: String,
    pub recipient: Option<String>,
}

/// An end-to-end encrypted payload: format version, algorithm and ciphertext.
#[derive(Debug, Clone)]
pub struct E2eeEnvelope {
    pub version: u8,
    pub alg: String,
    pub ciphertext: String,
}

/// A message received through a relay: its recipient and decrypted payload.
#[derive(Debug, Clone)]
pub struct ReceivedMessage {
    pub recipient: String,
    pub payload: Vec<u8>,
}

impl RelayEntry {
    /// A copy of the entry.
    pub fn duplicate(&self) -> (r: Self)
        ensures
            r == *self,
    {
        RelayEntry { guid: self.guid.clone(), public_key: self.public_key.clone(), ip: self.ip.clone(), port: self.port }
    }
}

} // verus!
