//! A client's Ed25519 identity: the 32-byte seed it is kept as, and the public key in hex.
use vstd::prelude::*;
use vstd::string::StringSliceAdditionalSpecFns;
use crate::node::{HexOutcome, hex_decode, hex_decode_spec, hex_encode, hex_encode_bytes};
use crate::text::ascii_chars;

verus! {

/// The Ed25519 public key (32 bytes) of the signing key with this seed.
pub uninterp spec fn ed25519_public_key(seed: Seq<u8>) -> Seq<u8>;

/// `SigningKey::from_bytes` then `verifying_key().to_bytes()`: the public key of the
/// signing key with this seed. The contract names it; it is 32 bytes.
#[verifier::external_body]
fn ed25519_public_key_bytes(seed: &[u8; 32]) -> (r: [u8; 32])
    ensures
        r@ == ed25519_public_key(seed@),
{
    ed25519_dalek::SigningKey::from_bytes(seed).verifying_key().to_bytes()
}

/// 32 bytes from the operating system's random source (`OsRng::fill_bytes`). They depend
/// on chance, so nothing is stated of them.
#[verifier::external_body]
pub(crate) fn random_seed() -> (r: [u8; 32]) {
    let mut seed = [0u8; 32];
    rand_core::RngCore::fill_bytes(&mut rand_core::OsRng, &mut seed);
    seed
}

/// Why a saved seed could not be read.
#[derive(Debug, Clone, Copy, PartialEq, Eq, Structural)]
pub enum SeedError {
    /// The text is not 64 bytes long; it holds this many.
    Length(usize),
    /// A pair of characters is not a hex byte.
    InvalidHex,
}

/// Reads a seed saved as 64 hex digits. Each pair is read as `u8::from_str_radix` reads
/// it, in order, and the first pair that fails rejects the text.
pub fn parse_seed_hex(seed_hex: &str) -> (r: Result<[u8; 32], SeedError>)
    requires
        seed_hex.spec_bytes().len() == 64 ==> !(hex_decode_spec(seed_hex.spec_bytes()) is Panic),
    ensures
        seed_hex.spec_bytes().len() != 64 ==> r == Err::<[u8; 32], SeedError>(SeedError::Length(seed_hex.spec_bytes().len() as usize)),
        seed_hex.spec_bytes().len() == 64 ==> match hex_decode_spec(seed_hex.spec_bytes()) {
            HexOutcome::Decoded(v) => r matches Ok(seed) && seed@ == v,
            _ => r == Err::<[u8; 32], SeedError>(SeedError::InvalidHex),
        },
{
    let n = seed_hex.as_bytes().len();
    if n != 64 {
        return Err(SeedError::Length(n));
    }
    proof {
        crate::node::lemma_hex_decode_from_len(seed_hex.spec_bytes(), 0);
    }
    match hex_decode(seed_hex) {
        Some(bytes) => {
            let mut seed = [0u8; 32];
            let mut i: usize = 0;
            while i < 32
                invariant
                    i <= 32,
                    bytes@.len() == 32,
                    forall|k: int| 0 <= k < i ==> seed@[k] == bytes@[k],
                decreases 32 - i,
            {
                seed[i] = bytes[i];
                i += 1;
            }
            assert(seed@ =~= bytes@);
            Ok(seed)
        },
        None => Err(SeedError::InvalidHex),
    }
}

/// An Ed25519 identity, kept as the seed of its signing key.
#[derive(Debug, Clone, Copy)]
pub struct HoshiIdentity {
    seed: [u8; 32],
}

impl HoshiIdentity {
    /// The seed of the identity's signing key.
    pub closed spec fn spec_seed(&self) -> Seq<u8> {
        self.seed@
    }

    /// A new identity with a random seed.
    pub fn generate() -> (r: Self) {
        HoshiIdentity { seed: random_seed() }
    }

    /// The identity with this seed.
    pub fn from_seed(seed: [u8; 32]) -> (r: Self)
        ensures
            r.spec_seed() == seed@,
    {
        HoshiIdentity { seed }
    }

    /// The seed of the identity's signing key.
    pub fn seed(&self) -> (r: [u8; 32])
        ensures
            r@ == self.spec_seed(),
    {
        self.seed
    }

    /// The public key, as 64 lowercase hex digits.
    pub fn public_key_hex(&self) -> (r: String)
        ensures
            r@ == ascii_chars(hex_encode_bytes(ed25519_public_key(self.spec_seed()))),
            r@.len() == 64,
    {
        let key = ed25519_public_key_bytes(&self.seed);
        hex_encode(&key)
    }
}

/// The public key of an identity is the hex of the Ed25519 key of its seed, so an
/// identity restored from another's seed has the same public key.
pub proof fn law_seed_restores_identity(identity: HoshiIdentity, restored: HoshiIdentity)
    requires
        restored.spec_seed() == identity.spec_seed(),
    ensures
        ascii_chars(hex_encode_bytes(ed25519_public_key(restored.spec_seed())))
            == ascii_chars(hex_encode_bytes(ed25519_public_key(identity.spec_seed()))),
{
}

/// The identity saved in a seed file's text: `None` when the text is blank (a new identity
/// is then made), else the identity of the 64 hex digits the trimmed text holds.
pub fn identity_from_seed_text(text: &str) -> (r: Option<Result<HoshiIdentity, SeedError>>)
    requires
        ({
            let t = vstd::utf8::encode_utf8(crate::text::trim_spec(text@));
            t.len() == 64 ==> !(hex_decode_spec(t) is Panic)
        }),
    ensures
        ({
            let trimmed = crate::text::trim_spec(text@);
            let t = vstd::utf8::encode_utf8(trimmed);
            &&& trimmed.len() == 0 <==> r is None
            &&& trimmed.len() > 0 && t.len() != 64 ==> r == Some(Err::<HoshiIdentity, SeedError>(SeedError::Length(t.len() as usize)))
            &&& trimmed.len() > 0 && t.len() == 64 ==> match hex_decode_spec(t) {
                HexOutcome::Decoded(v) => (r matches Some(Ok(id)) && id.spec_seed() == v),
                _ => r == Some(Err::<HoshiIdentity, SeedError>(SeedError::InvalidHex)),
            }
        }),
{
    let trimmed = crate::text::trim_str(text);
    if trimmed.is_empty() {
        return None;
    }
    match parse_seed_hex(trimmed) {
        Ok(seed) => Some(Ok(HoshiIdentity::from_seed(seed))),
        Err(e) => Some(Err(e)),
    }
}

/// The PKCS#8 DER document of the Ed25519 signing key with this seed, when it encodes.
pub uninterp spec fn ed25519_pkcs8(seed: Seq<u8>) -> Option<Seq<u8>>;

/// `SigningKey::from_bytes` then `EncodePrivateKey::to_pkcs8_der`: the signing key as a
/// PKCS#8 DER document. Encoding is a function of the seed; the contract names it.
#[verifier::external_body]
fn signing_key_pkcs8(seed: &[u8; 32]) -> (r: Option<Vec<u8>>)
    ensures
        match r {
            Some(v) => ed25519_pkcs8(seed@) == Some(v@),
            None => ed25519_pkcs8(seed@) is None,
        },
{
    let key = ed25519_dalek::SigningKey::from_bytes(seed);
    match ed25519_dalek::pkcs8::EncodePrivateKey::to_pkcs8_der(&key) {
        Ok(doc) => Some(doc.as_bytes().to_vec()),
        Err(_) => None,
    }
}

/// The DER bytes of the certificate rcgen signs for the Ed25519 key in a PKCS#8 document,
/// with only this common name, when it can.
pub uninterp spec fn self_signed_cert(pkcs8: Seq<u8>, common_name: Seq<char>) -> Option<Seq<u8>>;

/// `rcgen::KeyPair::try_from` the PKCS#8 document, then `CertificateParams::new` with no
/// alternative names and a distinguished name holding only this common name, then
/// `self_signed`: the certificate's DER bytes. The document must be the PKCS#8 encoding
/// of an Ed25519 key, which rcgen tries first: it then fixes the validity dates, draws the
/// serial number from the public key and signs deterministically, so the certificate is a
/// function of the key and the name, and the contract names it. (rcgen also takes ECDSA
/// keys, whose signatures are randomised; those are not admitted here.)
#[verifier::external_body]
fn rcgen_self_signed(pkcs8: &[u8], common_name: &str) -> (r: Option<Vec<u8>>)
    requires
        exists|seed: Seq<u8>| #[trigger] ed25519_pkcs8(seed) == Some(pkcs8@),
    ensures
        match r {
            Some(v) => self_signed_cert(pkcs8@, common_name@) == Some(v@),
            None => self_signed_cert(pkcs8@, common_name@) is None,
        },
{
    let key_pair = match rcgen::KeyPair::try_from(pkcs8) {
        Ok(k) => k,
        Err(_) => return None,
    };
    let mut params = match rcgen::CertificateParams::new(Vec::<String>::new()) {
        Ok(p) => p,
        Err(_) => return None,
    };
    params.distinguished_name = rcgen::DistinguishedName::new();
    params.distinguished_name.push(rcgen::DnType::CommonName, common_name.to_string());
    match params.self_signed(&key_pair) {
        Ok(cert) => Some(cert.der().to_vec()),
        Err(_) => None,
    }
}

/// The Ed25519 public key in the subject key info of a DER certificate, when the
/// certificate parses and holds one.
pub uninterp spec fn cert_ed25519_key(cert_der: Seq<u8>) -> Option<Seq<u8>>;

/// `x509_cert::Certificate::from_der`, its subject public key info re-encoded with
/// `Encode::to_der`, then `VerifyingKey::from_public_key_der`: the Ed25519 key the
/// certificate holds. Parsing is a function of the bytes; the contract names it.
#[verifier::external_body]
fn cert_public_key(cert_der: &[u8]) -> (r: Option<[u8; 32]>)
    ensures
        match r {
            Some(k) => cert_ed25519_key(cert_der@) == Some(k@),
            None => cert_ed25519_key(cert_der@) is None,
        },
{
    let cert: x509_cert::Certificate = match x509_cert::der::Decode::from_der(cert_der) {
        Ok(c) => c,
        Err(_) => return None,
    };
    let spki = match x509_cert::der::Encode::to_der(&cert.tbs_certificate.subject_public_key_info) {
        Ok(d) => d,
        Err(_) => return None,
    };
    match ed25519_dalek::pkcs8::DecodePublicKey::from_public_key_der(&spki) {
        Ok(vk) => Some(ed25519_dalek::VerifyingKey::to_bytes(&vk)),
        Err(_) => None,
    }
}

/// Why an identity's certificate could not be made.
#[derive(Debug, Clone, Copy, PartialEq, Eq, Structural)]
pub enum CertError {
    /// The signing key did not encode as PKCS#8.
    KeyEncoding,
    /// rcgen did not sign the certificate.
    Signing,
}

impl HoshiIdentity {
    /// A self-signed certificate for the identity's key whose common name is the public
    /// key in hex: the certificate's DER bytes and the key's PKCS#8 DER bytes.
    pub fn generate_self_signed_cert(&self) -> (r: Result<(Vec<u8>, Vec<u8>), CertError>)
        ensures
            match ed25519_pkcs8(self.spec_seed()) {
                None => r == Err::<(Vec<u8>, Vec<u8>), CertError>(CertError::KeyEncoding),
                Some(k) => match self_signed_cert(k, ascii_chars(hex_encode_bytes(ed25519_public_key(self.spec_seed())))) {
                    None => r == Err::<(Vec<u8>, Vec<u8>), CertError>(CertError::Signing),
                    Some(c) => r matches Ok((cert, key)) && cert@ == c && key@ == k,
                },
            },
    {
        let key = match signing_key_pkcs8(&self.seed) {
            Some(k) => k,
            None => return Err(CertError::KeyEncoding),
        };
        let name = self.public_key_hex();
        match rcgen_self_signed(key.as_slice(), name.as_str()) {
            Some(cert) => Ok((cert, key)),
            None => Err(CertError::Signing),
        }
    }
}

/// The Ed25519 public key, in lowercase hex, that a DER certificate holds; `None` when
/// the certificate does not parse or holds no Ed25519 key.
pub fn extract_ed25519_public_key_hex(cert_der: &[u8]) -> (r: Option<String>)
    ensures
        match cert_ed25519_key(cert_der@) {
            Some(k) => r matches Some(s) && s@ == ascii_chars(hex_encode_bytes(k)),
            None => r is None,
        },
{
    match cert_public_key(cert_der) {
        Some(k) => Some(hex_encode(&k)),
        None => None,
    }
}

} // verus!
