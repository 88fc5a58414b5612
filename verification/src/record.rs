//! The records kept in the stores: settings, contacts, chat texts and profile titles.
use vstd::prelude::*;
use vstd::string::StringSliceAdditionalSpecFns;
use vstd::utf8::encode_utf8;
use crate::contact::ContactType;
use crate::digest::{blake3_digest, blake3_hash};
use crate::ids::{is_v7, new_uuid_v7, u128_be_bytes, uuid_bytes};
use crate::store::Store;

verus! {

/// What a record says.
#[derive(Clone, Debug)]
pub enum HoshiPayload {
    Config { key: String, value: String },
    Contact { public_key: String, contact_type: ContactType },
    Text { content: String },
    Title { title: String },
}

/// A record: its id (a version-7 UUID, which orders records by creation), its author's
/// public key, and what it says.
#[derive(Clone, Debug)]
pub struct HoshiRecord {
    pub id: u128,
    pub from: String,
    pub payload: HoshiPayload,
}

/// The name of a contact type as `Debug` writes it.
pub open spec fn contact_type_name(t: ContactType) -> Seq<char> {
    match t {
        ContactType::Unknown => "Unknown"@,
        ContactType::Contact => "Contact"@,
        ContactType::Blocked => "Blocked"@,
        ContactType::Deleted => "Deleted"@,
    }
}

/// The bytes a payload contributes to its record's digest: a tag, then its fields.
pub open spec fn payload_bytes(p: HoshiPayload) -> Seq<u8> {
    match p {
        HoshiPayload::Config { key, value } => encode_utf8("config"@) + encode_utf8(key@) + encode_utf8(value@),
        HoshiPayload::Contact { public_key, contact_type } => encode_utf8("contact"@) + encode_utf8(public_key@)
            + encode_utf8(contact_type_name(contact_type)),
        HoshiPayload::Text { content } => encode_utf8("text"@) + encode_utf8(content@),
        HoshiPayload::Title { title } => encode_utf8("title"@) + encode_utf8(title@),
    }
}

/// The bytes a record's digest is taken of: its id, its author, its payload.
pub open spec fn record_bytes(r: HoshiRecord) -> Seq<u8> {
    u128_be_bytes(r.id) + encode_utf8(r.from@) + payload_bytes(r.payload)
}

/// The name of a contact type as `Debug` writes it.
fn contact_type_str(t: ContactType) -> (r: &'static str)
    ensures
        r@ == contact_type_name(t),
{
    match t {
        ContactType::Unknown => "Unknown",
        ContactType::Contact => "Contact",
        ContactType::Blocked => "Blocked",
        ContactType::Deleted => "Deleted",
    }
}

/// Appends the UTF-8 bytes of `s` to `buf`.
fn push_str_bytes(buf: &mut Vec<u8>, s: &str)
    ensures
        final(buf)@ == old(buf)@ + encode_utf8(s@),
{
    buf.extend_from_slice(s.as_bytes());
}

impl HoshiRecord {
    /// A record with a fresh id.
    pub fn new(from: String, payload: HoshiPayload) -> (r: Self)
        ensures
            is_v7(r.id),
            r.from == from,
            r.payload == payload,
    {
        HoshiRecord { id: new_uuid_v7(), from, payload }
    }

    /// A record with the given id.
    pub fn with_id(id: u128, from: String, payload: HoshiPayload) -> (r: Self)
        ensures
            r.id == id,
            r.from == from,
            r.payload == payload,
    {
        HoshiRecord { id, from, payload }
    }

    /// The bytes this record's digest is taken of.
    pub fn digest_input(&self) -> (r: Vec<u8>)
        ensures
            r@ == record_bytes(*self),
    {
        let id = uuid_bytes(self.id);
        let mut buf: Vec<u8> = Vec::new();
        buf.extend_from_slice(&id);
        push_str_bytes(&mut buf, self.from.as_str());
        match &self.payload {
            HoshiPayload::Config { key, value } => {
                push_str_bytes(&mut buf, "config");
                push_str_bytes(&mut buf, key.as_str());
                push_str_bytes(&mut buf, value.as_str());
            },
            HoshiPayload::Contact { public_key, contact_type } => {
                push_str_bytes(&mut buf, "contact");
                push_str_bytes(&mut buf, public_key.as_str());
                push_str_bytes(&mut buf, contact_type_str(*contact_type));
            },
            HoshiPayload::Text { content } => {
                push_str_bytes(&mut buf, "text");
                push_str_bytes(&mut buf, content.as_str());
            },
            HoshiPayload::Title { title } => {
                push_str_bytes(&mut buf, "title");
                push_str_bytes(&mut buf, title.as_str());
            },
        }
        buf
    }
}

impl Store for HoshiRecord {
    open spec fn spec_id(&self) -> u128 {
        self.id
    }

    open spec fn spec_hash(&self) -> Seq<u8> {
        blake3_digest(record_bytes(*self))
    }

    fn id(&self) -> (r: u128) {
        self.id
    }

    fn hash(&self) -> (r: [u8; 32]) {
        let bytes = self.digest_input();
        blake3_hash(bytes.as_slice())
    }

    fn duplicate(&self) -> (r: Self) {
        let payload = match &self.payload {
            HoshiPayload::Config { key, value } => HoshiPayload::Config { key: key.clone(), value: value.clone() },
            HoshiPayload::Contact { public_key, contact_type } => HoshiPayload::Contact {
                public_key: public_key.clone(),
                contact_type: *contact_type,
            },
            HoshiPayload::Text { content } => HoshiPayload::Text { content: content.clone() },
            HoshiPayload::Title { title } => HoshiPayload::Title { title: title.clone() },
        };
        HoshiRecord { id: self.id, from: self.from.clone(), payload }
    }
}

} // verus!
