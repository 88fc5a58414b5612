//! Contacts, and the emoji alias a contact is shown by when it has no advertised name.
use vstd::prelude::*;
use vstd::string::StringSliceAdditionalSpecFns;

verus! {

/// How a public key stands in one's contact list.
#[derive(Debug, Clone, Copy, PartialEq, Eq, Structural)]
pub enum ContactType {
    Unknown,
    Contact,
    Blocked,
    Deleted,
}

/// A public key and how it stands in one's contact list.
#[derive(Debug, Clone)]
pub struct Contact {
    pub public_key: String,
    pub contact_type: ContactType,
}

/// The seed of the alias hash.
pub open spec fn alias_hash_seed() -> u64 {
    0xcbf29ce484222325u64
}

/// The multiplier of the alias hash.
pub open spec fn alias_hash_prime() -> u64 {
    0x100000001b3u64
}

/// The alias hash of the first `n` bytes: each byte is added after multiplying by the
/// prime, modulo 2^64.
pub open spec fn alias_hash(bytes: Seq<u8>, n: int) -> u64
    decreases n,
{
    if n <= 0 || n > bytes.len() {
        alias_hash_seed()
    } else {
        let h = alias_hash(bytes, n - 1);
        (((h as nat * alias_hash_prime() as nat) % 0x1_0000_0000_0000_0000 + bytes[n - 1] as nat)
            % 0x1_0000_0000_0000_0000) as u64
    }
}

/// The emoji at position `i` of the alias table.
pub open spec fn alias_emoji(i: int) -> Seq<char> {
    if i == 0 { "🐶"@ } else if i == 1 { "🐱"@ } else if i == 2 { "🐭"@ } else if i == 3 { "🐹"@ }
    else if i == 4 { "🐰"@ } else if i == 5 { "🦊"@ } else if i == 6 { "🐻"@ } else if i == 7 { "🐼"@ }
    else if i == 8 { "🐨"@ } else if i == 9 { "🐯"@ } else if i == 10 { "🦁"@ } else if i == 11 { "🐮"@ }
    else if i == 12 { "🐷"@ } else if i == 13 { "🐸"@ } else if i == 14 { "🐵"@ } else if i == 15 { "🐔"@ }
    else if i == 16 { "🐧"@ } else if i == 17 { "🐦"@ } else if i == 18 { "🦆"@ } else if i == 19 { "🦉"@ }
    else if i == 20 { "🦇"@ } else if i == 21 { "🐺"@ } else if i == 22 { "🐗"@ } else if i == 23 { "🐴"@ }
    else if i == 24 { "🦄"@ } else if i == 25 { "🐝"@ } else if i == 26 { "🐛"@ } else if i == 27 { "🦋"@ }
    else if i == 28 { "🐌"@ } else if i == 29 { "🐞"@ } else if i == 30 { "🦎"@ } else if i == 31 { "🐍"@ }
    else if i == 32 { "🐢"@ } else if i == 33 { "🦖"@ } else if i == 34 { "🦕"@ } else if i == 35 { "🐙"@ }
    else if i == 36 { "🦑"@ } else if i == 37 { "🦐"@ } else if i == 38 { "🦀"@ } else if i == 39 { "🐡"@ }
    else if i == 40 { "🐠"@ } else if i == 41 { "🐟"@ } else if i == 42 { "🐬"@ } else if i == 43 { "🐳"@ }
    else if i == 44 { "🦈"@ } else if i == 45 { "🐊"@ } else if i == 46 { "🦧"@ } else if i == 47 { "🦥"@ }
    else if i == 48 { "🦦"@ } else { "🦔"@ }
}

/// The emoji alias of a public key: two emojis picked by its alias hash.
pub open spec fn emoji_alias(key: Seq<u8>) -> Seq<char> {
    let h = alias_hash(key, key.len() as int);
    alias_emoji((h % 50) as int) + alias_emoji(((h / 256) % 50) as int)
}

/// The emoji at position `i` of the alias table.
fn emoji(i: u64) -> (r: &'static str)
    requires
        i < 50,
    ensures
        r@ == alias_emoji(i as int),
{
    if i == 0 { "🐶" } else if i == 1 { "🐱" } else if i == 2 { "🐭" } else if i == 3 { "🐹" }
    else if i == 4 { "🐰" } else if i == 5 { "🦊" } else if i == 6 { "🐻" } else if i == 7 { "🐼" }
    else if i == 8 { "🐨" } else if i == 9 { "🐯" } else if i == 10 { "🦁" } else if i == 11 { "🐮" }
    else if i == 12 { "🐷" } else if i == 13 { "🐸" } else if i == 14 { "🐵" } else if i == 15 { "🐔" }
    else if i == 16 { "🐧" } else if i == 17 { "🐦" } else if i == 18 { "🦆" } else if i == 19 { "🦉" }
    else if i == 20 { "🦇" } else if i == 21 { "🐺" } else if i == 22 { "🐗" } else if i == 23 { "🐴" }
    else if i == 24 { "🦄" } else if i == 25 { "🐝" } else if i == 26 { "🐛" } else if i == 27 { "🦋" }
    else if i == 28 { "🐌" } else if i == 29 { "🐞" } else if i == 30 { "🦎" } else if i == 31 { "🐍" }
    else if i == 32 { "🐢" } else if i == 33 { "🦖" } else if i == 34 { "🦕" } else if i == 35 { "🐙" }
    else if i == 36 { "🦑" } else if i == 37 { "🦐" } else if i == 38 { "🦀" } else if i == 39 { "🐡" }
    else if i == 40 { "🐠" } else if i == 41 { "🐟" } else if i == 42 { "🐬" } else if i == 43 { "🐳" }
    else if i == 44 { "🦈" } else if i == 45 { "🐊" } else if i == 46 { "🦧" } else if i == 47 { "🦥" }
    else if i == 48 { "🦦" } else { "🦔" }
}

/// A deterministic two-emoji alias for a public key.
fn generate_emoji_alias(public_key: &str) -> (r: String)
    ensures
        r@ == emoji_alias(public_key.spec_bytes()),
{
    let bytes = public_key.as_bytes();
    let mut hash: u64 = 0xcbf29ce484222325u64;
    let mut i: usize = 0;
    while i < bytes.len()
        invariant
            i <= bytes@.len(),
            hash == alias_hash(bytes@, i as int),
        decreases bytes@.len() - i,
    {
        hash = hash.wrapping_mul(0x100000001b3u64).wrapping_add(bytes[i] as u64);
        i += 1;
    }
    let first = emoji(hash % 50);
    let second = emoji((hash >> 8) % 50);
    assert((hash >> 8) == hash / 256) by (bit_vector);
    let mut s = String::from_str(first);
    s.append(second);
    s
}

impl Contact {
    /// A contact for this key.
    pub fn new(public_key: String) -> (r: Contact)
        ensures
            r.public_key == public_key,
            r.contact_type == ContactType::Contact,
    {
        Contact { public_key, contact_type: ContactType::Contact }
    }

    /// A key one has heard from but not added.
    pub fn new_unknown(public_key: String) -> (r: Contact)
        ensures
            r.public_key == public_key,
            r.contact_type == ContactType::Unknown,
    {
        Contact { public_key, contact_type: ContactType::Unknown }
    }

    /// The name the contact advertises, `alias`, when it advertises one; otherwise the
    /// emoji alias of its key.
    pub fn display_name(&self, alias: Option<String>) -> (r: String)
        ensures
            r@ == match alias {
                Some(a) => a@,
                None => emoji_alias(vstd::utf8::encode_utf8(self.public_key@)),
            },
    {
        match alias {
            Some(a) => a,
            None => generate_emoji_alias(self.public_key.as_str()),
        }
    }
}

} // verus!
