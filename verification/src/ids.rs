//! Record and call ids: version-7 UUIDs, held as their 128-bit value.
use vstd::prelude::*;
use crate::node::hex_encode_bytes;
use crate::text::ascii_chars;

verus! {

/// The big-endian bytes of a 128-bit value (the byte order of `Uuid::as_bytes`).
pub open spec fn u128_be_bytes(v: u128) -> Seq<u8> {
    Seq::new(16, |i: int| ((v as int / pow256(15 - i)) % 256) as u8)
}

/// 256 to the power `n`.
pub open spec fn pow256(n: int) -> int
    decreases n,
{
    if n <= 0 {
        1
    } else {
        256 * pow256(n - 1)
    }
}

/// The hyphenated lowercase form `8-4-4-4-12` of a UUID, as ASCII bytes.
pub open spec fn uuid_hyphenated_bytes(v: u128) -> Seq<u8> {
    let h = hex_encode_bytes(u128_be_bytes(v));
    h.subrange(0, 8) + seq![45u8] + h.subrange(8, 12) + seq![45u8] + h.subrange(12, 16)
        + seq![45u8] + h.subrange(16, 20) + seq![45u8] + h.subrange(20, 32)
}

/// True when a 128-bit value carries the version (7) and variant (RFC 4122) bits of a
/// version-7 UUID.
pub open spec fn is_v7(v: u128) -> bool {
    (v as int / pow2_76()) % 16 == 7 && (v as int / pow2_62()) % 4 == 2
}

/// 2 to the power 76.
pub open spec fn pow2_76() -> int {
    0x1_0000_0000_0000_0000_000
}

/// 2 to the power 62.
pub open spec fn pow2_62() -> int {
    0x4000_0000_0000_0000
}

/// `Uuid::now_v7`: a fresh version-7 UUID from the clock and random bits. Every outcome
/// carries the version and variant bits; which value comes out depends on the time and
/// on chance, so nothing more is stated.
#[verifier::external_body]
pub(crate) fn new_uuid_v7() -> (r: u128)
    ensures
        is_v7(r),
{
    uuid::Uuid::now_v7().as_u128()
}

/// `Uuid::to_string`: the hyphenated lowercase form of the UUID with this value.
#[verifier::external_body]
pub(crate) fn uuid_to_string(v: u128) -> (s: String)
    ensures
        s@ == ascii_chars(uuid_hyphenated_bytes(v)),
{
    uuid::Uuid::from_u128(v).to_string()
}

/// What `Uuid::parse_str` makes of a string: the value of the UUID it spells, if any.
pub uninterp spec fn uuid_parse(s: Seq<char>) -> Option<u128>;

/// `Uuid::parse_str`: reads a UUID in any of the forms the crate accepts (simple,
/// hyphenated, braced, URN). The contract names the outcome.
#[verifier::external_body]
pub(crate) fn uuid_parse_str(s: &str) -> (r: Option<u128>)
    ensures
        r == uuid_parse(s@),
{
    match uuid::Uuid::parse_str(s) {
        Ok(u) => Some(u.as_u128()),
        Err(_) => None,
    }
}

/// `Uuid::as_bytes` of the UUID with this value: its 16 bytes, most significant first.
#[verifier::external_body]
pub(crate) fn uuid_bytes(v: u128) -> (r: [u8; 16])
    ensures
        r@ == u128_be_bytes(v),
{
    *uuid::Uuid::from_u128(v).as_bytes()
}

/// The version of a UUID: the four bits `Uuid::get_version_num` reads.
pub open spec fn uuid_version(v: u128) -> int {
    (v as int / pow2_76()) % 16
}

/// What `Uuid::get_timestamp` followed by `Timestamp::to_unix` gives as seconds: for a
/// version-7 UUID its top 48 bits are Unix milliseconds, so the seconds are those
/// milliseconds divided by 1000; versions 1 and 6 carry a Gregorian timestamp; other
/// versions carry none.
pub uninterp spec fn uuid_timestamp_secs(v: u128) -> Option<u64>;

/// `Uuid::get_timestamp` and `Timestamp::to_unix` on the UUID with this value: the Unix
/// seconds of its timestamp, when its version carries one. The contract states the
/// version-7 case and that versions other than 1, 6 and 7 carry none; the Gregorian
/// arithmetic of versions 1 and 6 is left named.
#[verifier::external_body]
pub(crate) fn uuid_unix_seconds(v: u128) -> (r: Option<u64>)
    ensures
        r == uuid_timestamp_secs(v),
        uuid_version(v) == 7 ==> r == Some(((v as int / pow2_80()) / 1000) as u64),
        uuid_version(v) != 1 && uuid_version(v) != 6 && uuid_version(v) != 7 ==> r.is_none(),
{
    match uuid::Uuid::from_u128(v).get_timestamp() {
        Some(ts) => Some(ts.to_unix().0),
        None => None,
    }
}

/// 2 to the power 80.
pub open spec fn pow2_80() -> int {
    0x1_0000_0000_0000_0000_0000
}

} // verus!
