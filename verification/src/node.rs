//! Paths of the record stores: `/user/{key}` for a profile and `/chat/{a XOR b}` for the
//! one-to-one chat between two hex public keys.
use vstd::prelude::*;
use crate::text::{all_ascii, ascii_chars, starts_char, string_from_ascii};
use vstd::string::StringSliceAdditionalSpecFns;
use vstd::utf8::encode_utf8;

verus! {

/// Value of an ASCII hexadecimal digit (either case), as `char::to_digit(16)` gives it.
pub open spec fn hex_digit_value(c: u8) -> Option<u8> {
    if 48 <= c <= 57 {
        Some((c - 48) as u8)
    } else if 97 <= c <= 102 {
        Some((c - 87) as u8)
    } else if 65 <= c <= 70 {
        Some((c - 55) as u8)
    } else {
        None
    }
}

/// `u8::from_str_radix(.., 16)` on a two-byte string: two hex digits, or a `+` sign
/// followed by one hex digit.
pub open spec fn hex_pair_value(c0: u8, c1: u8) -> Option<u8> {
    if c0 == 43 {
        hex_digit_value(c1)
    } else {
        match (hex_digit_value(c0), hex_digit_value(c1)) {
            (Some(h), Some(l)) => Some((h * 16 + l) as u8),
            _ => None,
        }
    }
}

/// What decoding a hex string does: the bytes it stands for, a rejection, or a panic
/// when a two-byte slice would cut a multi-byte character.
pub enum HexOutcome {
    Decoded(Seq<u8>),
    Invalid,
    Panic,
}

/// Decoding of the pairs that start at byte `i`, one pair at a time, stopping at the
/// first pair that fails.
pub open spec fn hex_decode_from(bytes: Seq<u8>, i: int) -> HexOutcome
    decreases bytes.len() - i,
{
    if i < 0 || i + 2 > bytes.len() {
        HexOutcome::Decoded(Seq::empty())
    } else if !starts_char(bytes, i) || !starts_char(bytes, i + 2) {
        HexOutcome::Panic
    } else {
        match hex_pair_value(bytes[i], bytes[i + 1]) {
            None => HexOutcome::Invalid,
            Some(v) => match hex_decode_from(bytes, i + 2) {
                HexOutcome::Decoded(rest) => HexOutcome::Decoded(seq![v] + rest),
                other => other,
            },
        }
    }
}

/// Decoding of the bytes of a hex string: odd lengths are rejected.
pub open spec fn hex_decode_spec(bytes: Seq<u8>) -> HexOutcome {
    if bytes.len() % 2 != 0 {
        HexOutcome::Invalid
    } else {
        hex_decode_from(bytes, 0)
    }
}

/// The lowercase hex digit of a value below 16, as an ASCII byte.
pub open spec fn hex_digit_byte(d: u8) -> u8 {
    if d < 10 {
        (d + 48) as u8
    } else {
        (d + 87) as u8
    }
}

/// The lowercase hex encoding of bytes, two digits per byte, as ASCII bytes.
pub open spec fn hex_encode_bytes(bytes: Seq<u8>) -> Seq<u8> {
    Seq::new(
        2 * bytes.len(),
        |i: int|
            if i % 2 == 0 {
                hex_digit_byte(bytes[i / 2] / 16)
            } else {
                hex_digit_byte(bytes[i / 2] % 16)
            },
    )
}

/// Bytewise XOR of two sequences of the same length.
pub open spec fn xor_bytes(a: Seq<u8>, b: Seq<u8>) -> Seq<u8> {
    Seq::new(a.len(), |i: int| a[i] ^ b[i])
}

/// The bytes of `/chat/`.
pub open spec fn chat_prefix() -> Seq<u8> {
    seq![47u8, 99u8, 104u8, 97u8, 116u8, 47u8]
}

/// The bytes of `/user/`.
pub open spec fn user_prefix() -> Seq<u8> {
    seq![47u8, 117u8, 115u8, 101u8, 114u8, 47u8]
}

/// The chat path of two keys whose hex decodes to `a` and `b`.
pub open spec fn chat_path_spec(a: Seq<u8>, b: Seq<u8>) -> Seq<char> {
    ascii_chars(chat_prefix() + hex_encode_bytes(xor_bytes(a, b)))
}

/// The decoded bytes of a hex string, when it decodes.
pub open spec fn decoded(s: Seq<char>) -> Seq<u8> {
    match hex_decode_spec(encode_utf8(s)) {
        HexOutcome::Decoded(v) => v,
        _ => Seq::empty(),
    }
}

/// A key that can stand in a chat path: its hex decodes.
pub open spec fn is_hex_key(s: Seq<char>) -> bool {
    hex_decode_spec(encode_utf8(s)) is Decoded
}

/// The segment of a path after `/chat/`, up to the next `/`.
pub open spec fn chat_segment_end(path: Seq<u8>, i: int) -> int
    decreases path.len() - i,
{
    if i < 0 || i >= path.len() || path[i] == 47 {
        i
    } else {
        chat_segment_end(path, i + 1)
    }
}

/// The hex segment of a chat path, or `None` when the path does not start with `/chat/`.
pub open spec fn chat_segment(path: Seq<u8>) -> Option<Seq<u8>> {
    if path.len() >= 6 && path.subrange(0, 6) == chat_prefix() {
        Some(path.subrange(6, chat_segment_end(path, 6)))
    } else {
        None
    }
}

/// True when recovering a peer key from this path would panic on a cut character.
pub open spec fn peer_key_panics(own: Seq<u8>, path: Seq<u8>) -> bool {
    match chat_segment(path) {
        None => false,
        Some(seg) => match hex_decode_spec(seg) {
            HexOutcome::Panic => true,
            HexOutcome::Invalid => false,
            HexOutcome::Decoded(_) => hex_decode_spec(own) is Panic,
        },
    }
}

/// The peer key that a chat path and one's own key stand for, in lowercase hex.
pub open spec fn peer_key_spec(own: Seq<u8>, path: Seq<u8>) -> Option<Seq<char>> {
    match chat_segment(path) {
        None => None,
        Some(seg) => match (hex_decode_spec(seg), hex_decode_spec(own)) {
            (HexOutcome::Decoded(x), HexOutcome::Decoded(o)) => if x.len() == o.len() {
                Some(ascii_chars(hex_encode_bytes(xor_bytes(x, o))))
            } else {
                None
            },
            _ => None,
        },
    }
}

/// A decoded hex string holds one byte per two digits.
pub proof fn lemma_hex_decode_from_len(bytes: Seq<u8>, i: int)
    requires
        0 <= i <= bytes.len(),
        (bytes.len() - i) % 2 == 0,
    ensures
        hex_decode_from(bytes, i) matches HexOutcome::Decoded(v) ==> v.len() == (bytes.len() - i) / 2,
    decreases bytes.len() - i,
{
    if i + 2 <= bytes.len() {
        lemma_hex_decode_from_len(bytes, i + 2);
    }
}

/// Value of one ASCII hex digit.
fn hex_digit(c: u8) -> (r: Option<u8>)
    ensures
        r == hex_digit_value(c),
{
    if 48 <= c && c <= 57 {
        Some(c - 48)
    } else if 97 <= c && c <= 102 {
        Some(c - 87)
    } else if 65 <= c && c <= 70 {
        Some(c - 55)
    } else {
        None
    }
}

/// `u8::from_str_radix` with radix 16 on two bytes.
fn hex_pair(c0: u8, c1: u8) -> (r: Option<u8>)
    ensures
        r == hex_pair_value(c0, c1),
{
    if c0 == 43 {
        return hex_digit(c1);
    }
    match (hex_digit(c0), hex_digit(c1)) {
        (Some(h), Some(l)) => Some(h * 16 + l),
        _ => None,
    }
}

/// Decodes `bytes[start..end]` as hex, pair by pair.
fn hex_decode_range(bytes: &[u8], start: usize, end: usize) -> (r: Option<Vec<u8>>)
    requires
        start <= end <= bytes@.len(),
        !(hex_decode_spec(bytes@.subrange(start as int, end as int)) is Panic),
    ensures
        match hex_decode_spec(bytes@.subrange(start as int, end as int)) {
            HexOutcome::Decoded(v) => r matches Some(x) && x@ == v,
            _ => r is None,
        },
{
    let ghost s = bytes@.subrange(start as int, end as int);
    if (end - start) % 2 != 0 {
        return None;
    }
    let mut out: Vec<u8> = Vec::new();
    let mut i: usize = start;
    while i < end
        invariant
            start <= i <= end <= bytes@.len(),
            s == bytes@.subrange(start as int, end as int),
            (i - start) % 2 == 0,
            (end - start) % 2 == 0,
            !(hex_decode_spec(s) is Panic),
            hex_decode_from(s, 0) == match hex_decode_from(s, i - start) {
                HexOutcome::Decoded(rest) => HexOutcome::Decoded(out@ + rest),
                other => other,
            },
        decreases end - i,
    {
        let ghost k = i - start;
        assert(s[k] == bytes@[i as int]);
        assert(s[k + 1] == bytes@[i + 1]);
        match hex_pair(bytes[i], bytes[i + 1]) {
            None => {
                return None;
            },
            Some(v) => {
                proof {
                    let tail = hex_decode_from(s, k + 2);
                    match tail {
                        HexOutcome::Decoded(rest) => {
                            assert(out@.push(v) + rest =~= out@ + (seq![v] + rest));
                        },
                        _ => {},
                    }
                }
                out.push(v);
                i += 2;
            },
        }
    }
    proof {
        assert(out@ + Seq::<u8>::empty() =~= out@);
    }
    Some(out)
}

/// True when decoding this hex string pair by pair would cut a multi-byte character
/// before it met a pair that is not hex: what a caller checks before decoding.
pub fn hex_decode_panics(s: &str) -> (r: bool)
    ensures
        r == (hex_decode_spec(s.spec_bytes()) is Panic),
{
    let bytes = s.as_bytes();
    let n = bytes.len();
    assert(bytes@ == s.spec_bytes());
    if n % 2 != 0 {
        return false;
    }
    let mut i: usize = 0;
    while i < n
        invariant
            i <= n,
            n == bytes@.len(),
            bytes@ == s.spec_bytes(),
            n % 2 == 0,
            i % 2 == 0,
            (hex_decode_from(bytes@, 0) is Panic) == (hex_decode_from(bytes@, i as int) is Panic),
        decreases n - i,
    {
        let cut = (bytes[i] >= 128 && bytes[i] < 192)
            || (i + 2 < n && bytes[i + 2] >= 128 && bytes[i + 2] < 192);
        if cut {
            assert(!starts_char(bytes@, i as int) || !starts_char(bytes@, i + 2));
            assert(hex_decode_from(bytes@, i as int) is Panic);
            return true;
        }
        assert(starts_char(bytes@, i as int) && starts_char(bytes@, i + 2));
        if hex_pair(bytes[i], bytes[i + 1]).is_none() {
            assert(hex_decode_from(bytes@, i as int) is Invalid);
            return false;
        }
        assert((hex_decode_from(bytes@, i as int) is Panic) == (hex_decode_from(bytes@, i + 2) is Panic));
        i += 2;
    }
    assert(hex_decode_from(bytes@, n as int) is Decoded);
    false
}

/// Decodes a hex string into bytes; `None` when it is not hex.
pub(crate) fn hex_decode(s: &str) -> (r: Option<Vec<u8>>)
    requires
        !(hex_decode_spec(s.spec_bytes()) is Panic),
    ensures
        match hex_decode_spec(s.spec_bytes()) {
            HexOutcome::Decoded(v) => r matches Some(x) && x@ == v,
            _ => r is None,
        },
{
    let bytes = s.as_bytes();
    assert(bytes@.subrange(0, bytes@.len() as int) =~= bytes@);
    hex_decode_range(bytes, 0, bytes.len())
}

/// Appends the lowercase hex digits of `bytes` to `out`.
fn push_hex(out: &mut Vec<u8>, bytes: &[u8])
    requires
        old(out)@.len() + 2 * bytes@.len() <= usize::MAX,
    ensures
        final(out)@ == old(out)@ + hex_encode_bytes(bytes@),
{
    let ghost start = old(out)@;
    let mut i: usize = 0;
    while i < bytes.len()
        invariant
            i <= bytes@.len(),
            start.len() + 2 * bytes@.len() <= usize::MAX,
            out@ == start + hex_encode_bytes(bytes@.subrange(0, i as int)),
        decreases bytes@.len() - i,
    {
        let b = bytes[i];
        let hi = b / 16;
        let lo = b % 16;
        out.push(if hi < 10 { hi + 48 } else { hi + 87 });
        out.push(if lo < 10 { lo + 48 } else { lo + 87 });
        i += 1;
        assert(start + hex_encode_bytes(bytes@.subrange(0, i as int)) =~= out@);
    }
    assert(bytes@.subrange(0, bytes@.len() as int) =~= bytes@);
}

/// Lemma: hex digits are ASCII.
proof fn lemma_hex_encode_ascii(bytes: Seq<u8>)
    ensures
        all_ascii(hex_encode_bytes(bytes)),
{
}

/// The lowercase hex string of bytes, two digits per byte.
pub(crate) fn hex_encode(bytes: &[u8]) -> (s: String)
    requires
        2 * bytes@.len() <= usize::MAX,
    ensures
        s@ == ascii_chars(hex_encode_bytes(bytes@)),
{
    let mut out: Vec<u8> = Vec::new();
    push_hex(&mut out, bytes);
    assert(out@ =~= hex_encode_bytes(bytes@));
    proof { lemma_hex_encode_ascii(bytes@); }
    string_from_ascii(out)
}

/// Bytewise XOR of two byte vectors of the same length.
fn xor_vec(a: &Vec<u8>, b: &Vec<u8>) -> (r: Vec<u8>)
    requires
        a@.len() == b@.len(),
    ensures
        r@ == xor_bytes(a@, b@),
{
    let mut r: Vec<u8> = Vec::with_capacity(a.len());
    let mut i: usize = 0;
    while i < a.len()
        invariant
            i <= a@.len() == b@.len(),
            r@ =~= xor_bytes(a@, b@).subrange(0, i as int),
        decreases a@.len() - i,
    {
        r.push(a[i] ^ b[i]);
        i += 1;
    }
    r
}

/// The path of a user's profile store: `/user/{public_key}`.
pub fn user_path(public_key: &str) -> (r: String)
    ensures
        r@ == "/user/"@ + public_key@,
{
    let mut s = String::from_str("/user/");
    s.append(public_key);
    s
}

/// The path of the one-to-one chat between two hex public keys: `/chat/` followed by
/// the lowercase hex of the bytewise XOR of the two keys, so both parties name it alike.
pub fn chat_path(a: &str, b: &str) -> (r: String)
    requires
        is_hex_key(a@),
        is_hex_key(b@),
        decoded(a@).len() == decoded(b@).len(),
        2 * decoded(a@).len() + 6 <= usize::MAX,
    ensures
        r@ == chat_path_spec(decoded(a@), decoded(b@)),
{
    let a_bytes = hex_decode(a).unwrap();
    let b_bytes = hex_decode(b).unwrap();
    let xor = xor_vec(&a_bytes, &b_bytes);
    let mut out: Vec<u8> = vec![47u8, 99u8, 104u8, 97u8, 116u8, 47u8];
    assert(out@ =~= chat_prefix());
    push_hex(&mut out, xor.as_slice());
    proof {
        lemma_hex_encode_ascii(xor@);
        assert(all_ascii(out@));
    }
    string_from_ascii(out)
}

/// Finds the end of the chat segment that starts at byte `i`.
fn find_segment_end(path: &[u8], start: usize) -> (r: usize)
    requires
        start <= path@.len(),
    ensures
        r == chat_segment_end(path@, start as int),
        start <= r <= path@.len(),
{
    let mut i = start;
    while i < path.len() && path[i] != 47
        invariant
            start <= i <= path@.len(),
            chat_segment_end(path@, i as int) == chat_segment_end(path@, start as int),
        decreases path@.len() - i,
    {
        i += 1;
    }
    i
}

/// Derives the peer's public key from a `/chat/{xor_hex}` path and one's own key.
pub fn peer_key_from_chat_path(own_key: &str, path: &str) -> (r: Option<String>)
    requires
        !peer_key_panics(own_key.spec_bytes(), path.spec_bytes()),
        own_key.spec_bytes().len() <= usize::MAX / 2,
    ensures
        r matches Some(s) ==> peer_key_spec(own_key.spec_bytes(), path.spec_bytes()) == Some(s@),
        r is None ==> peer_key_spec(own_key.spec_bytes(), path.spec_bytes()) is None,
{
    let p = path.as_bytes();
    if p.len() < 6 || p[0] != 47 || p[1] != 99 || p[2] != 104 || p[3] != 97 || p[4] != 116
        || p[5] != 47 {
        proof {
            if p@.len() >= 6 {
                if p@.subrange(0, 6) == chat_prefix() {
                    assert(p@[0] == p@.subrange(0, 6)[0]);
                    assert(p@[1] == p@.subrange(0, 6)[1]);
                    assert(p@[2] == p@.subrange(0, 6)[2]);
                    assert(p@[3] == p@.subrange(0, 6)[3]);
                    assert(p@[4] == p@.subrange(0, 6)[4]);
                    assert(p@[5] == p@.subrange(0, 6)[5]);
                }
            }
        }
        return None;
    }
    assert(p@.subrange(0, 6) =~= chat_prefix());
    let end = find_segment_end(p, 6);
    let xor_bytes = match hex_decode_range(p, 6, end) {
        Some(v) => v,
        None => return None,
    };
    let own = match hex_decode(own_key) {
        Some(v) => v,
        None => return None,
    };
    if xor_bytes.len() != own.len() {
        return None;
    }
    proof {
        lemma_hex_decode_from_len(own_key.spec_bytes(), 0);
    }
    let peer = xor_vec(&xor_bytes, &own);
    Some(hex_encode(peer.as_slice()))
}

/// ASCII bytes are their own UTF-8 encoding.
pub proof fn lemma_ascii_encode_utf8(bytes: Seq<u8>)
    requires
        all_ascii(bytes),
    ensures
        vstd::utf8::encode_utf8(ascii_chars(bytes)) == bytes,
{
    let chars = ascii_chars(bytes);
    assert(vstd::utf8::is_ascii_chars(chars)) by {
        assert forall|i: int| 0 <= i < chars.len() implies '\0' <= #[trigger] chars[i] <= '\u{7f}' by {
            assert(bytes[i] < 128);
        }
    }
    vstd::utf8::is_ascii_chars_encode_utf8(chars);
    assert forall|i: int| 0 <= i < bytes.len() implies vstd::utf8::encode_utf8(chars)[i] == bytes[i] by {
        assert(chars[i] as u8 == vstd::utf8::encode_utf8(chars)[i]);
        assert(bytes[i] < 128);
    }
    assert(vstd::utf8::encode_utf8(chars) =~= bytes);
}

proof fn lemma_hex_pair_of_byte(b: u8)
    ensures
        hex_pair_value(hex_digit_byte(b / 16), hex_digit_byte(b % 16)) == Some(b),
        hex_digit_byte(b / 16) != 43,
        hex_digit_byte(b / 16) < 128 && hex_digit_byte(b % 16) < 128,
        hex_digit_byte(b / 16) != 47 && hex_digit_byte(b % 16) != 47,
{
}

/// Decoding the lowercase hex of bytes gives those bytes back, from any pair on.
pub proof fn lemma_hex_decode_encode_from(v: Seq<u8>, k: int)
    requires
        0 <= k <= v.len(),
    ensures
        hex_decode_from(hex_encode_bytes(v), 2 * k) == HexOutcome::Decoded(v.subrange(k, v.len() as int)),
    decreases v.len() - k,
{
    let e = hex_encode_bytes(v);
    if k < v.len() {
        lemma_hex_decode_encode_from(v, k + 1);
        lemma_hex_pair_of_byte(v[k]);
        assert(e[2 * k] == hex_digit_byte(v[(2 * k) / 2] / 16));
        assert((2 * k) / 2 == k);
        assert((2 * k + 1) / 2 == k);
        assert(e[2 * k + 1] == hex_digit_byte(v[k] % 16));
        assert(starts_char(e, 2 * k));
        if 2 * k + 2 < e.len() {
            lemma_hex_pair_of_byte(v[k + 1]);
            assert((2 * k + 2) / 2 == k + 1);
            assert(e[2 * k + 2] == hex_digit_byte(v[k + 1] / 16));
        }
        assert(starts_char(e, 2 * k + 2));
        assert(seq![v[k]] + v.subrange(k + 1, v.len() as int) =~= v.subrange(k, v.len() as int));
    } else {
        assert(v.subrange(k, v.len() as int) =~= Seq::<u8>::empty());
    }
}

/// The lowercase hex of bytes decodes to those bytes.
pub proof fn lemma_hex_decode_encode(v: Seq<u8>)
    ensures
        hex_decode_spec(hex_encode_bytes(v)) == HexOutcome::Decoded(v),
        all_ascii(hex_encode_bytes(v)),
{
    lemma_hex_decode_encode_from(v, 0);
    assert(hex_encode_bytes(v).len() % 2 == 0);
    assert(v.subrange(0, v.len() as int) =~= v);
    lemma_hex_encode_ascii(v);
}

proof fn lemma_xor_bytes_back(a: Seq<u8>, b: Seq<u8>)
    requires
        a.len() == b.len(),
    ensures
        xor_bytes(xor_bytes(a, b), a) == b,
        xor_bytes(a, b) == xor_bytes(b, a),
{
    assert forall|i: int| 0 <= i < a.len() implies #[trigger] xor_bytes(xor_bytes(a, b), a)[i] == b[i] by {
        let x = a[i];
        let y = b[i];
        assert((x ^ y) ^ x == y) by (bit_vector);
    }
    assert forall|i: int| 0 <= i < a.len() implies #[trigger] xor_bytes(a, b)[i] == xor_bytes(b, a)[i] by {
        let x = a[i];
        let y = b[i];
        assert(x ^ y == y ^ x) by (bit_vector);
    }
    assert(xor_bytes(xor_bytes(a, b), a) =~= b);
    assert(xor_bytes(a, b) =~= xor_bytes(b, a));
}

/// The segment end of a run without `/` is the end of the path.
proof fn lemma_segment_end_no_slash(path: Seq<u8>, i: int)
    requires
        0 <= i <= path.len(),
        forall|j: int| i <= j < path.len() ==> path[j] != 47,
    ensures
        chat_segment_end(path, i) == path.len(),
    decreases path.len() - i,
{
    if i < path.len() {
        lemma_segment_end_no_slash(path, i + 1);
    }
}

/// Both parties of a one-to-one chat name it alike: the chat path of `a` and `b` is the
/// chat path of `b` and `a`.
pub proof fn law_chat_path_symmetric(a: Seq<u8>, b: Seq<u8>)
    requires
        a.len() == b.len(),
    ensures
        chat_path_spec(a, b) == chat_path_spec(b, a),
{
    lemma_xor_bytes_back(a, b);
}

/// The chat path of a key with itself is `/chat/` followed by `0` digits, two for each
/// byte of the key.
pub proof fn law_chat_path_self(a: Seq<u8>)
    ensures
        chat_path_spec(a, a) == ascii_chars(chat_prefix() + Seq::new(2 * a.len(), |i: int| 48u8)),
{
    let x = xor_bytes(a, a);
    assert forall|i: int| 0 <= i < a.len() implies #[trigger] x[i] == 0u8 by {
        let b = a[i];
        assert(b ^ b == 0u8) by (bit_vector);
    }
    assert(hex_encode_bytes(x) =~= Seq::new(2 * a.len(), |i: int| 48u8));
}

/// From the path of the chat between `own` and `other`, and its own key, a party recovers
/// the other party's key, in lowercase hex; the recovery never panics.
pub proof fn law_peer_key_from_chat_path(own: &str, other: &str, path: &str)
    requires
        is_hex_key(own@),
        is_hex_key(other@),
        decoded(own@).len() == decoded(other@).len(),
        path@ == chat_path_spec(decoded(own@), decoded(other@)),
    ensures
        !peer_key_panics(own.spec_bytes(), path.spec_bytes()),
        peer_key_spec(own.spec_bytes(), path.spec_bytes()) == Some(
            ascii_chars(hex_encode_bytes(decoded(other@))),
        ),
{
    let x = decoded(own@);
    let y = decoded(other@);
    let xy = xor_bytes(x, y);
    let hex = hex_encode_bytes(xy);
    lemma_hex_decode_encode(xy);
    let bytes = chat_prefix() + hex;
    assert(all_ascii(bytes)) by {
        assert forall|i: int| 0 <= i < bytes.len() implies #[trigger] bytes[i] < 128 by {
            if i >= 6 {
                assert(bytes[i] == hex[i - 6]);
            }
        }
    }
    lemma_ascii_encode_utf8(bytes);
    assert(path.spec_bytes() == bytes);
    assert(bytes.subrange(0, 6) =~= chat_prefix());
    assert forall|j: int| 6 <= j < bytes.len() implies bytes[j] != 47 by {
        let k = j - 6;
        assert(bytes[j] == hex[k]);
        lemma_hex_pair_of_byte(xy[k / 2]);
    }
    lemma_segment_end_no_slash(bytes, 6);
    assert(bytes.subrange(6, bytes.len() as int) =~= hex);
    lemma_hex_decode_from_len(own.spec_bytes(), 0);
    lemma_xor_bytes_back(x, y);
    assert(xor_bytes(xy, x) == y);
}

} // verus!
