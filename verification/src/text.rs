//! Building strings from bytes, and the byte-level view of `str` boundaries.
use vstd::prelude::*;
use vstd::string::StringSliceAdditionalSpecFns;

verus! {

/// The characters of a sequence of ASCII bytes.
pub open spec fn ascii_chars(bytes: Seq<u8>) -> Seq<char> {
    bytes.map_values(|b: u8| b as char)
}

/// True when every byte is an ASCII byte.
pub open spec fn all_ascii(bytes: Seq<u8>) -> bool {
    forall|i: int| 0 <= i < bytes.len() ==> #[trigger] bytes[i] < 128
}

/// True when the byte is a UTF-8 continuation byte (`0b10xx_xxxx`).
pub open spec fn is_continuation_byte(b: u8) -> bool {
    0x80 <= b < 0xC0
}

/// `str::is_char_boundary` on the bytes of a string: the end of the string, or a byte
/// that does not continue a multi-byte character.
pub open spec fn starts_char(bytes: Seq<u8>, index: int) -> bool {
    index == bytes.len() || (0 <= index < bytes.len() && !is_continuation_byte(bytes[index]))
}

/// `String::from_utf8` on bytes that are all ASCII: the string of those characters.
#[verifier::external_body]
pub(crate) fn string_from_ascii(bytes: Vec<u8>) -> (s: String)
    requires
        all_ascii(bytes@),
    ensures
        s@ == ascii_chars(bytes@),
{
    String::from_utf8(bytes).unwrap_or_default()
}

/// Two strings are equal exactly when their UTF-8 bytes are.
pub proof fn lemma_bytes_eq_iff(a: &str, b: &str)
    ensures
        (a.spec_bytes() == b.spec_bytes()) <==> (a@ == b@),
{
    vstd::utf8::encode_utf8_decode_utf8(a@);
    vstd::utf8::encode_utf8_decode_utf8(b@);
}

/// Compares two strings.
pub fn str_eq(a: &str, b: &str) -> (r: bool)
    ensures
        r == (a@ == b@),
{
    proof {
        lemma_bytes_eq_iff(a, b);
    }
    let x = a.as_bytes();
    let y = b.as_bytes();
    if x.len() != y.len() {
        return false;
    }
    let mut i: usize = 0;
    while i < x.len()
        invariant
            i <= x@.len(),
            x@.len() == y@.len(),
            x@ == a.spec_bytes(),
            y@ == b.spec_bytes(),
            (a.spec_bytes() == b.spec_bytes()) <==> (a@ == b@),
            forall|j: int| 0 <= j < i ==> x@[j] == y@[j],
        decreases x@.len() - i,
    {
        if x[i] != y[i] {
            assert(x@[i as int] != y@[i as int]);
            return false;
        }
        i += 1;
    }
    assert(x@ =~= y@);
    true
}

/// True when `a` comes strictly before `b` in byte-wise lexicographic order.
pub open spec fn bytes_less(a: Seq<u8>, b: Seq<u8>) -> bool
    decreases a.len(),
{
    if a.len() == 0 {
        b.len() > 0
    } else if b.len() == 0 {
        false
    } else if a[0] != b[0] {
        a[0] < b[0]
    } else {
        bytes_less(a.drop_first(), b.drop_first())
    }
}

/// Compares two byte strings lexicographically: -1 when `a` comes first, 0 when they are
/// equal, 1 when `b` comes first.
pub fn compare_bytes_sign(a: &[u8], b: &[u8]) -> (r: i8)
    ensures
        r == -1 <==> bytes_less(a@, b@),
        r == 0 <==> a@ == b@,
        r == 1 <==> !bytes_less(a@, b@) && a@ != b@,
        -1 <= r <= 1,
{
    let mut i: usize = 0;
    proof {
        assert(a@.subrange(0, a@.len() as int) =~= a@);
        assert(b@.subrange(0, b@.len() as int) =~= b@);
    }
    while i < a.len() && i < b.len()
        invariant
            i <= a@.len(),
            i <= b@.len(),
            a@.subrange(0, i as int) == b@.subrange(0, i as int),
            bytes_less(a@, b@) == bytes_less(a@.subrange(i as int, a@.len() as int), b@.subrange(i as int, b@.len() as int)),
        decreases a@.len() - i,
    {
        if a[i] != b[i] {
            proof {
                let sa = a@.subrange(i as int, a@.len() as int);
                let sb = b@.subrange(i as int, b@.len() as int);
                assert(sa[0] == a@[i as int] && sb[0] == b@[i as int]);
                assert(a@[i as int] != b@[i as int]);
            }
            if a[i] < b[i] {
                return -1;
            } else {
                return 1;
            }
        }
        proof {
            let sa = a@.subrange(i as int, a@.len() as int);
            let sb = b@.subrange(i as int, b@.len() as int);
            assert(sa.drop_first() =~= a@.subrange(i + 1, a@.len() as int));
            assert(sb.drop_first() =~= b@.subrange(i + 1, b@.len() as int));
            assert(a@.subrange(0, i + 1) =~= a@.subrange(0, i as int).push(a@[i as int]));
            assert(b@.subrange(0, i + 1) =~= b@.subrange(0, i as int).push(b@[i as int]));
        }
        i += 1;
    }
    if a.len() == b.len() {
        proof {
            assert(a@ =~= a@.subrange(0, i as int));
            assert(b@ =~= b@.subrange(0, i as int));
            assert(a@.subrange(i as int, a@.len() as int).len() == 0);
        }
        0
    } else if a.len() < b.len() {
        proof {
            assert(a@.subrange(i as int, a@.len() as int).len() == 0);
        }
        -1
    } else {
        proof {
            assert(b@.subrange(i as int, b@.len() as int).len() == 0);
        }
        1
    }
}

/// True when the bytes of `prefix` begin the bytes of `s` (`str::starts_with`).
pub open spec fn bytes_start_with(s: Seq<u8>, prefix: Seq<u8>) -> bool {
    prefix.len() <= s.len() && s.subrange(0, prefix.len() as int) == prefix
}

/// True when `s` begins with `prefix`.
pub fn has_prefix(s: &str, prefix: &str) -> (r: bool)
    ensures
        r == bytes_start_with(s.spec_bytes(), prefix.spec_bytes()),
{
    let a = s.as_bytes();
    let p = prefix.as_bytes();
    if p.len() > a.len() {
        return false;
    }
    let mut i: usize = 0;
    while i < p.len()
        invariant
            i <= p@.len(),
            p@.len() <= a@.len(),
            a@ == s.spec_bytes(),
            p@ == prefix.spec_bytes(),
            forall|k: int| 0 <= k < i ==> a@[k] == p@[k],
        decreases p@.len() - i,
    {
        if a[i] != p[i] {
            assert(a@.subrange(0, p@.len() as int)[i as int] == a@[i as int]);
            assert(a@.subrange(0, p@.len() as int) != p@);
            return false;
        }
        i += 1;
    }
    assert(a@.subrange(0, p@.len() as int) =~= p@);
    true
}

/// A character with the Unicode `White_Space` property, as `char::is_whitespace` reads it.
pub open spec fn is_white_space(c: char) -> bool {
    ('\u{9}' <= c && c <= '\u{d}') || c == ' ' || c == '\u{85}' || c == '\u{a0}' || c == '\u{1680}'
        || ('\u{2000}' <= c && c <= '\u{200a}') || c == '\u{2028}' || c == '\u{2029}' || c == '\u{202f}'
        || c == '\u{205f}' || c == '\u{3000}'
}

/// The characters with leading and trailing white space removed.
pub open spec fn trim_spec(s: Seq<char>) -> Seq<char>
    decreases s.len(),
{
    if s.len() > 0 && is_white_space(s[0]) {
        trim_spec(s.drop_first())
    } else if s.len() > 0 && is_white_space(s.last()) {
        trim_spec(s.drop_last())
    } else {
        s
    }
}

/// `str::trim`: the string without its leading and trailing white space.
#[verifier::external_body]
pub(crate) fn trim_str(s: &str) -> (r: &str)
    ensures
        r@ == trim_spec(s@),
{
    s.trim()
}

/// Byte-wise order is total: of two different strings, one comes first.
proof fn lemma_bytes_less_total(a: Seq<u8>, b: Seq<u8>)
    requires
        a != b,
    ensures
        bytes_less(a, b) || bytes_less(b, a),
    decreases a.len(),
{
    if a.len() == 0 && b.len() == 0 {
        assert(a =~= b);
    }
    if a.len() > 0 && b.len() > 0 && a[0] == b[0] {
        if a.drop_first() == b.drop_first() {
            assert(a.drop_first().len() == b.drop_first().len());
            assert(a.len() == b.len());
            assert(a =~= b) by {
                assert forall|i: int| 0 <= i < a.len() implies a[i] == b[i] by {
                    if i > 0 {
                        assert(a[i] == a.drop_first()[i - 1]);
                        assert(b[i] == b.drop_first()[i - 1]);
                    }
                }
            }
        } else {
            lemma_bytes_less_total(a.drop_first(), b.drop_first());
        }
    }
}

/// Byte-wise order is irreflexive, asymmetric and transitive.
proof fn lemma_bytes_less_strict(a: Seq<u8>, b: Seq<u8>, c: Seq<u8>)
    ensures
        !bytes_less(a, a),
        bytes_less(a, b) ==> !bytes_less(b, a),
        bytes_less(a, b) && bytes_less(b, c) ==> bytes_less(a, c),
    decreases a.len(),
{
    if a.len() > 0 && b.len() > 0 && c.len() > 0 {
        lemma_bytes_less_strict(a.drop_first(), b.drop_first(), c.drop_first());
    } else if a.len() > 0 && b.len() > 0 {
        lemma_bytes_less_strict(a.drop_first(), b.drop_first(), b.drop_first());
    } else if a.len() > 0 {
        lemma_bytes_less_strict(a.drop_first(), a.drop_first(), a.drop_first());
    }
}

/// Byte-wise order is a strict total order: never `a < a`, never both ways, one way
/// whenever the strings differ, and transitive.
pub proof fn lemma_bytes_less_order(a: Seq<u8>, b: Seq<u8>, c: Seq<u8>)
    ensures
        !bytes_less(a, a),
        bytes_less(a, b) ==> !bytes_less(b, a),
        a != b ==> bytes_less(a, b) || bytes_less(b, a),
        bytes_less(a, b) && bytes_less(b, c) ==> bytes_less(a, c),
{
    lemma_bytes_less_strict(a, b, c);
    if a != b {
        lemma_bytes_less_total(a, b);
    }
}

} // verus!
