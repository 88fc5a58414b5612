//! Chat messages between two public keys.
use vstd::prelude::*;
use std::cmp::Ordering;
use vstd::std_specs::cmp::{PartialEqSpecImpl, PartialOrdSpecImpl};
use vstd::string::StringSliceAdditionalSpecFns;
use vstd::utf8::encode_utf8;
use crate::ids::{is_v7, new_uuid_v7, uuid_hyphenated_bytes, uuid_to_string};
use crate::text::ascii_chars;
use crate::node::{chat_path, chat_path_spec, decoded, is_hex_key};
use crate::text::{bytes_less, compare_bytes_sign};

verus! {

/// A chat message.
#[derive(Clone, Debug)]
pub struct ChatMessage {
    pub id: String,
    pub created_at: i64,
    pub from: String,
    pub to: String,
    pub content: String,
}

/// How two byte strings compare, lexicographically (the order of `str`).
pub open spec fn bytes_order(a: Seq<u8>, b: Seq<u8>) -> Ordering {
    if a == b {
        Ordering::Equal
    } else if bytes_less(a, b) {
        Ordering::Less
    } else {
        Ordering::Greater
    }
}

/// How two messages are ordered: by creation time, then by id.
pub open spec fn message_order(a: ChatMessage, b: ChatMessage) -> Ordering {
    if a.created_at < b.created_at {
        Ordering::Less
    } else if a.created_at > b.created_at {
        Ordering::Greater
    } else {
        bytes_order(encode_utf8(a.id@), encode_utf8(b.id@))
    }
}

/// Compares two byte strings lexicographically.
fn compare_bytes(a: &[u8], b: &[u8]) -> (r: Ordering)
    ensures
        r == bytes_order(a@, b@),
{
    let c = compare_bytes_sign(a, b);
    if c < 0 {
        Ordering::Less
    } else if c == 0 {
        Ordering::Equal
    } else {
        Ordering::Greater
    }
}

impl PartialEq for ChatMessage {
    /// Two messages are the same message when they have the same creation time and id.
    fn eq(&self, other: &Self) -> (r: bool) {
        self.created_at == other.created_at && crate::text::str_eq(self.id.as_str(), other.id.as_str())
    }
}

impl PartialEqSpecImpl for ChatMessage {
    open spec fn obeys_eq_spec() -> bool {
        true
    }

    open spec fn eq_spec(&self, other: &Self) -> bool {
        self.created_at == other.created_at && self.id@ == other.id@
    }
}

impl Eq for ChatMessage {}

impl PartialOrd for ChatMessage {
    /// Messages are ordered by creation time, then by id.
    fn partial_cmp(&self, other: &Self) -> (r: Option<Ordering>) {
        if self.created_at < other.created_at {
            Some(Ordering::Less)
        } else if self.created_at > other.created_at {
            Some(Ordering::Greater)
        } else {
            Some(compare_bytes(self.id.as_str().as_bytes(), other.id.as_str().as_bytes()))
        }
    }
}

impl PartialOrdSpecImpl for ChatMessage {
    open spec fn obeys_partial_cmp_spec() -> bool {
        true
    }

    open spec fn partial_cmp_spec(&self, other: &Self) -> Option<Ordering> {
        Some(message_order(*self, *other))
    }
}

impl ChatMessage {
    /// A message with all its fields given.
    pub fn new(id: String, created_at: i64, from: String, to: String, content: String) -> (r: Self)
        ensures
            r == (ChatMessage { id, created_at, from, to, content }),
    {
        ChatMessage { id, created_at, from, to, content }
    }

    /// A new message with a fresh id (the hyphenated text of a version-7 UUID) and no
    /// creation time yet.
    pub fn create(from: String, to: String, content: String) -> (r: Self)
        ensures
            exists|v: u128| is_v7(v) && r.id@ == #[trigger] ascii_chars(uuid_hyphenated_bytes(v)),
            r.created_at == 0,
            r.from == from,
            r.to == to,
            r.content == content,
    {
        let id = uuid_to_string(new_uuid_v7());
        Self::new(id, 0, from, to, content)
    }

    /// The path of the chat this message belongs to.
    pub fn chat_id(&self) -> (r: String)
        requires
            is_hex_key(self.from@),
            is_hex_key(self.to@),
            decoded(self.from@).len() == decoded(self.to@).len(),
            2 * decoded(self.from@).len() + 6 <= usize::MAX,
        ensures
            r@ == chat_path_spec(decoded(self.from@), decoded(self.to@)),
    {
        Self::calc_chat_id(self.from.as_str(), self.to.as_str())
    }

    /// The path of the chat between `from` and `to`.
    pub fn calc_chat_id(from: &str, to: &str) -> (r: String)
        requires
            is_hex_key(from@),
            is_hex_key(to@),
            decoded(from@).len() == decoded(to@).len(),
            2 * decoded(from@).len() + 6 <= usize::MAX,
        ensures
            r@ == chat_path_spec(decoded(from@), decoded(to@)),
    {
        chat_path(from, to)
    }
}

/// True when `a` does not come after `b` in message order.
pub open spec fn not_after(a: ChatMessage, b: ChatMessage) -> bool {
    message_order(a, b) != Ordering::Greater
}

impl ChatMessage {
    /// A copy of the message.
    pub fn duplicate(&self) -> (r: Self)
        ensures
            r == *self,
    {
        ChatMessage {
            id: self.id.clone(),
            created_at: self.created_at,
            from: self.from.clone(),
            to: self.to.clone(),
            content: self.content.clone(),
        }
    }
}

/// True when `a` comes strictly before `b` in message order.
pub open spec fn comes_before(a: ChatMessage, b: ChatMessage) -> bool {
    message_order(a, b) == Ordering::Less
}

/// True when `a` comes strictly before `b`: earlier, or as early with a smaller id.
pub fn message_before(a: &ChatMessage, b: &ChatMessage) -> (r: bool)
    ensures
        r == comes_before(*a, *b),
{
    if a.created_at < b.created_at {
        true
    } else if a.created_at > b.created_at {
        false
    } else {
        crate::text::compare_bytes_sign(a.id.as_str().as_bytes(), b.id.as_str().as_bytes()) == -1
    }
}

/// A message that does not come before another comes with it or after it.
pub proof fn lemma_not_before(x: ChatMessage, y: ChatMessage)
    ensures
        !comes_before(x, y) ==> not_after(y, x),
{
    lemma_order_total(x, y);
}

/// The latest message: the greatest by creation time, then id (the last of equal ones).
pub fn last_message(messages: &Vec<ChatMessage>) -> (r: Option<ChatMessage>)
    ensures
        r is None <==> messages@.len() == 0,
        r matches Some(m) ==> exists|i: int| 0 <= i < messages@.len() && messages@[i] == m,
        r matches Some(m) ==> forall|j: int| 0 <= j < messages@.len() ==> #[trigger] not_after(messages@[j], m),
{
    if messages.len() == 0 {
        return None;
    }
    let mut best: usize = 0;
    let mut i: usize = 1;
    while i < messages.len()
        invariant
            1 <= i <= messages@.len(),
            best < i,
            forall|j: int| 0 <= j < i ==> #[trigger] not_after(messages@[j], messages@[best as int]),
        decreases messages@.len() - i,
    {
        if !message_before(&messages[i], &messages[best]) {
            proof {
                lemma_not_before(messages@[i as int], messages@[best as int]);
                assert forall|j: int| 0 <= j < i + 1 implies #[trigger] not_after(messages@[j], messages@[i as int]) by {
                    if j < i {
                        lemma_order_transitive(messages@[j], messages@[best as int], messages@[i as int]);
                    } else {
                        lemma_not_after_self(messages@[j]);
                    }
                }
            }
            best = i;
        }
        i += 1;
    }
    Some(messages[best].duplicate())
}

/// Message order is reversed when the messages are swapped.
proof fn lemma_order_total(x: ChatMessage, y: ChatMessage)
    ensures
        message_order(x, y) == Ordering::Less <==> message_order(y, x) == Ordering::Greater,
        message_order(x, y) == Ordering::Equal <==> message_order(y, x) == Ordering::Equal,
        message_order(x, y) == Ordering::Greater <==> message_order(y, x) == Ordering::Less,
{
    crate::text::lemma_bytes_less_order(encode_utf8(x.id@), encode_utf8(y.id@), encode_utf8(y.id@));
    crate::text::lemma_bytes_less_order(encode_utf8(y.id@), encode_utf8(x.id@), encode_utf8(x.id@));
}

/// A message is not after itself.
proof fn lemma_not_after_self(x: ChatMessage)
    ensures
        not_after(x, x),
{
    crate::text::lemma_bytes_less_order(encode_utf8(x.id@), encode_utf8(x.id@), encode_utf8(x.id@));
}

/// A message not after a second, which is not after a third, is not after the third.
proof fn lemma_order_transitive(a: ChatMessage, b: ChatMessage, c: ChatMessage)
    requires
        not_after(a, b),
        not_after(b, c),
    ensures
        not_after(a, c),
{
    let ea = encode_utf8(a.id@);
    let eb = encode_utf8(b.id@);
    let ec = encode_utf8(c.id@);
    crate::text::lemma_bytes_less_order(ea, eb, ec);
    crate::text::lemma_bytes_less_order(ec, eb, ea);
    crate::text::lemma_bytes_less_order(eb, ec, ea);
    crate::text::lemma_bytes_less_order(ec, ea, eb);
    crate::text::lemma_bytes_less_order(ea, ec, eb);
    crate::text::lemma_bytes_less_order(eb, ea, ec);
}

} // verus!
