//! What the client reads out of its stores, and the decisions it takes each step:
//! which calls to keep, which sync commands to accept, whom to tell of a call's state.
use vstd::prelude::*;
use crate::call::{Call, CallPartyStatus, not_hung_up_keys, others_all_hung_up, status_of};
use crate::chat::ChatMessage;
use crate::contact::{Contact, ContactType};
use crate::ids::{uuid_timestamp_secs, uuid_to_string, uuid_unix_seconds};
use crate::record::{HoshiPayload, HoshiRecord};
use crate::store::{HeadCommand, StoreHead};
use crate::net::{HoshiMessage, HoshiPayload as NetPayload};
use crate::node::{chat_path, chat_path_spec, decoded, is_hex_key, peer_key_from_chat_path, peer_key_panics, peer_key_spec, user_path};
use crate::call::CallPartyEvent;
use vstd::string::StringSliceAdditionalSpecFns;

verus! {

/// The value of the last `Config` record for `key`, if any.
pub open spec fn last_config(records: Seq<HoshiRecord>, key: Seq<char>) -> Option<Seq<char>>
    decreases records.len(),
{
    if records.len() == 0 {
        None
    } else {
        match records.last().payload {
            HoshiPayload::Config { key: k, value } => if k@ == key {
                Some(value@)
            } else {
                last_config(records.drop_last(), key)
            },
            _ => last_config(records.drop_last(), key),
        }
    }
}

/// The title of the last `Title` record written by `author`, if any.
pub open spec fn last_title(records: Seq<HoshiRecord>, author: Seq<char>) -> Option<Seq<char>>
    decreases records.len(),
{
    if records.len() == 0 {
        None
    } else {
        match records.last().payload {
            HoshiPayload::Title { title } => if records.last().from@ == author {
                Some(title@)
            } else {
                last_title(records.drop_last(), author)
            },
            _ => last_title(records.drop_last(), author),
        }
    }
}

/// The contact list the `Contact` records describe, in order: each sets the type of its
/// key, and a `Deleted` one removes the key.
pub open spec fn contacts_map(records: Seq<HoshiRecord>) -> Map<Seq<char>, ContactType>
    decreases records.len(),
{
    if records.len() == 0 {
        Map::empty()
    } else {
        let m = contacts_map(records.drop_last());
        match records.last().payload {
            HoshiPayload::Contact { public_key, contact_type } => if contact_type == ContactType::Deleted {
                m.remove(public_key@)
            } else {
                m.insert(public_key@, contact_type)
            },
            _ => m,
        }
    }
}

/// The value of the last `Config` record for `key` in the head, if any.
pub fn config_get(head: &StoreHead<HoshiRecord>, key: &str) -> (r: Option<String>)
    ensures
        r matches Some(v) ==> last_config(head.records(), key@) == Some(v@),
        r is None ==> last_config(head.records(), key@) is None,
{
    let records = head.get_all();
    let mut i = records.len();
    assert(records@.subrange(0, records@.len() as int) =~= records@);
    while i > 0
        invariant
            i <= records@.len(),
            records@ == head.records(),
            last_config(records@, key@) == last_config(records@.subrange(0, i as int), key@),
        decreases i,
    {
        let ghost sub = records@.subrange(0, i as int);
        assert(sub.drop_last() =~= records@.subrange(0, i - 1));
        assert(sub.last() == records@[i - 1]);
        match &records[i - 1].payload {
            HoshiPayload::Config { key: k, value } => {
                if crate::text::str_eq(k.as_str(), key) {
                    return Some(value.clone());
                }
            },
            _ => {},
        }
        i -= 1;
    }
    assert(records@.subrange(0, 0) =~= Seq::<HoshiRecord>::empty());
    None
}

/// The title `author` last gave itself in the head, if any.
pub fn alias_from_head(head: &StoreHead<HoshiRecord>, public_key: &str) -> (r: Option<String>)
    ensures
        r matches Some(v) ==> last_title(head.records(), public_key@) == Some(v@),
        r is None ==> last_title(head.records(), public_key@) is None,
{
    let records = head.get_all();
    let mut i = records.len();
    assert(records@.subrange(0, records@.len() as int) =~= records@);
    while i > 0
        invariant
            i <= records@.len(),
            records@ == head.records(),
            last_title(records@, public_key@) == last_title(records@.subrange(0, i as int), public_key@),
        decreases i,
    {
        let ghost sub = records@.subrange(0, i as int);
        assert(sub.drop_last() =~= records@.subrange(0, i - 1));
        assert(sub.last() == records@[i - 1]);
        match &records[i - 1].payload {
            HoshiPayload::Title { title } => {
                if crate::text::str_eq(records[i - 1].from.as_str(), public_key) {
                    return Some(title.clone());
                }
            },
            _ => {},
        }
        i -= 1;
    }
    assert(records@.subrange(0, 0) =~= Seq::<HoshiRecord>::empty());
    None
}

/// True when the contacts hold each key once and are exactly the entries of `m`.
pub open spec fn contacts_match(v: Seq<Contact>, m: Map<Seq<char>, ContactType>) -> bool {
    &&& forall|i: int, j: int| 0 <= i < j < v.len() ==> v[i].public_key@ != v[j].public_key@
    &&& forall|i: int| 0 <= i < v.len() ==> (m.contains_key(#[trigger] v[i].public_key@) && m[v[i].public_key@] == v[i].contact_type)
    &&& forall|k: Seq<char>| #[trigger] m.contains_key(k) ==> exists|i: int| 0 <= i < v.len() && v[i].public_key@ == k
}

/// Index of the contact with this key, or `v.len()` when there is none.
fn find_contact(v: &Vec<Contact>, key: &str) -> (r: usize)
    ensures
        r <= v@.len(),
        r < v@.len() ==> v@[r as int].public_key@ == key@,
        r == v@.len() ==> forall|i: int| 0 <= i < v@.len() ==> v@[i].public_key@ != key@,
{
    let mut i: usize = 0;
    while i < v.len()
        invariant
            i <= v@.len(),
            forall|k: int| 0 <= k < i ==> v@[k].public_key@ != key@,
        decreases v@.len() - i,
    {
        if crate::text::str_eq(v[i].public_key.as_str(), key) {
            return i;
        }
        i += 1;
    }
    i
}

/// The contact list the head's `Contact` records describe.
pub fn contacts_from_head(head: &StoreHead<HoshiRecord>) -> (r: Vec<Contact>)
    ensures
        contacts_match(r@, contacts_map(head.records())),
{
    let records = head.get_all();
    let mut contacts: Vec<Contact> = Vec::new();
    let mut i: usize = 0;
    while i < records.len()
        invariant
            i <= records@.len(),
            records@ == head.records(),
            contacts_match(contacts@, contacts_map(records@.subrange(0, i as int))),
        decreases records@.len() - i,
    {
        let ghost sub = records@.subrange(0, i + 1);
        assert(sub.drop_last() =~= records@.subrange(0, i as int));
        assert(sub.last() == records@[i as int]);
        let ghost m = contacts_map(records@.subrange(0, i as int));
        let ghost before = contacts@;
        match &records[i].payload {
            HoshiPayload::Contact { public_key, contact_type } => {
                let j = find_contact(&contacts, public_key.as_str());
                if *contact_type == ContactType::Deleted {
                    if j < contacts.len() {
                        contacts.remove(j);
                        proof {
                            let m2 = m.remove(public_key@);
                            assert(contacts_map(sub) == m2);
                            assert forall|a: int| 0 <= a < contacts@.len() implies (m2.contains_key(#[trigger] contacts@[a].public_key@) && m2[contacts@[a].public_key@] == contacts@[a].contact_type) by {
                                let a2 = if a < j { a } else { a + 1 };
                                assert(contacts@[a] == before[a2]);
                                assert(a2 != j);
                                assert(before[a2].public_key@ != public_key@);
                                assert(m.contains_key(before[a2].public_key@));
                            }
                            assert forall|k: Seq<char>| #[trigger] m2.contains_key(k) implies exists|a: int| 0 <= a < contacts@.len() && contacts@[a].public_key@ == k by {
                                let a = choose|a: int| 0 <= a < before.len() && before[a].public_key@ == k;
                                if a < j {
                                    assert(contacts@[a] == before[a]);
                                } else {
                                    assert(a != j);
                                    assert(contacts@[a - 1] == before[a]);
                                }
                            }
                            assert forall|a: int, b: int| 0 <= a < b < contacts@.len() implies contacts@[a].public_key@ != contacts@[b].public_key@ by {
                                let a2 = if a < j { a } else { a + 1 };
                                let b2 = if b < j { b } else { b + 1 };
                                assert(contacts@[a] == before[a2]);
                                assert(contacts@[b] == before[b2]);
                            }
                            assert(contacts_match(contacts@, m2));
                        }
                    } else {
                        proof {
                            assert(m.remove(public_key@) =~= m);
                            assert(contacts_map(sub) == m);
                            assert(contacts_match(contacts@, m));
                        }
                    }
                } else {
                    let c = Contact { public_key: public_key.clone(), contact_type: *contact_type };
                    if j < contacts.len() {
                        contacts.set(j, c);
                    } else {
                        contacts.push(c);
                    }
                    proof {
                        let m2 = m.insert(public_key@, *contact_type);
                        assert(contacts_map(sub) == m2);
                        assert forall|a: int| 0 <= a < contacts@.len() implies (m2.contains_key(#[trigger] contacts@[a].public_key@) && m2[contacts@[a].public_key@] == contacts@[a].contact_type) by {
                            if a != j {
                                assert(contacts@[a] == before[a]);
                                assert(before[a].public_key@ != public_key@);
                                assert(m.contains_key(before[a].public_key@));
                            } else {
                                assert(contacts@[a] == c);
                            }
                        }
                        assert forall|k: Seq<char>| #[trigger] m2.contains_key(k) implies exists|a: int| 0 <= a < contacts@.len() && contacts@[a].public_key@ == k by {
                            if k == public_key@ {
                                assert(contacts@[j as int].public_key@ == k);
                            } else {
                                let a = choose|a: int| 0 <= a < before.len() && before[a].public_key@ == k;
                                assert(contacts@[a] == before[a]);
                            }
                        }
                        assert forall|a: int, b: int| 0 <= a < b < contacts@.len() implies contacts@[a].public_key@ != contacts@[b].public_key@ by {
                            if a != j && b != j {
                                assert(contacts@[a] == before[a]);
                                assert(contacts@[b] == before[b]);
                            } else if a == j {
                                assert(contacts@[b] == before[b]);
                            } else {
                                assert(contacts@[a] == before[a]);
                            }
                        }
                        assert(contacts_match(contacts@, m2));
                    }
                }
            },
            _ => {
                assert(contacts_map(sub) == m);
                assert(contacts_match(contacts@, m));
            },
        }
        assert(contacts_match(contacts@, contacts_map(sub)));
        i += 1;
    }
    assert(records@.subrange(0, i as int) =~= records@);
    contacts
}

/// A chat message as the contracts see it: id, creation time, sender, recipient, text.
pub open spec fn message_view(m: ChatMessage) -> (Seq<char>, i64, Seq<char>, Seq<char>, Seq<char>) {
    (m.id@, m.created_at, m.from@, m.to@, m.content@)
}

/// The creation time of a message, in Unix seconds, read from its record's id; 0 when
/// the id carries no timestamp.
pub open spec fn created_at_of(id: u128) -> i64 {
    match uuid_timestamp_secs(id) {
        Some(s) => s as i64,
        None => 0,
    }
}

/// The chat messages the `Text` records of `our` and `peer` make, in record order.
pub open spec fn chat_messages_spec(records: Seq<HoshiRecord>, our: Seq<char>, peer: Seq<char>) -> Seq<(Seq<char>, i64, Seq<char>, Seq<char>, Seq<char>)>
    decreases records.len(),
{
    if records.len() == 0 {
        Seq::empty()
    } else {
        let prev = chat_messages_spec(records.drop_last(), our, peer);
        let r = records.last();
        match r.payload {
            HoshiPayload::Text { content } => if r.from@ == our || r.from@ == peer {
                prev.push((
                    crate::text::ascii_chars(crate::ids::uuid_hyphenated_bytes(r.id)),
                    created_at_of(r.id),
                    r.from@,
                    if r.from@ == our { peer } else { our },
                    content@,
                ))
            } else {
                prev
            },
            _ => prev,
        }
    }
}

/// The messages of a chat head between `our_key` and `peer_key`: each `Text` record
/// written by either becomes a message to the other, dated by its id.
pub fn chat_messages_from_head(head: &StoreHead<HoshiRecord>, our_key: &str, peer_key: &str) -> (r: Vec<ChatMessage>)
    ensures
        r@.map_values(|m: ChatMessage| message_view(m)) == chat_messages_spec(head.records(), our_key@, peer_key@),
{
    let records = head.get_all();
    let mut out: Vec<ChatMessage> = Vec::new();
    let mut i: usize = 0;
    while i < records.len()
        invariant
            i <= records@.len(),
            records@ == head.records(),
            out@.map_values(|m: ChatMessage| message_view(m)) == chat_messages_spec(records@.subrange(0, i as int), our_key@, peer_key@),
        decreases records@.len() - i,
    {
        let ghost sub = records@.subrange(0, i + 1);
        assert(sub.drop_last() =~= records@.subrange(0, i as int));
        assert(sub.last() == records@[i as int]);
        let record = &records[i];
        match &record.payload {
            HoshiPayload::Text { content } => {
                let from = record.from.as_str();
                let is_ours = crate::text::str_eq(from, our_key);
                if is_ours || crate::text::str_eq(from, peer_key) {
                    let created_at: i64 = match uuid_unix_seconds(record.id) {
                        Some(secs) => secs as i64,
                        None => 0,
                    };
                    let to = if is_ours { peer_key.to_string() } else { our_key.to_string() };
                    let msg = ChatMessage::new(uuid_to_string(record.id), created_at, record.from.clone(), to, content.clone());
                    let ghost before = out@;
                    out.push(msg);
                    assert(out@.map_values(|m: ChatMessage| message_view(m)) =~= before.map_values(|m: ChatMessage| message_view(m)).push(message_view(msg)));
                }
            },
            _ => {},
        }
        i += 1;
    }
    assert(records@.subrange(0, i as int) =~= records@);
    out
}

/// What changed during a step of the client: the contact list, the profiles, and which
/// chats.
#[derive(Debug)]
pub struct StepChanges {
    contacts_changed: bool,
    profiles_changed: bool,
    changed_chat_ids: Vec<String>,
}

/// True when no string occurs twice.
pub open spec fn distinct_strings(s: Seq<Seq<char>>) -> bool {
    forall|i: int, j: int| 0 <= i < j < s.len() ==> s[i] != s[j]
}

impl StepChanges {
    /// True when the contact list changed.
    pub closed spec fn spec_contacts(&self) -> bool {
        self.contacts_changed
    }

    /// True when a profile changed.
    pub closed spec fn spec_profiles(&self) -> bool {
        self.profiles_changed
    }

    /// The chats that changed, each once, in the order they were first noted.
    pub closed spec fn spec_chats(&self) -> Seq<Seq<char>> {
        self.changed_chat_ids@.map_values(|c: String| c@)
    }

    /// Nothing changed.
    pub fn new() -> (r: Self)
        ensures
            !r.spec_contacts(),
            !r.spec_profiles(),
            r.spec_chats() == Seq::<Seq<char>>::empty(),
    {
        let r = StepChanges { contacts_changed: false, profiles_changed: false, changed_chat_ids: Vec::new() };
        assert(r.spec_chats() =~= Seq::<Seq<char>>::empty());
        r
    }

    /// Notes that the contact list changed.
    pub fn note_contacts(&mut self)
        ensures
            final(self).spec_contacts(),
            final(self).spec_profiles() == old(self).spec_profiles(),
            final(self).spec_chats() == old(self).spec_chats(),
    {
        self.contacts_changed = true;
    }

    /// Notes that a profile changed.
    pub fn note_profiles(&mut self)
        ensures
            final(self).spec_profiles(),
            final(self).spec_contacts() == old(self).spec_contacts(),
            final(self).spec_chats() == old(self).spec_chats(),
    {
        self.profiles_changed = true;
    }

    /// Notes that a chat changed; a chat already noted is not noted twice.
    pub fn note_chat(&mut self, chat_id: String)
        requires
            distinct_strings(old(self).spec_chats()),
        ensures
            distinct_strings(final(self).spec_chats()),
            final(self).spec_chats() == if old(self).spec_chats().contains(chat_id@) {
                old(self).spec_chats()
            } else {
                old(self).spec_chats().push(chat_id@)
            },
            final(self).spec_contacts() == old(self).spec_contacts(),
            final(self).spec_profiles() == old(self).spec_profiles(),
    {
        let ghost v = self.spec_chats();
        let mut i: usize = 0;
        while i < self.changed_chat_ids.len()
            invariant
                i <= self.changed_chat_ids@.len(),
                v == self.changed_chat_ids@.map_values(|c: String| c@),
                v == old(self).spec_chats(),
                self.changed_chat_ids@ == old(self).changed_chat_ids@,
                self.contacts_changed == old(self).contacts_changed,
                self.profiles_changed == old(self).profiles_changed,
                distinct_strings(v),
                forall|k: int| 0 <= k < i ==> v[k] != chat_id@,
            decreases self.changed_chat_ids@.len() - i,
        {
            if self.changed_chat_ids[i] == chat_id {
                assert(v[i as int] == chat_id@);
                return;
            }
            i += 1;
        }
        let ghost before = self.changed_chat_ids@;
        self.changed_chat_ids.push(chat_id);
        proof {
            assert(!v.contains(chat_id@));
            assert(self.spec_chats() =~= v.push(chat_id@));
            assert forall|a: int, b: int| 0 <= a < b < v.push(chat_id@).len() implies v.push(chat_id@)[a] != v.push(chat_id@)[b] by {
                if b == v.len() {
                    assert(v.push(chat_id@)[a] == v[a]);
                }
            }
        }
    }

    /// Adds what `other` noted.
    pub fn merge(&mut self, other: StepChanges)
        requires
            distinct_strings(old(self).spec_chats()),
        ensures
            distinct_strings(final(self).spec_chats()),
            final(self).spec_contacts() == (old(self).spec_contacts() || other.spec_contacts()),
            final(self).spec_profiles() == (old(self).spec_profiles() || other.spec_profiles()),
            forall|c: Seq<char>| final(self).spec_chats().contains(c) <==> (old(self).spec_chats().contains(c) || other.spec_chats().contains(c)),
    {
        self.contacts_changed = self.contacts_changed || other.contacts_changed;
        self.profiles_changed = self.profiles_changed || other.profiles_changed;
        let ghost start = self.spec_chats();
        let ghost theirs = other.spec_chats();
        assert(start == old(self).spec_chats());
        let mut n: usize = 0;
        while n < other.changed_chat_ids.len()
            invariant
                n <= theirs.len(),
                theirs == other.changed_chat_ids@.map_values(|c: String| c@),
                distinct_strings(self.spec_chats()),
                forall|c: Seq<char>| self.spec_chats().contains(c) <==> (start.contains(c) || theirs.subrange(0, n as int).contains(c)),
                self.contacts_changed == (old(self).contacts_changed || other.contacts_changed),
                self.profiles_changed == (old(self).profiles_changed || other.profiles_changed),
            decreases theirs.len() - n,
        {
            let c = other.changed_chat_ids[n].clone();
            assert(c@ == theirs[n as int]);
            let ghost before = self.spec_chats();
            self.note_chat(c);
            let ghost prev = theirs.subrange(0, n as int);
            let ghost t = theirs[n as int];
            n += 1;
            proof {
                assert(theirs.subrange(0, n as int) =~= prev.push(t));
                assert forall|x: Seq<char>| #[trigger] self.spec_chats().contains(x) <==> (start.contains(x) || theirs.subrange(0, n as int).contains(x)) by {
                    vstd::seq_lib::lemma_seq_contains_after_push(before, t, x);
                    vstd::seq_lib::lemma_seq_contains_after_push(prev, t, x);
                    assert(before.contains(x) <==> (start.contains(x) || prev.contains(x)));
                }
            }
        }
        assert(theirs.subrange(0, n as int) =~= theirs);
        assert forall|c: Seq<char>| self.spec_chats().contains(c) <==> (old(self).spec_chats().contains(c) || other.spec_chats().contains(c)) by {
            assert(self.spec_chats().contains(c) <==> (start.contains(c) || theirs.subrange(0, n as int).contains(c)));
        }
    }

    /// True when the contact view must be refreshed: the contacts or a profile changed.
    pub fn has_contact_view_changes(&self) -> (r: bool)
        ensures
            r == (self.spec_contacts() || self.spec_profiles()),
    {
        self.contacts_changed || self.profiles_changed
    }

    /// The chats that changed.
    pub fn changed_chat_ids(&self) -> (r: &Vec<String>)
        ensures
            r@.map_values(|c: String| c@) == self.spec_chats(),
    {
        &self.changed_chat_ids
    }
}

/// A handle on a registered watcher; the watcher is removed when the handle is
/// released (the application runs that release when it drops its handle).
#[derive(Debug)]
pub struct HoshiWatchRef {
    pub id: u128,
}

impl HoshiWatchRef {
    /// A handle on the watcher with this id.
    pub fn new(id: u128) -> (r: Self)
        ensures
            r.id == id,
    {
        HoshiWatchRef { id }
    }
}

/// Registers a watcher under a fresh version-7 id and hands back its handle.
pub fn register_watch(ids: &mut Vec<u128>) -> (r: HoshiWatchRef)
    ensures
        final(ids)@ == old(ids)@.push(r.id),
        crate::ids::is_v7(r.id),
{
    let id = crate::ids::new_uuid_v7();
    ids.push(id);
    HoshiWatchRef::new(id)
}

/// Removes every watcher with the handle's id.
pub fn release_watch(ids: &mut Vec<u128>, handle: &HoshiWatchRef)
    ensures
        final(ids)@ == old(ids)@.filter(|x: u128| x != handle.id),
{
    let ghost all = ids@;
    let mut kept: Vec<u128> = Vec::new();
    let mut i: usize = 0;
    while i < ids.len()
        invariant
            i <= ids@.len(),
            ids@ == all,
            kept@ == all.subrange(0, i as int).filter(|x: u128| x != handle.id),
        decreases ids@.len() - i,
    {
        proof {
            reveal(Seq::filter);
            assert(all.subrange(0, i + 1).drop_last() =~= all.subrange(0, i as int));
        }
        if ids[i] != handle.id {
            kept.push(ids[i]);
        }
        i += 1;
    }
    assert(all.subrange(0, i as int) =~= all);
    *ids = kept;
}

/// The keys other than `my_key`, in order.
pub open spec fn keys_except(keys: Seq<Seq<char>>, my_key: Seq<char>) -> Seq<Seq<char>>
    decreases keys.len(),
{
    if keys.len() == 0 {
        Seq::empty()
    } else if keys.last() != my_key {
        keys_except(keys.drop_last(), my_key).push(keys.last())
    } else {
        keys_except(keys.drop_last(), my_key)
    }
}

/// A copy of each event.
fn copy_events(events: &[CallPartyEvent]) -> (r: Vec<CallPartyEvent>)
    ensures
        r@ == events@,
{
    let mut out: Vec<CallPartyEvent> = Vec::new();
    let mut i: usize = 0;
    while i < events.len()
        invariant
            i <= events@.len(),
            out@ == events@.subrange(0, i as int),
        decreases events@.len() - i,
    {
        out.push(events[i].duplicate());
        i += 1;
        assert(out@ =~= events@.subrange(0, i as int));
    }
    assert(events@.subrange(0, i as int) =~= events@);
    out
}

/// True when `m` tells `to` the whole state of `call` from `from`.
pub open spec fn is_call_state_message(m: HoshiMessage, from: Seq<char>, to: Seq<char>, call: Call) -> bool {
    &&& m.from_key@ == from
    &&& m.to_key@ == to
    &&& m.payload matches NetPayload::UpdateCallState { call_id, events } && call_id@ == call.spec_id() && events@ == call.spec_events()
}

/// The messages that tell a call's state: one to each party other than `my_key` that has
/// not hung up, each with all of the call's events.
pub fn build_call_state_messages(my_key: &str, call: &Call) -> (r: Vec<HoshiMessage>)
    ensures
        r@.len() == keys_except(not_hung_up_keys(call.spec_parties()), my_key@).len(),
        forall|i: int| 0 <= i < r@.len() ==> is_call_state_message(#[trigger] r@[i], my_key@, keys_except(not_hung_up_keys(call.spec_parties()), my_key@)[i], *call),
{
    let keys = call.non_hungup_party_keys();
    let ghost kv = keys@.map_values(|k: String| k@);
    let mut out: Vec<HoshiMessage> = Vec::new();
    let mut i: usize = 0;
    while i < keys.len()
        invariant
            i <= keys@.len(),
            kv == keys@.map_values(|k: String| k@),
            kv == not_hung_up_keys(call.spec_parties()),
            out@.len() == keys_except(kv.subrange(0, i as int), my_key@).len(),
            forall|k: int| 0 <= k < out@.len() ==> is_call_state_message(#[trigger] out@[k], my_key@, keys_except(kv.subrange(0, i as int), my_key@)[k], *call),
        decreases keys@.len() - i,
    {
        proof {
            assert(kv.subrange(0, i + 1).drop_last() =~= kv.subrange(0, i as int));
            assert(kv.subrange(0, i + 1).last() == kv[i as int]);
            assert(kv[i as int] == keys@[i as int]@);
        }
        if !crate::text::str_eq(keys[i].as_str(), my_key) {
            let msg = HoshiMessage::new(
                my_key.to_string(),
                keys[i].clone(),
                NetPayload::UpdateCallState { call_id: call.id().to_string(), events: copy_events(call.events()) },
            );
            out.push(msg);
        }
        i += 1;
    }
    assert(kv.subrange(0, i as int) =~= kv);
    out
}

/// True when one's side of a call should hang up because the others have: one is still
/// in the call, there is another party, and every other party has hung up.
pub fn should_close_call(call: &Call, my_key: &str) -> (r: bool)
    ensures
        r == (match status_of(call.spec_parties(), my_key@) {
            None => false,
            Some(CallPartyStatus::HungUp) => false,
            Some(_) => others_all_hung_up(call.spec_parties(), my_key@),
        }),
{
    match call.get_status(my_key) {
        None => false,
        Some(CallPartyStatus::HungUp) => false,
        Some(_) => call.all_other_parties_hung_up(my_key),
    }
}

/// The key a client uses: the key saved in its settings when it is the key of its
/// identity, else the identity's key.
pub fn choose_public_key(configured: Option<String>, identity_key: String) -> (r: String)
    ensures
        r@ == identity_key@,
{
    match configured {
        Some(k) => if k == identity_key { k } else { identity_key },
        None => identity_key,
    }
}

/// What a profile head does with a contact as a peer.
#[derive(Debug, Clone, Copy, PartialEq, Eq, Structural)]
pub enum PeerAction {
    /// Sync with the contact.
    Add,
    /// Sync with the contact, and ask for its tip at once.
    AddRequestingTip,
    /// Stop syncing with the contact.
    Drop,
}

/// The heads a contact is synced through: the chat head shared with it, to which it is
/// always added, and the contact's profile head and one's own, each with what it does
/// with the contact.
#[derive(Debug)]
pub struct ContactHeads {
    pub chat_path: String,
    pub contact_profile_path: String,
    pub contact_profile: PeerAction,
    pub own_profile_path: String,
    pub own_profile: PeerAction,
}

/// How `own_key`'s heads take the contact: the chat head `chat_path(own, contact)`; the
/// contact's profile `/user/{contact}`, dropped for a blocked contact, else added (asking
/// for its tip when `request_profile_tip`); one's own profile `/user/{own}`, dropped for a
/// blocked contact, else added. A blocked contact's profile is thus not synced, nor is
/// one's own profile with it.
pub fn contact_heads(own_key: &str, contact: &Contact, request_profile_tip: bool) -> (r: ContactHeads)
    requires
        is_hex_key(own_key@),
        is_hex_key(contact.public_key@),
        decoded(own_key@).len() == decoded(contact.public_key@).len(),
        2 * decoded(own_key@).len() + 6 <= usize::MAX,
    ensures
        r.chat_path@ == chat_path_spec(decoded(own_key@), decoded(contact.public_key@)),
        r.contact_profile_path@ == "/user/"@ + contact.public_key@,
        r.own_profile_path@ == "/user/"@ + own_key@,
        r.contact_profile == if contact.contact_type == ContactType::Blocked {
            PeerAction::Drop
        } else if request_profile_tip {
            PeerAction::AddRequestingTip
        } else {
            PeerAction::Add
        },
        r.own_profile == if contact.contact_type == ContactType::Blocked { PeerAction::Drop } else { PeerAction::Add },
{
    let blocked = contact.contact_type == ContactType::Blocked;
    ContactHeads {
        chat_path: chat_path(own_key, contact.public_key.as_str()),
        contact_profile_path: user_path(contact.public_key.as_str()),
        contact_profile: if blocked {
            PeerAction::Drop
        } else if request_profile_tip {
            PeerAction::AddRequestingTip
        } else {
            PeerAction::Add
        },
        own_profile_path: user_path(own_key),
        own_profile: if blocked { PeerAction::Drop } else { PeerAction::Add },
    }
}

/// Where a store sync command received from a peer goes.
#[derive(Debug)]
pub enum SyncRoute {
    /// To the chat head of this name, shared with `peer_key`.
    Chat { peer_key: String },
    /// To the profile head of `owner_key`.
    Profile { owner_key: String },
    /// Nowhere: the command is dropped.
    Ignore,
}

/// The bytes of `/chat/`.
pub open spec fn chat_path_prefix() -> Seq<u8> {
    seq![47u8, 99u8, 104u8, 97u8, 116u8, 47u8]
}

/// The bytes of `/user/`.
pub open spec fn user_path_prefix() -> Seq<u8> {
    seq![47u8, 117u8, 115u8, 101u8, 114u8, 47u8]
}

/// True when the command puts a record not written by `author`.
pub open spec fn puts_foreign_record(cmd: HeadCommand<HoshiRecord>, author: Seq<char>) -> bool {
    cmd matches HeadCommand::Put(r) && r.from@ != author
}

/// Where a sync command from `from` for the head `head` goes, seen by `own`: a chat head
/// takes commands only from the peer the chat path names, and records only by its two
/// parties; a profile head takes commands from its owner, and tip requests for one's own
/// profile from anyone; records only by the sender.
pub open spec fn route_spec(own: Seq<char>, from: Seq<char>, head: Seq<char>, cmd: HeadCommand<HoshiRecord>) -> Option<(bool, Seq<char>)> {
    let hb = vstd::utf8::encode_utf8(head);
    if crate::text::bytes_start_with(hb, chat_path_prefix()) {
        match peer_key_spec(vstd::utf8::encode_utf8(own), hb) {
            Some(peer) => if peer == from && !(cmd matches HeadCommand::Put(r) && r.from@ != own && r.from@ != peer) {
                Some((true, peer))
            } else {
                None
            },
            None => None,
        }
    } else if crate::text::bytes_start_with(hb, user_path_prefix()) {
        let is_owner_sync = head == "/user/"@ + from;
        let is_tip_request = head == "/user/"@ + own && (cmd is Tip || cmd is TipSecondary);
        if (is_owner_sync || is_tip_request) && !puts_foreign_record(cmd, from) {
            Some((false, if is_owner_sync { from } else { own }))
        } else {
            None
        }
    } else {
        None
    }
}

/// Where a sync command from `from_key` for `head_name` goes, as `own_key` sees it.
pub fn route_store_sync(own_key: &str, from_key: &str, head_name: &str, command: &HeadCommand<HoshiRecord>) -> (r: SyncRoute)
    requires
        !peer_key_panics(own_key.spec_bytes(), head_name.spec_bytes()),
        own_key.spec_bytes().len() <= usize::MAX / 2,
    ensures
        match route_spec(own_key@, from_key@, head_name@, *command) {
            Some((true, peer)) => r matches SyncRoute::Chat { peer_key } && peer_key@ == peer,
            Some((false, owner)) => r matches SyncRoute::Profile { owner_key } && owner_key@ == owner,
            None => r is Ignore,
        },
{
    proof {
        reveal_strlit("/chat/");
        reveal_strlit("/user/");
        vstd::utf8::encode_utf8_decode_utf8("/chat/"@);
        vstd::utf8::encode_utf8_decode_utf8("/user/"@);
        crate::node::lemma_ascii_encode_utf8(chat_path_prefix());
        crate::node::lemma_ascii_encode_utf8(user_path_prefix());
        assert(crate::text::ascii_chars(chat_path_prefix()) =~= "/chat/"@);
        assert(crate::text::ascii_chars(user_path_prefix()) =~= "/user/"@);
    }
    if crate::text::has_prefix(head_name, "/chat/") {
        match peer_key_from_chat_path(own_key, head_name) {
            Some(peer) => {
                if !crate::text::str_eq(peer.as_str(), from_key) {
                    return SyncRoute::Ignore;
                }
                match command {
                    HeadCommand::Put(record) => {
                        if !crate::text::str_eq(record.from.as_str(), own_key) && !crate::text::str_eq(record.from.as_str(), peer.as_str()) {
                            return SyncRoute::Ignore;
                        }
                    },
                    _ => {},
                }
                SyncRoute::Chat { peer_key: peer }
            },
            None => SyncRoute::Ignore,
        }
    } else if crate::text::has_prefix(head_name, "/user/") {
        let is_owner_sync = crate::text::str_eq(head_name, user_path(from_key).as_str());
        let is_tip_request = crate::text::str_eq(head_name, user_path(own_key).as_str()) && match command {
            HeadCommand::Tip(_) => true,
            HeadCommand::TipSecondary(_) => true,
            HeadCommand::Put(_) => false,
        };
        if !is_owner_sync && !is_tip_request {
            return SyncRoute::Ignore;
        }
        match command {
            HeadCommand::Put(record) => {
                if !crate::text::str_eq(record.from.as_str(), from_key) {
                    return SyncRoute::Ignore;
                }
            },
            _ => {},
        }
        if is_owner_sync {
            SyncRoute::Profile { owner_key: from_key.to_string() }
        } else {
            SyncRoute::Profile { owner_key: own_key.to_string() }
        }
    } else {
        SyncRoute::Ignore
    }
}

/// Why a message could not be stored.
#[derive(Debug, Clone, Copy, PartialEq, Eq, Structural)]
pub enum MessageError {
    /// The message's sender is not the client.
    NotSender,
}

/// The record a message the client sends is stored as: its id is the message's id when
/// that reads as a UUID, else a fresh version-7 id; its author is the sender; it holds
/// the text. A message from anyone but `own_key` is refused.
pub fn message_record(own_key: &str, msg: &ChatMessage) -> (r: Result<HoshiRecord, MessageError>)
    ensures
        msg.from@ != own_key@ ==> r == Err::<HoshiRecord, MessageError>(MessageError::NotSender),
        msg.from@ == own_key@ ==> (r matches Ok(rec)
            && rec.from@ == msg.from@
            && (rec.payload matches HoshiPayload::Text { content } && content@ == msg.content@)
            && match crate::ids::uuid_parse(msg.id@) {
                Some(id) => rec.id == id,
                None => crate::ids::is_v7(rec.id),
            }),
{
    if !crate::text::str_eq(msg.from.as_str(), own_key) {
        return Err(MessageError::NotSender);
    }
    let id = match crate::ids::uuid_parse_str(msg.id.as_str()) {
        Some(id) => id,
        None => crate::ids::new_uuid_v7(),
    };
    Ok(HoshiRecord::with_id(id, msg.from.clone(), HoshiPayload::Text { content: msg.content.clone() }))
}

/// What to do with a call first heard of from a peer's call state.
#[derive(Debug, Clone, Copy, PartialEq, Eq, Structural)]
pub enum IncomingCallAction {
    /// One is invited: start ringing, tell the others, and keep the call.
    Ring,
    /// One is already ringing or in it: keep the call.
    Join,
    /// One has hung up or is not a party: drop it.
    Ignore,
}

/// What to do with a call first heard of, by one's own status in it.
pub fn incoming_call_action(call: &Call, own_key: &str) -> (r: IncomingCallAction)
    ensures
        r == match status_of(call.spec_parties(), own_key@) {
            Some(CallPartyStatus::Invited) => IncomingCallAction::Ring,
            Some(CallPartyStatus::Ringing) => IncomingCallAction::Join,
            Some(CallPartyStatus::Active) => IncomingCallAction::Join,
            _ => IncomingCallAction::Ignore,
        },
{
    match call.get_status(own_key) {
        Some(CallPartyStatus::Invited) => IncomingCallAction::Ring,
        Some(CallPartyStatus::Ringing) => IncomingCallAction::Join,
        Some(CallPartyStatus::Active) => IncomingCallAction::Join,
        _ => IncomingCallAction::Ignore,
    }
}

/// True when audio received for a call is played: one is active in it.
pub fn accepts_audio(call: &Call, own_key: &str) -> (r: bool)
    ensures
        r == (status_of(call.spec_parties(), own_key@) == Some(CallPartyStatus::Active)),
{
    match call.get_status(own_key) {
        Some(CallPartyStatus::Active) => true,
        _ => false,
    }
}

/// The position of the first call with this id, if any.
pub fn find_call(calls: &Vec<Call>, call_id: &str) -> (r: Option<usize>)
    ensures
        r matches Some(i) ==> i < calls@.len() && calls@[i as int].spec_id() == call_id@
            && forall|k: int| 0 <= k < i ==> calls@[k].spec_id() != call_id@,
        r is None ==> forall|k: int| 0 <= k < calls@.len() ==> calls@[k].spec_id() != call_id@,
{
    let mut i: usize = 0;
    while i < calls.len()
        invariant
            i <= calls@.len(),
            forall|k: int| 0 <= k < i ==> calls@[k].spec_id() != call_id@,
        decreases calls@.len() - i,
    {
        if crate::text::str_eq(calls[i].id(), call_id) {
            return Some(i);
        }
        i += 1;
    }
    None
}

/// The relays a build connects to: a local one for debug builds, the public one otherwise.
pub fn default_relay_urls(debug_build: bool) -> (r: Vec<crate::relay::RelayInfo>)
    ensures
        r@.len() == 1,
        r@[0].url@ == if debug_build { "wss://127.0.0.1:2800/"@ } else { "wss://hoshi.rubhub.net:2800/"@ },
{
    let url = if debug_build {
        String::from_str("wss://127.0.0.1:2800/")
    } else {
        String::from_str("wss://hoshi.rubhub.net:2800/")
    };
    let mut v: Vec<crate::relay::RelayInfo> = Vec::new();
    v.push(crate::relay::RelayInfo::new(url));
    v
}

} // verus!
