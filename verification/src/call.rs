//! Calls: who takes part, and how each party's status follows from the call's events.
//!
//! A call is a set of events, each an id (a version-7 UUID, so ids order by time), a
//! party's key and a status. Parties exchange their events; each party's status is the
//! status of its latest event.
use vstd::prelude::*;
use crate::contact::{Contact, ContactType};
use crate::ids::{is_v7, new_uuid_v7, uuid_to_string};
use crate::text::{all_ascii, ascii_chars, string_from_ascii};
use crate::audio_chunk::{AudioChunk, linear_to_ulaw, ulaw_decode, ulaw_encode};

verus! {

/// Where a party stands in a call.
#[derive(Clone, Copy, Debug, PartialEq, Eq, Structural)]
pub enum CallPartyStatus {
    Invited,
    Ringing,
    HungUp,
    Active,
}

/// One change of a party's status.
#[derive(Debug)]
pub struct CallPartyEvent {
    pub id: u128,
    pub key: String,
    pub status: CallPartyStatus,
}

/// A party of a call.
#[derive(Debug)]
pub struct CallParty {
    pub status: CallPartyStatus,
    pub contact: Contact,
}

/// A party as the contracts see it: key, contact type and status.
pub open spec fn party_view(p: CallParty) -> (Seq<char>, ContactType, CallPartyStatus) {
    (p.contact.public_key@, p.contact.contact_type, p.status)
}

/// The parties of a call as the contracts see them.
pub open spec fn parties_view(ps: Seq<CallParty>) -> Seq<(Seq<char>, ContactType, CallPartyStatus)> {
    ps.map_values(|p: CallParty| party_view(p))
}

/// The events, sorted by id, the way an insertion sort that keeps equal ids in their
/// order leaves them: `e` goes after every event whose id is not greater.
pub open spec fn insert_by_id(s: Seq<CallPartyEvent>, e: CallPartyEvent) -> Seq<CallPartyEvent>
    decreases s.len(),
{
    if s.len() == 0 {
        seq![e]
    } else if s.last().id <= e.id {
        s.push(e)
    } else {
        insert_by_id(s.drop_last(), e).push(s.last())
    }
}

/// The events sorted by id; events with equal ids keep their order.
pub open spec fn sort_by_id(s: Seq<CallPartyEvent>) -> Seq<CallPartyEvent>
    decreases s.len(),
{
    if s.len() == 0 {
        s
    } else {
        insert_by_id(sort_by_id(s.drop_last()), s.last())
    }
}

/// True when the ids never decrease along the events.
pub open spec fn sorted_by_id(s: Seq<CallPartyEvent>) -> bool {
    forall|i: int, j: int| 0 <= i <= j < s.len() ==> s[i].id <= s[j].id
}

/// Index of the first entry for `key`, or -1.
pub open spec fn entry_index(entries: Seq<(Seq<char>, CallPartyStatus)>, key: Seq<char>) -> int
    decreases entries.len(),
{
    if entries.len() == 0 {
        -1
    } else {
        let i = entry_index(entries.drop_last(), key);
        if i >= 0 {
            i
        } else if entries.last().0 == key {
            entries.len() - 1
        } else {
            -1
        }
    }
}

/// Each key that has an event, in the order of its first event, with the status of its
/// last event.
pub open spec fn status_entries(events: Seq<CallPartyEvent>) -> Seq<(Seq<char>, CallPartyStatus)>
    decreases events.len(),
{
    if events.len() == 0 {
        Seq::empty()
    } else {
        let prev = status_entries(events.drop_last());
        let e = events.last();
        let i = entry_index(prev, e.key@);
        if i >= 0 {
            prev.update(i, (e.key@, e.status))
        } else {
            prev.push((e.key@, e.status))
        }
    }
}

/// The status of the last event for `key`, if it has one.
pub open spec fn last_status(events: Seq<CallPartyEvent>, key: Seq<char>) -> Option<CallPartyStatus>
    decreases events.len(),
{
    if events.len() == 0 {
        None
    } else if events.last().key@ == key {
        Some(events.last().status)
    } else {
        last_status(events.drop_last(), key)
    }
}

/// Index of the first party with `key`, or -1.
pub open spec fn party_index(pv: Seq<(Seq<char>, ContactType, CallPartyStatus)>, key: Seq<char>) -> int
    decreases pv.len(),
{
    if pv.len() == 0 {
        -1
    } else {
        let i = party_index(pv.drop_last(), key);
        if i >= 0 {
            i
        } else if pv.last().0 == key {
            pv.len() - 1
        } else {
            -1
        }
    }
}

/// The status of the first party with `key`, if there is one.
pub open spec fn status_of(pv: Seq<(Seq<char>, ContactType, CallPartyStatus)>, key: Seq<char>) -> Option<CallPartyStatus> {
    let i = party_index(pv, key);
    if i >= 0 {
        Some(pv[i].2)
    } else {
        None
    }
}

/// The contact type a party with `key` gets when it joins: that of the first known
/// contact with the key, else that of a new contact.
pub open spec fn lookup_type(known: Seq<Contact>, key: Seq<char>) -> ContactType
    decreases known.len(),
{
    if known.len() == 0 {
        ContactType::Contact
    } else if known[0].public_key@ == key {
        known[0].contact_type
    } else {
        lookup_type(known.drop_first(), key)
    }
}

/// One status entry applied to the parties: the first party with the key takes the
/// status; a key with no party joins at the end.
pub open spec fn apply_entry(
    pv: Seq<(Seq<char>, ContactType, CallPartyStatus)>,
    entry: (Seq<char>, CallPartyStatus),
    known: Seq<Contact>,
) -> Seq<(Seq<char>, ContactType, CallPartyStatus)> {
    let i = party_index(pv, entry.0);
    if i >= 0 {
        pv.update(i, (pv[i].0, pv[i].1, entry.1))
    } else {
        pv.push((entry.0, lookup_type(known, entry.0), entry.1))
    }
}

/// The status entries applied to the parties in order.
pub open spec fn apply_entries(
    pv: Seq<(Seq<char>, ContactType, CallPartyStatus)>,
    entries: Seq<(Seq<char>, CallPartyStatus)>,
    known: Seq<Contact>,
) -> Seq<(Seq<char>, ContactType, CallPartyStatus)>
    decreases entries.len(),
{
    if entries.len() == 0 {
        pv
    } else {
        apply_entry(apply_entries(pv, entries.drop_last(), known), entries.last(), known)
    }
}

/// Where `e` goes in `s`: after the last event whose id is not greater.
proof fn lemma_insert_by_id_at(s: Seq<CallPartyEvent>, e: CallPartyEvent, p: int)
    requires
        0 <= p <= s.len(),
        forall|k: int| p <= k < s.len() ==> s[k].id > e.id,
        p == 0 || s[p - 1].id <= e.id,
    ensures
        insert_by_id(s, e) == s.insert(p, e),
    decreases s.len(),
{
    if s.len() == 0 {
        assert(s.insert(p, e) =~= seq![e]);
    } else if p == s.len() {
        assert(s.insert(p, e) =~= s.push(e));
    } else {
        lemma_insert_by_id_at(s.drop_last(), e, p);
        assert(s.drop_last().insert(p, e).push(s.last()) =~= s.insert(p, e));
    }
}

/// Inserting by id keeps the events sorted.
proof fn lemma_insert_by_id_sorted(s: Seq<CallPartyEvent>, e: CallPartyEvent)
    requires
        sorted_by_id(s),
    ensures
        sorted_by_id(insert_by_id(s, e)),
        insert_by_id(s, e).len() == s.len() + 1,
    decreases s.len(),
{
    if s.len() == 0 {
    } else if s.last().id <= e.id {
    } else {
        lemma_insert_by_id_sorted(s.drop_last(), e);
        let t = insert_by_id(s.drop_last(), e);
        lemma_insert_by_id_members(s.drop_last(), e);
        assert forall|i: int, j: int| 0 <= i <= j < t.push(s.last()).len() implies t.push(
            s.last(),
        )[i].id <= t.push(s.last())[j].id by {
            if j == t.len() && i < t.len() {
                if t[i] == e {
                } else {
                    let k = choose|k: int| 0 <= k < s.drop_last().len() && s.drop_last()[k] == t[i];
                    assert(s[k] == t[i]);
                }
            }
        }
    }
}

/// Every event of `insert_by_id(s, e)` is `e` or an event of `s`.
proof fn lemma_insert_by_id_members(s: Seq<CallPartyEvent>, e: CallPartyEvent)
    ensures
        forall|i: int| 0 <= i < insert_by_id(s, e).len() ==> insert_by_id(s, e)[i] == e || exists|k: int| 0 <= k < s.len() && s[k] == insert_by_id(s, e)[i],
        insert_by_id(s, e).len() == s.len() + 1,
    decreases s.len(),
{
    if s.len() == 0 {
    } else if s.last().id <= e.id {
        assert forall|i: int| 0 <= i < s.push(e).len() implies s.push(e)[i] == e || exists|k: int| 0 <= k < s.len() && s[k] == s.push(e)[i] by {
            if i < s.len() {
                assert(s[i] == s.push(e)[i]);
            }
        }
    } else {
        lemma_insert_by_id_members(s.drop_last(), e);
        let t = insert_by_id(s.drop_last(), e);
        assert forall|i: int| 0 <= i < t.push(s.last()).len() implies t.push(s.last())[i] == e || exists|k: int| 0 <= k < s.len() && s[k] == t.push(s.last())[i] by {
            if i < t.len() {
                if t[i] != e {
                    let k = choose|k: int| 0 <= k < s.drop_last().len() && s.drop_last()[k] == t[i];
                    assert(s[k] == t.push(s.last())[i]);
                }
            } else {
                assert(s[s.len() - 1] == t.push(s.last())[i]);
            }
        }
    }
}

/// Sorting by id leaves the events sorted.
pub proof fn lemma_sort_by_id_sorted(s: Seq<CallPartyEvent>)
    ensures
        sorted_by_id(sort_by_id(s)),
        sort_by_id(s).len() == s.len(),
    decreases s.len(),
{
    if s.len() > 0 {
        lemma_sort_by_id_sorted(s.drop_last());
        lemma_insert_by_id_sorted(sort_by_id(s.drop_last()), s.last());
    }
}

impl CallPartyEvent {
    /// A new event for `key`, with a fresh version-7 id.
    pub fn new(key: String, status: CallPartyStatus) -> (r: Self)
        ensures
            is_v7(r.id),
            r.key == key,
            r.status == status,
    {
        CallPartyEvent { id: new_uuid_v7(), key, status }
    }

    /// An event with all its fields given.
    pub fn with_id(id: u128, key: String, status: CallPartyStatus) -> (r: Self)
        ensures
            r == (CallPartyEvent { id, key, status }),
    {
        CallPartyEvent { id, key, status }
    }

    /// The key of the party the event is about.
    pub fn key(&self) -> (r: &str)
        ensures
            r@ == self.key@,
    {
        self.key.as_str()
    }

    /// The status the event gives the party.
    pub fn status(&self) -> (r: CallPartyStatus)
        ensures
            r == self.status,
    {
        self.status
    }

    /// A copy of the event.
    pub fn duplicate(&self) -> (r: Self)
        ensures
            r == *self,
    {
        CallPartyEvent { id: self.id, key: self.key.clone(), status: self.status }
    }
}

impl From<Contact> for CallParty {
    /// A contact joins a call as invited.
    fn from(value: Contact) -> (r: Self) {
        CallParty { contact: value, status: CallPartyStatus::Invited }
    }
}

impl vstd::std_specs::convert::FromSpecImpl<Contact> for CallParty {
    open spec fn obeys_from_spec() -> bool {
        true
    }

    open spec fn from_spec(v: Contact) -> Self {
        CallParty { contact: v, status: CallPartyStatus::Invited }
    }
}

/// A copy of a contact.
fn copy_contact(c: &Contact) -> (r: Contact)
    ensures
        r == *c,
{
    Contact { public_key: c.public_key.clone(), contact_type: c.contact_type }
}

/// The contact for `key`: the first known contact with the key, else a new contact.
fn lookup_contact(known: &Vec<Contact>, key: &str) -> (r: Contact)
    ensures
        r.public_key@ == key@,
        r.contact_type == lookup_type(known@, key@),
{
    let mut i: usize = 0;
    assert(known@.subrange(0, known@.len() as int) =~= known@);
    while i < known.len()
        invariant
            i <= known@.len(),
            lookup_type(known@, key@) == lookup_type(known@.subrange(i as int, known@.len() as int), key@),
        decreases known@.len() - i,
    {
        let ghost rest = known@.subrange(i as int, known@.len() as int);
        assert(rest.drop_first() =~= known@.subrange(i + 1, known@.len() as int));
        if crate::text::str_eq(known[i].public_key.as_str(), key) {
            let c = copy_contact(&known[i]);
            return c;
        }
        i += 1;
    }
    Contact::new(key.to_string())
}

/// Inserts `e` into events sorted the way `insert_by_id` says.
fn insert_event(out: &mut Vec<CallPartyEvent>, e: CallPartyEvent)
    ensures
        final(out)@ == insert_by_id(old(out)@, e),
{
    let mut p = out.len();
    while p > 0 && out[p - 1].id > e.id
        invariant
            p <= out@.len(),
            forall|k: int| p <= k < out@.len() ==> out@[k].id > e.id,
        decreases p,
    {
        p -= 1;
    }
    proof {
        lemma_insert_by_id_at(out@, e, p as int);
    }
    out.insert(p, e);
}

/// Sorts events by id, keeping events with equal ids in their order.
pub fn sort_events(events: Vec<CallPartyEvent>) -> (r: Vec<CallPartyEvent>)
    ensures
        r@ == sort_by_id(events@),
{
    let mut rest = events;
    let ghost all = rest@;
    let mut out: Vec<CallPartyEvent> = Vec::new();
    let mut n: usize = 0;
    let total = rest.len();
    assert(total == all.len());
    while rest.len() > 0
        invariant
            n + rest@.len() == all.len(),
            all.len() <= usize::MAX,
            rest@ == all.subrange(n as int, all.len() as int),
            out@ == sort_by_id(all.subrange(0, n as int)),
        decreases rest@.len(),
    {
        let e = rest.remove(0);
        proof {
            assert(all.subrange(0, n + 1).drop_last() =~= all.subrange(0, n as int));
            assert(all.subrange(0, n + 1).last() == e);
        }
        insert_event(&mut out, e);
        n += 1;
        assert(rest@ =~= all.subrange(n as int, all.len() as int));
    }
    assert(all.subrange(0, n as int) =~= all);
    out
}


/// The status entries as the contracts see them.
pub open spec fn entries_view(entries: Seq<(String, CallPartyStatus)>) -> Seq<(Seq<char>, CallPartyStatus)> {
    entries.map_values(|e: (String, CallPartyStatus)| (e.0@, e.1))
}

/// `entry_index` is the first index whose key matches, or -1 when none does.
proof fn lemma_entry_index(entries: Seq<(Seq<char>, CallPartyStatus)>, key: Seq<char>)
    ensures
        -1 <= entry_index(entries, key) < entries.len(),
        entry_index(entries, key) >= 0 ==> entries[entry_index(entries, key)].0 == key,
        forall|k: int| 0 <= k < entries.len() && (k < entry_index(entries, key) || entry_index(entries, key) == -1) ==> entries[k].0 != key,
    decreases entries.len(),
{
    if entries.len() > 0 {
        let d = entries.drop_last();
        lemma_entry_index(d, key);
        assert forall|k: int| 0 <= k < entries.len() && (k < entry_index(entries, key) || entry_index(entries, key) == -1) implies entries[k].0 != key by {
            if k < d.len() {
                assert(entries[k] == d[k]);
            }
        }
    }
}

/// `party_index` is the first index whose key matches, or -1 when none does.
proof fn lemma_party_index(pv: Seq<(Seq<char>, ContactType, CallPartyStatus)>, key: Seq<char>)
    ensures
        -1 <= party_index(pv, key) < pv.len(),
        party_index(pv, key) >= 0 ==> pv[party_index(pv, key)].0 == key,
        forall|k: int| 0 <= k < pv.len() && (k < party_index(pv, key) || party_index(pv, key) == -1) ==> pv[k].0 != key,
    decreases pv.len(),
{
    if pv.len() > 0 {
        let d = pv.drop_last();
        lemma_party_index(d, key);
        assert forall|k: int| 0 <= k < pv.len() && (k < party_index(pv, key) || party_index(pv, key) == -1) implies pv[k].0 != key by {
            if k < d.len() {
                assert(pv[k] == d[k]);
            }
        }
    }
}

/// `party_index` depends only on the keys of the parties.
proof fn lemma_party_index_keys(a: Seq<(Seq<char>, ContactType, CallPartyStatus)>, b: Seq<(Seq<char>, ContactType, CallPartyStatus)>, key: Seq<char>)
    requires
        a.len() == b.len(),
        forall|k: int| 0 <= k < a.len() ==> a[k].0 == b[k].0,
    ensures
        party_index(a, key) == party_index(b, key),
{
    lemma_party_index(a, key);
    lemma_party_index(b, key);
}

/// Index of the first entry for `key`, or `entries.len()` when there is none.
fn find_entry(entries: &Vec<(String, CallPartyStatus)>, key: &String) -> (r: usize)
    ensures
        r <= entries@.len(),
        r < entries@.len() <==> entry_index(entries_view(entries@), key@) >= 0,
        r < entries@.len() ==> r == entry_index(entries_view(entries@), key@),
{
    let mut j: usize = 0;
    while j < entries.len()
        invariant
            j <= entries@.len(),
            forall|k: int| 0 <= k < j ==> entries_view(entries@)[k].0 != key@,
        decreases entries@.len() - j,
    {
        if entries[j].0 == *key {
            proof {
                lemma_entry_index(entries_view(entries@), key@);
                assert(entries_view(entries@)[j as int].0 == key@);
            }
            return j;
        }
        j += 1;
    }
    proof {
        lemma_entry_index(entries_view(entries@), key@);
    }
    j
}

/// Index of the first party with `key`, or `parties.len()` when there is none.
fn find_party(parties: &Vec<CallParty>, key: &str) -> (r: usize)
    ensures
        r <= parties@.len(),
        r < parties@.len() <==> party_index(parties_view(parties@), key@) >= 0,
        r < parties@.len() ==> r == party_index(parties_view(parties@), key@),
{
    let mut j: usize = 0;
    while j < parties.len()
        invariant
            j <= parties@.len(),
            forall|k: int| 0 <= k < j ==> parties_view(parties@)[k].0 != key@,
        decreases parties@.len() - j,
    {
        if crate::text::str_eq(parties[j].contact.public_key.as_str(), key) {
            proof {
                lemma_party_index(parties_view(parties@), key@);
                assert(parties_view(parties@)[j as int].0 == key@);
            }
            return j;
        }
        j += 1;
    }
    proof {
        lemma_party_index(parties_view(parties@), key@);
    }
    j
}

/// Each key with an event, in the order of its first event, with the status of its last.
fn compute_status_entries(events: &Vec<CallPartyEvent>) -> (r: Vec<(String, CallPartyStatus)>)
    ensures
        entries_view(r@) == status_entries(events@),
{
    let mut entries: Vec<(String, CallPartyStatus)> = Vec::new();
    let mut i: usize = 0;
    while i < events.len()
        invariant
            i <= events@.len(),
            entries_view(entries@) == status_entries(events@.subrange(0, i as int)),
        decreases events@.len() - i,
    {
        let e = &events[i];
        let j = find_entry(&entries, &e.key);
        let ghost before = entries@;
        if j < entries.len() {
            entries.set(j, (e.key.clone(), e.status));
            assert(entries_view(entries@) =~= entries_view(before).update(j as int, (e.key@, e.status)));
        } else {
            entries.push((e.key.clone(), e.status));
            assert(entries_view(entries@) =~= entries_view(before).push((e.key@, e.status)));
        }
        assert(events@.subrange(0, i + 1).drop_last() =~= events@.subrange(0, i as int));
        i += 1;
    }
    assert(events@.subrange(0, i as int) =~= events@);
    entries
}

/// Applies status entries to the parties: the first party with each key takes its status,
/// and keys with no party join at the end with the contact `known` gives them.
fn apply_status_entries(parties: &mut Vec<CallParty>, entries: &Vec<(String, CallPartyStatus)>, known: &Vec<Contact>)
    ensures
        parties_view(final(parties)@) == apply_entries(parties_view(old(parties)@), entries_view(entries@), known@),
{
    let ghost pv0 = parties_view(parties@);
    let mut k: usize = 0;
    assert(entries_view(entries@).subrange(0, 0) =~= Seq::<(Seq<char>, CallPartyStatus)>::empty());
    while k < entries.len()
        invariant
            k <= entries@.len(),
            parties_view(parties@) == apply_entries(pv0, entries_view(entries@).subrange(0, k as int), known@),
        decreases entries@.len() - k,
    {
        let key = entries[k].0.as_str();
        let status = entries[k].1;
        let j = find_party(parties, key);
        let ghost before = parties@;
        if j < parties.len() {
            let contact = copy_contact(&parties[j].contact);
            parties.set(j, CallParty { status, contact });
            assert(parties_view(parties@) =~= parties_view(before).update(
                j as int,
                (parties_view(before)[j as int].0, parties_view(before)[j as int].1, status),
            ));
        } else {
            let contact = lookup_contact(known, key);
            parties.push(CallParty { status, contact });
            assert(parties_view(parties@) =~= parties_view(before).push((key@, lookup_type(known@, key@), status)));
        }
        assert(entries_view(entries@).subrange(0, k + 1).drop_last() =~= entries_view(entries@).subrange(0, k as int));
        k += 1;
    }
    assert(entries_view(entries@).subrange(0, k as int) =~= entries_view(entries@));
}


/// True when some event has this id.
pub open spec fn has_event_id(events: Seq<CallPartyEvent>, id: u128) -> bool {
    exists|i: int| 0 <= i < events.len() && events[i].id == id
}

/// The incoming events whose ids are not among `existing`, in their order.
pub open spec fn fresh_events(existing: Seq<CallPartyEvent>, incoming: Seq<CallPartyEvent>) -> Seq<CallPartyEvent>
    decreases incoming.len(),
{
    if incoming.len() == 0 {
        Seq::empty()
    } else {
        let prev = fresh_events(existing, incoming.drop_last());
        if has_event_id(existing, incoming.last().id) {
            prev
        } else {
            prev.push(incoming.last())
        }
    }
}

/// The number of parties whose status is `Active`.
pub open spec fn active_count(pv: Seq<(Seq<char>, ContactType, CallPartyStatus)>) -> nat
    decreases pv.len(),
{
    if pv.len() == 0 {
        0
    } else {
        active_count(pv.drop_last()) + if pv.last().2 == CallPartyStatus::Active { 1nat } else { 0nat }
    }
}

/// The number of parties that have not hung up.
pub open spec fn not_hung_up_count(pv: Seq<(Seq<char>, ContactType, CallPartyStatus)>) -> nat
    decreases pv.len(),
{
    if pv.len() == 0 {
        0
    } else {
        not_hung_up_count(pv.drop_last()) + if pv.last().2 != CallPartyStatus::HungUp { 1nat } else { 0nat }
    }
}

/// The keys of the parties that have not hung up, in order.
pub open spec fn not_hung_up_keys(pv: Seq<(Seq<char>, ContactType, CallPartyStatus)>) -> Seq<Seq<char>>
    decreases pv.len(),
{
    if pv.len() == 0 {
        Seq::empty()
    } else if pv.last().2 != CallPartyStatus::HungUp {
        not_hung_up_keys(pv.drop_last()).push(pv.last().0)
    } else {
        not_hung_up_keys(pv.drop_last())
    }
}

/// True when there is a party other than `own`, and every such party has hung up.
pub open spec fn others_all_hung_up(pv: Seq<(Seq<char>, ContactType, CallPartyStatus)>, own: Seq<char>) -> bool {
    &&& exists|i: int| 0 <= i < pv.len() && pv[i].0 != own
    &&& forall|i: int| 0 <= i < pv.len() && pv[i].0 != own ==> pv[i].2 == CallPartyStatus::HungUp
}

/// The events and parties a rebuild leaves: events sorted by id, and each key's latest
/// status applied to the parties.
pub open spec fn rebuilt(
    pv: Seq<(Seq<char>, ContactType, CallPartyStatus)>,
    events: Seq<CallPartyEvent>,
    known: Seq<Contact>,
) -> Seq<(Seq<char>, ContactType, CallPartyStatus)> {
    apply_entries(pv, status_entries(sort_by_id(events)), known)
}

/// The ASCII decimal digits of `n`.
pub open spec fn decimal_ascii(n: nat) -> Seq<u8>
    decreases n,
{
    if n < 10 {
        seq![(48 + n) as u8]
    } else {
        decimal_ascii(n / 10).push((48 + n % 10) as u8)
    }
}

/// `n` in decimal, padded with a leading zero to at least two digits (`{:02}`).
pub open spec fn two_digits(n: nat) -> Seq<char> {
    if n < 10 {
        "0"@ + ascii_chars(decimal_ascii(n))
    } else {
        ascii_chars(decimal_ascii(n))
    }
}

/// The parts joined with `sep` between them.
pub open spec fn join(parts: Seq<Seq<char>>, sep: Seq<char>) -> Seq<char>
    decreases parts.len(),
{
    if parts.len() == 0 {
        Seq::empty()
    } else if parts.len() == 1 {
        parts[0]
    } else {
        join(parts.drop_last(), sep) + sep + parts.last()
    }
}

/// A party's name as the call label shows it: marked while it is being dialed or rings.
pub open spec fn decorated_name(name: Seq<char>, status: CallPartyStatus) -> Seq<char> {
    match status {
        CallPartyStatus::Invited => name + " (dialing)"@,
        CallPartyStatus::Ringing => name + " (ringing)"@,
        _ => name,
    }
}

/// The decorated names of the parties other than `own`, in order; `names[i]` is the
/// display name of party `i`.
pub open spec fn other_names(
    pv: Seq<(Seq<char>, ContactType, CallPartyStatus)>,
    names: Seq<Seq<char>>,
    own: Seq<char>,
) -> Seq<Seq<char>>
    decreases pv.len(),
{
    if pv.len() == 0 {
        Seq::empty()
    } else if pv.last().0 != own {
        other_names(pv.drop_last(), names, own).push(decorated_name(names[pv.len() - 1], pv.last().2))
    } else {
        other_names(pv.drop_last(), names, own)
    }
}

/// The characters of each string.
pub open spec fn names_view(names: Seq<String>) -> Seq<Seq<char>> {
    names.map_values(|n: String| n@)
}

/// The label of a call, as the party with status `own_status` sees it, with `active`
/// active parties, the other parties' names joined, and `secs` seconds since it began.
pub open spec fn call_label(own_status: Option<CallPartyStatus>, active: nat, joined: Seq<char>, secs: nat) -> Seq<char> {
    match own_status {
        Some(CallPartyStatus::Active) => if active > 1 {
            "Call "@ + joined + " - "@ + two_digits(secs / 60) + ":"@ + two_digits(secs % 60)
        } else {
            "Calling "@ + joined
        },
        Some(CallPartyStatus::Ringing) | Some(CallPartyStatus::Invited) => "Incoming call from "@ + joined,
        _ => "Call ended with: "@ + joined,
    }
}

/// A call's label says it is incoming exactly when one's own party is ringing or invited,
/// and that it has ended exactly when one has hung up or is not a party to it; whatever
/// the other parties' names are.
pub proof fn law_call_label_kinds(own_status: Option<CallPartyStatus>, active: nat, joined: Seq<char>, secs: nat)
    ensures
        call_label(own_status, active, joined, secs) == "Incoming call from "@ + joined
            <==> (own_status == Some(CallPartyStatus::Ringing) || own_status == Some(CallPartyStatus::Invited)),
        call_label(own_status, active, joined, secs) == "Call ended with: "@ + joined
            <==> (own_status is None || own_status == Some(CallPartyStatus::HungUp)),
        call_label(own_status, active, joined, secs) == "Calling "@ + joined
            <==> (own_status == Some(CallPartyStatus::Active) && active <= 1),
{
    reveal_strlit("Call ");
    reveal_strlit(" - ");
    reveal_strlit(":");
    reveal_strlit("Calling ");
    reveal_strlit("Call ended with: ");
    reveal_strlit("Incoming call from ");
    let l = call_label(own_status, active, joined, secs);
    let incoming = "Incoming call from "@ + joined;
    let ended = "Call ended with: "@ + joined;
    let calling = "Calling "@ + joined;
    assert(incoming[0] == 'I');
    assert(ended[0] == 'C');
    assert(calling[0] == 'C');
    assert(calling[4] == 'i');
    assert(ended[4] == ' ');
    assert(calling.len() == joined.len() + 8);
    assert(incoming.len() == joined.len() + 19);
    assert(ended.len() == joined.len() + 17);
    if own_status == Some(CallPartyStatus::Active) {
        if active > 1 {
            assert(l[0] == 'C');
            // The label of a call in progress holds one `w` fewer than the ended label.
            let m = two_digits(secs / 60);
            let sd = two_digits(secs % 60);
            lemma_two_digits_no_w(secs / 60);
            lemma_two_digits_no_w(secs % 60);
            lemma_count_w_literals();
            lemma_count_concat("Call "@, joined);
            lemma_count_concat("Call "@ + joined, " - "@);
            lemma_count_concat("Call "@ + joined + " - "@, m);
            lemma_count_concat("Call "@ + joined + " - "@ + m, ":"@);
            lemma_count_concat("Call "@ + joined + " - "@ + m + ":"@, sd);
            lemma_count_concat("Call ended with: "@, joined);
            assert(count_w(l) == count_w(joined));
            assert(count_w(ended) == count_w(joined) + 1);
            lemma_two_digits_len(secs / 60);
            assert(m.len() >= 2);
            assert(l == "Call "@ + joined + " - "@ + m + ":"@ + sd);
            assert("Call "@.len() == 5 && " - "@.len() == 3 && ":"@.len() == 1);
            assert(l.len() >= joined.len() + 11);
        } else {
            assert(l == "Calling "@ + joined);
            assert(l[0] == 'C');
            assert(l[4] == 'i');
            assert(ended[4] == ' ');
        }
    }
}

proof fn lemma_two_digits_len(n: nat)
    ensures
        two_digits(n).len() >= 2,
{
    reveal_strlit("0");
    if n >= 10 {
        assert(decimal_ascii(n / 10).len() >= 1) by {
            reveal_with_fuel(decimal_ascii, 2);
            lemma_decimal_nonempty(n / 10);
        }
    }
}

proof fn lemma_decimal_nonempty(n: nat)
    ensures
        decimal_ascii(n).len() >= 1,
    decreases n,
{
    if n >= 10 {
        lemma_decimal_nonempty(n / 10);
    }
}

/// How many times `w` occurs in a string.
pub open spec fn count_w(s: Seq<char>) -> nat
    decreases s.len(),
{
    if s.len() == 0 {
        0
    } else {
        count_w(s.drop_last()) + if s.last() == 'w' { 1nat } else { 0nat }
    }
}

proof fn lemma_count_concat(a: Seq<char>, b: Seq<char>)
    ensures
        count_w(a + b) == count_w(a) + count_w(b),
    decreases b.len(),
{
    if b.len() == 0 {
        assert(a + b =~= a);
    } else {
        lemma_count_concat(a, b.drop_last());
        assert((a + b).drop_last() =~= a + b.drop_last());
    }
}

proof fn lemma_count_none(s: Seq<char>)
    requires
        forall|i: int| 0 <= i < s.len() ==> s[i] != 'w',
    ensures
        count_w(s) == 0,
    decreases s.len(),
{
    if s.len() > 0 {
        lemma_count_none(s.drop_last());
    }
}

proof fn lemma_decimal_digits(n: nat)
    ensures
        forall|i: int| 0 <= i < decimal_ascii(n).len() ==> 48 <= #[trigger] decimal_ascii(n)[i] <= 57,
    decreases n,
{
    if n >= 10 {
        lemma_decimal_digits(n / 10);
        let d = decimal_ascii(n / 10);
        assert forall|i: int| 0 <= i < decimal_ascii(n).len() implies 48 <= #[trigger] decimal_ascii(n)[i] <= 57 by {
            if i < d.len() {
                assert(decimal_ascii(n)[i] == d[i]);
            }
        }
    } else {
        assert(decimal_ascii(n)[0] == (48 + n) as u8);
    }
}

proof fn lemma_two_digits_no_w(n: nat)
    ensures
        count_w(two_digits(n)) == 0,
{
    reveal_strlit("0");
    lemma_decimal_digits(n);
    let t = two_digits(n);
    let d = ascii_chars(decimal_ascii(n));
    assert forall|i: int| 0 <= i < d.len() implies d[i] != 'w' by {
        let b = decimal_ascii(n)[i];
        assert(48 <= b <= 57);
    }
    if n < 10 {
        assert forall|i: int| 0 <= i < t.len() implies t[i] != 'w' by {
            if i >= 1 {
                assert(t[i] == d[i - 1]);
            }
        }
    }
    lemma_count_none(t);
}

proof fn lemma_count_w_literals()
    ensures
        count_w("Call "@) == 0,
        count_w(" - "@) == 0,
        count_w(":"@) == 0,
        count_w("Call ended with: "@) == 1,
{
    reveal_strlit("Call ");
    reveal_strlit(" - ");
    reveal_strlit(":");
    reveal_strlit("Call ended with: ");
    lemma_count_none("Call "@);
    lemma_count_none(" - "@);
    lemma_count_none(":"@);
    let e = "Call ended with: "@;
    lemma_count_none(e.subrange(0, 11));
    lemma_count_none(e.subrange(12, 17));
    lemma_count_concat(e.subrange(0, 11), e.subrange(11, 12));
    lemma_count_concat(e.subrange(0, 12), e.subrange(12, 17));
    assert(e.subrange(0, 11) + e.subrange(11, 12) =~= e.subrange(0, 12));
    assert(e.subrange(0, 12) + e.subrange(12, 17) =~= e);
    let one = e.subrange(11, 12);
    assert(one.drop_last() =~= Seq::<char>::empty());
    assert(count_w(Seq::<char>::empty()) == 0);
    assert(count_w(one.drop_last()) == 0);
    assert(one.last() == 'w');
    assert(count_w(one) == 1);
    assert(count_w(e.subrange(0, 11)) == 0);
    assert(count_w(e.subrange(12, 17)) == 0);
}

/// The decimal digits of `n`, as ASCII bytes.
pub(crate) fn decimal_bytes(n: u64) -> (r: Vec<u8>)
    ensures
        r@ == decimal_ascii(n as nat),
        all_ascii(r@),
    decreases n,
{
    if n < 10 {
        let d: u8 = (48 + n) as u8;
        let r: Vec<u8> = vec![d];
        assert(r@ =~= decimal_ascii(n as nat));
        r
    } else {
        let mut r = decimal_bytes(n / 10);
        let d: u8 = (48 + n % 10) as u8;
        r.push(d);
        r
    }
}

/// `n` formatted as `{:02}`.
fn two_digit_string(n: u64) -> (r: String)
    ensures
        r@ == two_digits(n as nat),
{
    let digits = string_from_ascii(decimal_bytes(n));
    if n < 10 {
        let mut s = String::from_str("0");
        s.append(digits.as_str());
        proof {
            reveal_strlit("0");
        }
        s
    } else {
        digits
    }
}

/// The samples handed to the sink for a chunk: 24 kHz audio is brought to 48 kHz by
/// repeating each sample; other rates pass as they are.
pub open spec fn sink_samples(decoded: Seq<i16>, sample_rate: u16) -> Seq<i16> {
    if sample_rate == 24000 {
        Seq::new(2 * decoded.len(), |i: int| decoded[i / 2])
    } else {
        decoded
    }
}

/// The ring or dial tone samples due `elapsed_ms` milliseconds into a call: 48 samples a
/// millisecond, 80 ms ahead, rounded up to the next whole 960-sample frame.
pub open spec fn tone_samples_required(elapsed_ms: nat) -> nat {
    (((elapsed_ms + 80) * 48) / 960 + 1) * 960
}

/// The audio samples a call may have sent `elapsed_ms` milliseconds after sending
/// began: 48 a millisecond, plus 8192 to absorb stalls.
pub open spec fn audio_budget(elapsed_ms: nat) -> nat {
    elapsed_ms * 48 + 8192
}

/// The μ-law encoding of each sample, in order.
pub open spec fn encoded_samples(samples: Seq<i16>) -> Seq<u8> {
    samples.map_values(|s: i16| ulaw_encode(s))
}

/// Repeats each sample twice.
fn upsample_twice(samples: &Vec<i16>) -> (r: Vec<i16>)
    requires
        2 * samples@.len() <= usize::MAX,
    ensures
        r@ == Seq::new(2 * samples@.len(), |i: int| samples@[i / 2]),
{
    let mut out: Vec<i16> = Vec::new();
    let mut i: usize = 0;
    while i < samples.len()
        invariant
            i <= samples@.len(),
            out@.len() == 2 * i,
            forall|k: int| 0 <= k < 2 * i ==> #[trigger] out@[k] == samples@[k / 2],
        decreases samples@.len() - i,
    {
        out.push(samples[i]);
        out.push(samples[i]);
        i += 1;
    }
    assert(out@ =~= Seq::new(2 * samples@.len(), |k: int| samples@[k / 2]));
    out
}

/// Encodes 16-bit samples as μ-law bytes.
pub fn encode_samples(samples: &[i16]) -> (r: Vec<u8>)
    ensures
        r@ == encoded_samples(samples@),
{
    let mut out: Vec<u8> = Vec::new();
    let mut i: usize = 0;
    while i < samples.len()
        invariant
            i <= samples@.len(),
            out@ == encoded_samples(samples@.subrange(0, i as int)),
        decreases samples@.len() - i,
    {
        out.push(linear_to_ulaw(samples[i]));
        i += 1;
        assert(encoded_samples(samples@.subrange(0, i as int)) =~= encoded_samples(samples@.subrange(0, i - 1)).push(ulaw_encode(samples@[i - 1])));
    }
    assert(samples@.subrange(0, i as int) =~= samples@);
    out
}

/// The keys of the active parties other than `my_key`, in order.
pub open spec fn active_peer_keys(pv: Seq<(Seq<char>, ContactType, CallPartyStatus)>, my_key: Seq<char>) -> Seq<Seq<char>>
    decreases pv.len(),
{
    if pv.len() == 0 {
        Seq::empty()
    } else if pv.last().2 == CallPartyStatus::Active && pv.last().0 != my_key {
        active_peer_keys(pv.drop_last(), my_key).push(pv.last().0)
    } else {
        active_peer_keys(pv.drop_last(), my_key)
    }
}

/// True for a party that is being dialed or rings.
pub open spec fn is_dialing(p: (Seq<char>, ContactType, CallPartyStatus)) -> bool {
    p.2 == CallPartyStatus::Ringing || p.2 == CallPartyStatus::Invited
}

/// Index of the first party that is being dialed or rings, or -1.
pub open spec fn dialing_index(pv: Seq<(Seq<char>, ContactType, CallPartyStatus)>) -> int
    decreases pv.len(),
{
    if pv.len() == 0 {
        -1
    } else {
        let i = dialing_index(pv.drop_last());
        if i >= 0 {
            i
        } else if is_dialing(pv.last()) {
            pv.len() - 1
        } else {
            -1
        }
    }
}

/// `dialing_index` is the first index of a dialed or ringing party, or -1.
proof fn lemma_dialing_index(pv: Seq<(Seq<char>, ContactType, CallPartyStatus)>)
    ensures
        -1 <= dialing_index(pv) < pv.len(),
        dialing_index(pv) >= 0 ==> is_dialing(pv[dialing_index(pv)]),
        forall|k: int| 0 <= k < pv.len() && (k < dialing_index(pv) || dialing_index(pv) == -1) ==> !is_dialing(pv[k]),
    decreases pv.len(),
{
    if pv.len() > 0 {
        let d = pv.drop_last();
        lemma_dialing_index(d);
        assert forall|k: int| 0 <= k < pv.len() && (k < dialing_index(pv) || dialing_index(pv) == -1) implies !is_dialing(pv[k]) by {
            if k < d.len() {
                assert(pv[k] == d[k]);
            }
        }
    }
}

/// `entry_index` depends only on the keys of the entries.
proof fn lemma_entry_index_keys(a: Seq<(Seq<char>, CallPartyStatus)>, b: Seq<(Seq<char>, CallPartyStatus)>, key: Seq<char>)
    requires
        a.len() == b.len(),
        forall|k: int| 0 <= k < a.len() ==> a[k].0 == b[k].0,
    ensures
        entry_index(a, key) == entry_index(b, key),
{
    lemma_entry_index(a, key);
    lemma_entry_index(b, key);
}

/// True when no two entries have the same key.
pub open spec fn distinct_keys(entries: Seq<(Seq<char>, CallPartyStatus)>) -> bool {
    forall|i: int, j: int| 0 <= i < j < entries.len() ==> entries[i].0 != entries[j].0
}

/// The status entries of a sequence of events hold each key once, and a key's entry
/// holds the status of its last event.
proof fn lemma_status_entries(events: Seq<CallPartyEvent>)
    ensures
        distinct_keys(status_entries(events)),
        forall|key: Seq<char>| (entry_index(status_entries(events), key) >= 0) == (#[trigger] last_status(events, key)).is_some(),
        forall|key: Seq<char>| entry_index(status_entries(events), key) >= 0 ==> status_entries(events)[entry_index(status_entries(events), key)].1 == (#[trigger] last_status(events, key)).unwrap(),
    decreases events.len(),
{
    if events.len() > 0 {
        let d = events.drop_last();
        lemma_status_entries(d);
        let prev = status_entries(d);
        let e = events.last();
        let cur = status_entries(events);
        let i = entry_index(prev, e.key@);
        lemma_entry_index(prev, e.key@);
        if i >= 0 {
            assert(cur == prev.update(i, (e.key@, e.status)));
            assert forall|key: Seq<char>| #![trigger last_status(events, key)]
                (entry_index(cur, key) >= 0) == last_status(events, key).is_some()
                && (entry_index(cur, key) >= 0 ==> cur[entry_index(cur, key)].1 == last_status(events, key).unwrap()) by {
                lemma_entry_index_keys(cur, prev, key);
                lemma_entry_index(prev, key);
                if key != e.key@ {
                    assert(last_status(events, key) == last_status(d, key));
                    if entry_index(prev, key) >= 0 {
                        assert(entry_index(prev, key) != i);
                    }
                }
            }
        } else {
            assert(cur == prev.push((e.key@, e.status)));
            assert forall|key: Seq<char>| #![trigger last_status(events, key)]
                (entry_index(cur, key) >= 0) == last_status(events, key).is_some()
                && (entry_index(cur, key) >= 0 ==> cur[entry_index(cur, key)].1 == last_status(events, key).unwrap()) by {
                lemma_entry_index(prev, key);
                assert(cur.drop_last() == prev);
                if key != e.key@ {
                    assert(last_status(events, key) == last_status(d, key));
                }
            }
            assert forall|a: int, b: int| 0 <= a < b < cur.len() implies cur[a].0 != cur[b].0 by {
                if b == cur.len() - 1 {
                    assert(prev[a].0 != e.key@);
                }
            }
        }
    }
}

/// Applying an entry for `entry.0` leaves the status of every other key as it was.
proof fn lemma_apply_entry_other(
    pv: Seq<(Seq<char>, ContactType, CallPartyStatus)>,
    entry: (Seq<char>, CallPartyStatus),
    known: Seq<Contact>,
    key: Seq<char>,
)
    requires
        key != entry.0,
    ensures
        status_of(apply_entry(pv, entry, known), key) == status_of(pv, key),
{
    let r = apply_entry(pv, entry, known);
    let i = party_index(pv, entry.0);
    lemma_party_index(pv, entry.0);
    lemma_party_index(pv, key);
    if i >= 0 {
        lemma_party_index_keys(r, pv, key);
        if party_index(pv, key) >= 0 {
            assert(party_index(pv, key) != i);
        }
    } else {
        assert(r.drop_last() == pv);
    }
}

/// Applying an entry gives its key the entry's status.
proof fn lemma_apply_entry_same(
    pv: Seq<(Seq<char>, ContactType, CallPartyStatus)>,
    entry: (Seq<char>, CallPartyStatus),
    known: Seq<Contact>,
)
    ensures
        status_of(apply_entry(pv, entry, known), entry.0) == Some(entry.1),
{
    let r = apply_entry(pv, entry, known);
    let i = party_index(pv, entry.0);
    lemma_party_index(pv, entry.0);
    if i >= 0 {
        lemma_party_index_keys(r, pv, entry.0);
    } else {
        assert(r.drop_last() == pv);
    }
}

/// After entries with distinct keys are applied, each entry's key has the entry's status.
proof fn lemma_apply_entries(
    pv: Seq<(Seq<char>, ContactType, CallPartyStatus)>,
    entries: Seq<(Seq<char>, CallPartyStatus)>,
    known: Seq<Contact>,
    k: int,
)
    requires
        distinct_keys(entries),
        0 <= k < entries.len(),
    ensures
        status_of(apply_entries(pv, entries, known), entries[k].0) == Some(entries[k].1),
    decreases entries.len(),
{
    let d = entries.drop_last();
    let prev = apply_entries(pv, d, known);
    if k == entries.len() - 1 {
        lemma_apply_entry_same(prev, entries.last(), known);
    } else {
        assert(d[k] == entries[k]);
        lemma_apply_entries(pv, d, known, k);
        lemma_apply_entry_other(prev, entries.last(), known, entries[k].0);
    }
}

/// A party's status is the status of its latest event: after a rebuild, the first party
/// with a key that has events holds the status of the last of them in id order.
pub proof fn law_status_follows_latest_event(
    pv: Seq<(Seq<char>, ContactType, CallPartyStatus)>,
    events: Seq<CallPartyEvent>,
    known: Seq<Contact>,
    key: Seq<char>,
)
    requires
        last_status(sort_by_id(events), key).is_some(),
    ensures
        status_of(rebuilt(pv, events, known), key) == last_status(sort_by_id(events), key),
{
    let sorted = sort_by_id(events);
    let entries = status_entries(sorted);
    lemma_status_entries(sorted);
    assert(last_status(sorted, key).is_some());
    let j = entry_index(entries, key);
    lemma_entry_index(entries, key);
    lemma_apply_entries(pv, entries, known, j);
}

/// Sorting events that are already sorted by id leaves them as they are.
proof fn lemma_sort_sorted(s: Seq<CallPartyEvent>)
    requires
        sorted_by_id(s),
    ensures
        sort_by_id(s) == s,
    decreases s.len(),
{
    if s.len() > 0 {
        let d = s.drop_last();
        assert(sorted_by_id(d));
        lemma_sort_sorted(d);
        if d.len() > 0 {
            assert(d.last().id <= s.last().id);
        }
        assert(d.push(s.last()) == s);
    }
}

/// No incoming event is fresh when the call has every incoming id already.
proof fn lemma_fresh_events_none(existing: Seq<CallPartyEvent>, incoming: Seq<CallPartyEvent>)
    requires
        forall|i: int| 0 <= i < incoming.len() ==> has_event_id(existing, #[trigger] incoming[i].id),
    ensures
        fresh_events(existing, incoming) == Seq::<CallPartyEvent>::empty(),
    decreases incoming.len(),
{
    if incoming.len() > 0 {
        let d = incoming.drop_last();
        assert forall|i: int| 0 <= i < d.len() implies has_event_id(existing, #[trigger] d[i].id) by {
            assert(d[i] == incoming[i]);
        }
        lemma_fresh_events_none(existing, d);
        assert(has_event_id(existing, incoming[incoming.len() - 1].id));
    }
}

/// Applying entries with distinct keys a second time changes nothing.
proof fn lemma_apply_entries_again(
    x: Seq<(Seq<char>, ContactType, CallPartyStatus)>,
    entries: Seq<(Seq<char>, CallPartyStatus)>,
    known: Seq<Contact>,
    m: int,
)
    requires
        distinct_keys(entries),
        0 <= m <= entries.len(),
        forall|k: int| 0 <= k < entries.len() ==> status_of(x, #[trigger] entries[k].0) == Some(entries[k].1),
    ensures
        apply_entries(x, entries.subrange(0, m), known) == x,
    decreases m,
{
    if m > 0 {
        let sub = entries.subrange(0, m);
        assert(sub.drop_last() == entries.subrange(0, m - 1));
        lemma_apply_entries_again(x, entries, known, m - 1);
        let e = entries[m - 1];
        assert(sub.last() == e);
        assert(status_of(x, e.0) == Some(e.1));
        let i = party_index(x, e.0);
        lemma_party_index(x, e.0);
        assert(i >= 0);
        assert(x[i] == (x[i].0, x[i].1, e.1));
        assert(x.update(i, (x[i].0, x[i].1, e.1)) =~= x);
    }
}

/// Merging events that a call already has changes nothing: its events stay as they are,
/// and rebuilding its parties from them again leaves the parties as they were.
pub proof fn law_merge_known_events_is_noop(
    pv: Seq<(Seq<char>, ContactType, CallPartyStatus)>,
    events: Seq<CallPartyEvent>,
    incoming: Seq<CallPartyEvent>,
    known: Seq<Contact>,
    known_again: Seq<Contact>,
)
    requires
        sorted_by_id(events),
        forall|i: int| 0 <= i < incoming.len() ==> has_event_id(events, #[trigger] incoming[i].id),
    ensures
        sort_by_id(events + fresh_events(events, incoming)) == events,
        rebuilt(rebuilt(pv, events, known), events + fresh_events(events, incoming), known_again) == rebuilt(pv, events, known),
{
    lemma_fresh_events_none(events, incoming);
    assert(events + fresh_events(events, incoming) == events);
    lemma_sort_sorted(events);
    let entries = status_entries(events);
    let x = rebuilt(pv, events, known);
    lemma_status_entries(events);
    assert forall|k: int| 0 <= k < entries.len() implies status_of(x, #[trigger] entries[k].0) == Some(entries[k].1) by {
        lemma_apply_entries(pv, entries, known, k);
    }
    lemma_apply_entries_again(x, entries, known_again, entries.len() as int);
    assert(entries.subrange(0, entries.len() as int) == entries);
}

/// The events by id; a later event with an id replaces an earlier one.
pub open spec fn event_map(s: Seq<CallPartyEvent>) -> Map<u128, CallPartyEvent>
    decreases s.len(),
{
    if s.len() == 0 {
        Map::empty()
    } else {
        event_map(s.drop_last()).insert(s.last().id, s.last())
    }
}

/// True when no two events share an id.
pub open spec fn ids_distinct(s: Seq<CallPartyEvent>) -> bool {
    forall|i: int, j: int| 0 <= i < j < s.len() ==> s[i].id != s[j].id
}

/// True when the ids strictly increase along the events.
pub open spec fn strictly_sorted(s: Seq<CallPartyEvent>) -> bool {
    forall|i: int, j: int| 0 <= i < j < s.len() ==> s[i].id < s[j].id
}

/// An id is a key of the event map exactly when some event has it.
proof fn lemma_event_map_keys(s: Seq<CallPartyEvent>)
    ensures
        forall|id: u128| #[trigger] event_map(s).contains_key(id) <==> exists|i: int| 0 <= i < s.len() && s[i].id == id,
    decreases s.len(),
{
    if s.len() > 0 {
        let d = s.drop_last();
        lemma_event_map_keys(d);
        assert forall|id: u128| #[trigger] event_map(s).contains_key(id) <==> exists|i: int| 0 <= i < s.len() && s[i].id == id by {
            if event_map(s).contains_key(id) {
                if id == s.last().id {
                    assert(s[s.len() - 1].id == id);
                } else {
                    assert(event_map(d).contains_key(id));
                    let i = choose|i: int| 0 <= i < d.len() && d[i].id == id;
                    assert(s[i] == d[i]);
                }
            }
            if exists|i: int| 0 <= i < s.len() && s[i].id == id {
                let i = choose|i: int| 0 <= i < s.len() && s[i].id == id;
                if i < d.len() {
                    assert(d[i] == s[i]);
                    assert(event_map(d).contains_key(id));
                }
            }
        }
    }
}

/// Inserting an event with a new id adds it to the event map and keeps ids strictly
/// increasing.
proof fn lemma_insert_by_id_map(s: Seq<CallPartyEvent>, e: CallPartyEvent)
    requires
        !event_map(s).contains_key(e.id),
    ensures
        event_map(insert_by_id(s, e)) == event_map(s).insert(e.id, e),
        strictly_sorted(s) ==> strictly_sorted(insert_by_id(s, e)),
    decreases s.len(),
{
    lemma_event_map_keys(s);
    if s.len() == 0 {
        let one = seq![e];
        assert(one.drop_last() =~= Seq::<CallPartyEvent>::empty());
        assert(one.last() == e);
        assert(insert_by_id(s, e) == one);
        assert(event_map(one) == event_map(Seq::<CallPartyEvent>::empty()).insert(e.id, e));
        assert(event_map(s) == Map::<u128, CallPartyEvent>::empty());
        assert(event_map(Seq::<CallPartyEvent>::empty()) == Map::<u128, CallPartyEvent>::empty());
    } else if s.last().id <= e.id {
        assert(s.push(e).drop_last() =~= s);
        if strictly_sorted(s) {
            assert(s[s.len() - 1].id != e.id);
        }
    } else {
        let d = s.drop_last();
        let l = s.last();
        lemma_event_map_keys(d);
        assert(!event_map(d).contains_key(e.id)) by {
            if event_map(d).contains_key(e.id) {
                let i = choose|i: int| 0 <= i < d.len() && d[i].id == e.id;
                assert(s[i] == d[i]);
            }
        }
        lemma_insert_by_id_map(d, e);
        let t = insert_by_id(d, e);
        assert(t.push(l).drop_last() =~= t);
        assert(event_map(t.push(l)) =~= event_map(s).insert(e.id, e));
        if strictly_sorted(s) {
            assert(strictly_sorted(d));
            lemma_insert_by_id_members(d, e);
            assert forall|i: int, j: int| 0 <= i < j < t.push(l).len() implies t.push(l)[i].id < t.push(l)[j].id by {
                if j == t.len() {
                    if t[i] == e {
                    } else {
                        let k = choose|k: int| 0 <= k < d.len() && d[k] == t[i];
                        assert(s[k] == t[i]);
                    }
                }
            }
        }
    }
}

/// Sorting events whose ids are distinct keeps their event map and makes the ids strictly
/// increase.
proof fn lemma_sort_by_id_map(s: Seq<CallPartyEvent>)
    requires
        ids_distinct(s),
    ensures
        event_map(sort_by_id(s)) == event_map(s),
        strictly_sorted(sort_by_id(s)),
    decreases s.len(),
{
    if s.len() > 0 {
        let d = s.drop_last();
        assert(ids_distinct(d));
        lemma_sort_by_id_map(d);
        lemma_event_map_keys(d);
        assert(!event_map(sort_by_id(d)).contains_key(s.last().id)) by {
            if event_map(d).contains_key(s.last().id) {
                let i = choose|i: int| 0 <= i < d.len() && d[i].id == s.last().id;
                assert(s[i] == d[i]);
            }
        }
        lemma_insert_by_id_map(sort_by_id(d), s.last());
    }
}

/// Two event sequences whose ids strictly increase and whose event maps agree are the
/// same sequence.
proof fn lemma_strictly_sorted_unique(s1: Seq<CallPartyEvent>, s2: Seq<CallPartyEvent>)
    requires
        strictly_sorted(s1),
        strictly_sorted(s2),
        event_map(s1) == event_map(s2),
    ensures
        s1 == s2,
    decreases s1.len() + s2.len(),
{
    lemma_event_map_keys(s1);
    lemma_event_map_keys(s2);
    if s1.len() == 0 && s2.len() == 0 {
        assert(s1 =~= s2);
    } else if s1.len() == 0 {
        assert(event_map(s2).contains_key(s2[0].id));
    } else if s2.len() == 0 {
        assert(event_map(s1).contains_key(s1[0].id));
    } else {
        let a = s1.last();
        let b = s2.last();
        assert(event_map(s1).contains_key(a.id));
        assert(event_map(s2).contains_key(b.id));
        let j = choose|j: int| 0 <= j < s2.len() && s2[j].id == a.id;
        let k = choose|k: int| 0 <= k < s1.len() && s1[k].id == b.id;
        if j < s2.len() - 1 {
            assert(s2[j].id < b.id);
        }
        if k < s1.len() - 1 {
            assert(s1[k].id < a.id);
        }
        assert(a.id == b.id);
        assert(event_map(s1)[a.id] == a);
        assert(event_map(s2)[b.id] == b);
        let d1 = s1.drop_last();
        let d2 = s2.drop_last();
        lemma_event_map_keys(d1);
        lemma_event_map_keys(d2);
        assert(!event_map(d1).contains_key(a.id)) by {
            if event_map(d1).contains_key(a.id) {
                let i = choose|i: int| 0 <= i < d1.len() && d1[i].id == a.id;
                assert(s1[i].id < a.id);
            }
        }
        assert(!event_map(d2).contains_key(b.id)) by {
            if event_map(d2).contains_key(b.id) {
                let i = choose|i: int| 0 <= i < d2.len() && d2[i].id == b.id;
                assert(s2[i].id < b.id);
            }
        }
        assert(event_map(d1) =~= event_map(s1).remove(a.id));
        assert(event_map(d2) =~= event_map(s2).remove(b.id));
        assert(strictly_sorted(d1));
        assert(strictly_sorted(d2));
        lemma_strictly_sorted_unique(d1, d2);
        assert(s1 =~= d1.push(a));
        assert(s2 =~= d2.push(b));
    }
}

/// Calls converge: two parties that hold the same events (each id once), however the
/// events reached them, sort them alike and so give every party the same status.
pub proof fn law_calls_converge(
    s1: Seq<CallPartyEvent>,
    s2: Seq<CallPartyEvent>,
    pv: Seq<(Seq<char>, ContactType, CallPartyStatus)>,
    known: Seq<Contact>,
)
    requires
        ids_distinct(s1),
        ids_distinct(s2),
        event_map(s1) == event_map(s2),
    ensures
        sort_by_id(s1) == sort_by_id(s2),
        rebuilt(pv, s1, known) == rebuilt(pv, s2, known),
{
    lemma_sort_by_id_map(s1);
    lemma_sort_by_id_map(s2);
    lemma_strictly_sorted_unique(sort_by_id(s1), sort_by_id(s2));
}

/// The fresh events are incoming events whose ids the existing events lack; their ids are
/// distinct when the incoming ids are; and an id is among them exactly when it is among
/// the incoming ids and not the existing ones.
proof fn lemma_fresh_events(existing: Seq<CallPartyEvent>, incoming: Seq<CallPartyEvent>)
    requires
        ids_distinct(incoming),
    ensures
        ids_distinct(fresh_events(existing, incoming)),
        forall|id: u128| #[trigger] has_event_id(fresh_events(existing, incoming), id)
            <==> (has_event_id(incoming, id) && !has_event_id(existing, id)),
    decreases incoming.len(),
{
    let f = fresh_events(existing, incoming);
    if incoming.len() > 0 {
        let d = incoming.drop_last();
        let l = incoming.last();
        assert(ids_distinct(d)) by {
            assert forall|i: int, j: int| 0 <= i < j < d.len() implies d[i].id != d[j].id by {
                assert(d[i] == incoming[i] && d[j] == incoming[j]);
            }
        }
        lemma_fresh_events(existing, d);
        let p = fresh_events(existing, d);
        assert(!has_event_id(d, l.id)) by {
            if has_event_id(d, l.id) {
                let i = choose|i: int| 0 <= i < d.len() && d[i].id == l.id;
                assert(incoming[i].id == incoming[incoming.len() - 1].id);
            }
        }
        assert forall|id: u128| #[trigger] has_event_id(f, id) <==> (has_event_id(incoming, id) && !has_event_id(existing, id)) by {
            if has_event_id(incoming, id) {
                let i = choose|i: int| 0 <= i < incoming.len() && incoming[i].id == id;
                if i < d.len() {
                    assert(d[i].id == id);
                    assert(has_event_id(d, id));
                }
            }
            if has_event_id(d, id) {
                let i = choose|i: int| 0 <= i < d.len() && d[i].id == id;
                assert(incoming[i].id == id);
            }
            if !has_event_id(existing, l.id) {
                assert(f == p.push(l));
                if has_event_id(f, id) {
                    let i = choose|i: int| 0 <= i < f.len() && f[i].id == id;
                    if i < p.len() {
                        assert(p[i] == f[i]);
                        assert(has_event_id(p, id));
                    }
                }
                if has_event_id(p, id) {
                    let i = choose|i: int| 0 <= i < p.len() && p[i].id == id;
                    assert(f[i] == p[i]);
                }
                if id == l.id {
                    assert(f[f.len() - 1] == l);
                }
            }
        }
        if !has_event_id(existing, l.id) {
            assert(f == p.push(l));
            assert forall|i: int, j: int| 0 <= i < j < f.len() implies f[i].id != f[j].id by {
                if j == f.len() - 1 {
                    assert(f[i] == p[i]);
                    assert(has_event_id(p, p[i].id));
                } else {
                    assert(f[i] == p[i] && f[j] == p[j]);
                }
            }
        }
    }
}

/// Merging incoming events into a call whose event ids are distinct, when the incoming
/// ids are distinct too, leaves its events in strictly increasing id order, each id once,
/// and holding exactly the ids of the old events and of the incoming ones.
pub proof fn law_merge_events_union(events: Seq<CallPartyEvent>, incoming: Seq<CallPartyEvent>)
    requires
        ids_distinct(events),
        ids_distinct(incoming),
    ensures
        strictly_sorted(sort_by_id(events + fresh_events(events, incoming))),
        forall|id: u128| #[trigger] has_event_id(sort_by_id(events + fresh_events(events, incoming)), id)
            <==> (has_event_id(events, id) || has_event_id(incoming, id)),
{
    let f = fresh_events(events, incoming);
    let all = events + f;
    lemma_fresh_events(events, incoming);
    assert(ids_distinct(all)) by {
        assert forall|i: int, j: int| 0 <= i < j < all.len() implies all[i].id != all[j].id by {
            if j < events.len() {
                assert(all[i] == events[i] && all[j] == events[j]);
            } else if i >= events.len() {
                assert(all[i] == f[i - events.len()] && all[j] == f[j - events.len()]);
            } else {
                assert(all[i] == events[i] && all[j] == f[j - events.len()]);
                assert(has_event_id(f, f[j - events.len()].id));
                assert(has_event_id(events, events[i].id));
            }
        }
    }
    lemma_sort_by_id_map(all);
    let m = sort_by_id(all);
    lemma_event_map_keys(all);
    lemma_event_map_keys(m);
    assert forall|id: u128| #[trigger] has_event_id(m, id) <==> (has_event_id(events, id) || has_event_id(incoming, id)) by {
        assert(event_map(m).contains_key(id) == event_map(all).contains_key(id));
        if has_event_id(all, id) {
            let i = choose|i: int| 0 <= i < all.len() && all[i].id == id;
            if i < events.len() {
                assert(events[i] == all[i]);
            } else {
                assert(f[i - events.len()] == all[i]);
                assert(has_event_id(f, id));
            }
        }
        if has_event_id(events, id) {
            let i = choose|i: int| 0 <= i < events.len() && events[i].id == id;
            assert(all[i] == events[i]);
        }
        if has_event_id(f, id) {
            let i = choose|i: int| 0 <= i < f.len() && f[i].id == id;
            assert(all[events.len() + i] == f[i]);
        }
    }
}

/// True when the full call state is due to be sent again at `now`: it never was, or it
/// was at least a second ago.
pub open spec fn resend_due(last: Option<u64>, now: u64) -> bool {
    match last {
        None => true,
        Some(t) => now >= t && now - t >= 1000,
    }
}

/// True when another 2048 samples of ring or dial tone are due at `now` for a call that
/// began at `started` and has `written` tone samples out.
pub open spec fn tone_due(started: u64, written: usize, now: u64) -> bool {
    tone_samples_required((if now >= started { now - started } else { 0 }) as nat) > written
        && written + 2048 <= usize::MAX
}

/// How many more audio samples a call may send at `now` when sending began at `start`
/// and `sent` samples are out: what is left of the budget, or 0.
pub open spec fn allowance_at(start: u64, sent: usize, now: u64) -> usize {
    let elapsed: nat = if now >= start { (now - start) as nat } else { 0 };
    if audio_budget(elapsed) > sent {
        if audio_budget(elapsed) - sent <= usize::MAX {
            (audio_budget(elapsed) - sent) as usize
        } else {
            usize::MAX
        }
    } else {
        0
    }
}

/// The audio a call step makes.
#[derive(Debug, PartialEq, Eq)]
pub enum CallAudio {
    /// No audio.
    Nothing,
    /// The ring tone; a chunk of it is written when one is due.
    RingTone { chunk_due: bool },
    /// The dial tone for this key's digits; a chunk of it is written when one is due.
    DialTone { key: String, chunk_due: bool },
    /// Captured audio, sent to each of these keys, up to this many samples.
    SendAudio { peers: Vec<String>, allowance: usize },
}

/// The decisions of one call step.
#[derive(Debug)]
pub struct CallStepPlan {
    /// Send the full call state to every party that has not hung up.
    pub send_state: bool,
    /// Make the audio stream anew.
    pub recreate_audio: bool,
    /// Play the stream (else pause it).
    pub play: bool,
    /// The audio to make.
    pub audio: CallAudio,
}

/// The end time a call keeps after a step, as its party `own` sees it at `now`: cleared
/// while another party has not hung up; first set to `now` when no other party is there
/// yet; otherwise unchanged.
pub open spec fn retained_end(pv: Seq<(Seq<char>, ContactType, CallPartyStatus)>, ended: Option<u64>, own: Seq<char>, now: u64) -> Option<u64> {
    let others = exists|i: int| 0 <= i < not_hung_up_keys(pv).len() && not_hung_up_keys(pv)[i] != own;
    match status_of(pv, own) {
        None => ended,
        Some(CallPartyStatus::HungUp) => ended,
        Some(_) => if others {
            None
        } else if others_all_hung_up(pv, own) {
            ended
        } else {
            Some(match ended { Some(t) => t, None => now })
        },
    }
}

/// A call: its id, its parties and the events that set their statuses, and the counters
/// and times of its audio.
#[derive(Debug)]
pub struct Call {
    id: String,
    parties: Vec<CallParty>,
    events: Vec<CallPartyEvent>,
    ring_samples_written: usize,
    audio_send_start: Option<u64>,
    audio_samples_sent: usize,
    last_invite: Option<u64>,
    /// When the call began, in milliseconds since the Unix epoch.
    pub call_started: u64,
    /// When the call was seen to have no other party left, in milliseconds.
    pub call_ended: Option<u64>,
}

impl Call {
    /// The id of the call.
    pub closed spec fn spec_id(&self) -> Seq<char> {
        self.id@
    }

    /// The parties, as keys, contact types and statuses.
    pub closed spec fn spec_parties(&self) -> Seq<(Seq<char>, ContactType, CallPartyStatus)> {
        parties_view(self.parties@)
    }

    /// The events of the call.
    pub closed spec fn spec_events(&self) -> Seq<CallPartyEvent> {
        self.events@
    }

    /// When the call began.
    pub closed spec fn spec_call_started(&self) -> u64 {
        self.call_started
    }

    /// When the call was seen to have no other party left, if it was.
    pub closed spec fn spec_call_ended(&self) -> Option<u64> {
        self.call_ended
    }

    /// The ring tone samples written so far.
    pub closed spec fn spec_ring_samples_written(&self) -> usize {
        self.ring_samples_written
    }

    /// The audio samples sent so far.
    pub closed spec fn spec_audio_samples_sent(&self) -> usize {
        self.audio_samples_sent
    }

    /// When audio sending began, if it did.
    pub closed spec fn spec_audio_send_start(&self) -> Option<u64> {
        self.audio_send_start
    }

    /// When the call state was last sent, if it was.
    pub closed spec fn spec_last_invite(&self) -> Option<u64> {
        self.last_invite
    }

    /// A call with this id and these events, parties and start time, and nothing sent yet.
    fn with_state(id: String, parties: Vec<CallParty>, events: Vec<CallPartyEvent>, started: u64) -> (r: Self)
        ensures
            r.spec_id() == id@,
            r.spec_parties() == parties_view(parties@),
            r.spec_events() == events@,
            r.spec_call_started() == started,
            r.spec_call_ended().is_none(),
            r.spec_ring_samples_written() == 0,
            r.spec_audio_samples_sent() == 0,
            r.spec_audio_send_start().is_none(),
            r.spec_last_invite().is_none(),
    {
        Call {
            id,
            parties,
            events,
            ring_samples_written: 0,
            audio_send_start: None,
            audio_samples_sent: 0,
            last_invite: None,
            call_started: started,
            call_ended: None,
        }
    }

    /// A new call placed by `own_key` to `parties`: each invited party gets an `Invited`
    /// event and the caller an `Active` one; the parties are the invited ones, then the
    /// caller.
    pub fn new(own_key: String, parties: Vec<Contact>) -> (r: Self)
        ensures
            r.spec_events().len() == parties@.len() + 1,
            r.spec_events()[0].key@ == own_key@,
            r.spec_events()[0].status == CallPartyStatus::Active,
            forall|i: int| 0 <= i < parties@.len() ==> (#[trigger] r.spec_events()[i + 1]).key@ == parties@[i].public_key@
                && r.spec_events()[i + 1].status == CallPartyStatus::Invited,
            forall|i: int| 0 <= i < r.spec_events().len() ==> is_v7(#[trigger] r.spec_events()[i].id),
            r.spec_parties().len() == parties@.len() + 1,
            forall|i: int| 0 <= i < parties@.len() ==> #[trigger] r.spec_parties()[i] == (
                parties@[i].public_key@,
                parties@[i].contact_type,
                CallPartyStatus::Invited,
            ),
            r.spec_parties()[parties@.len() as int] == (own_key@, ContactType::Contact, CallPartyStatus::Active),
            r.spec_call_ended().is_none(),
            r.spec_ring_samples_written() == 0,
            r.spec_audio_samples_sent() == 0,
            r.spec_last_invite().is_none(),
    {
        let mut events: Vec<CallPartyEvent> = Vec::new();
        events.push(CallPartyEvent::new(own_key.clone(), CallPartyStatus::Active));
        let mut i: usize = 0;
        while i < parties.len()
            invariant
                i <= parties@.len(),
                events@.len() == i + 1,
                events@[0].key@ == own_key@,
                events@[0].status == CallPartyStatus::Active,
                forall|k: int| 0 <= k < i ==> (#[trigger] events@[k + 1]).key@ == parties@[k].public_key@
                    && events@[k + 1].status == CallPartyStatus::Invited,
                forall|k: int| 0 <= k < events@.len() ==> is_v7(#[trigger] events@[k].id),
            decreases parties@.len() - i,
        {
            events.push(CallPartyEvent::new(parties[i].public_key.clone(), CallPartyStatus::Invited));
            i += 1;
        }
        let ghost contacts = parties@;
        let mut call_parties: Vec<CallParty> = Vec::new();
        let mut rest = parties;
        let mut n: usize = 0;
        let total = rest.len();
        while rest.len() > 0
            invariant
                n + rest@.len() == contacts.len(),
                total == contacts.len(),
                rest@ == contacts.subrange(n as int, contacts.len() as int),
                call_parties@.len() == n,
                forall|k: int| 0 <= k < n ==> #[trigger] parties_view(call_parties@)[k] == (
                    contacts[k].public_key@,
                    contacts[k].contact_type,
                    CallPartyStatus::Invited,
                ),
            decreases rest@.len(),
        {
            let c = rest.remove(0);
            assert(c == contacts[n as int]);
            let party = CallParty::from(c);
            assert(party.contact == contacts[n as int] && party.status == CallPartyStatus::Invited);
            let ghost before = call_parties@;
            call_parties.push(party);
            assert(parties_view(call_parties@) =~= parties_view(before).push(party_view(party)));
            n += 1;
            assert(rest@ =~= contacts.subrange(n as int, contacts.len() as int));
        }
        let ghost before = call_parties@;
        let own = CallParty { contact: Contact::new(own_key), status: CallPartyStatus::Active };
        call_parties.push(own);
        assert(parties_view(call_parties@) =~= parties_view(before).push(party_view(own)));
        assert(n == contacts.len());
        let id = uuid_to_string(new_uuid_v7());
        let started = crate::clock::now_millis();
        Self::with_state(id, call_parties, events, started)
    }

    /// Sorts the events by id and sets each party's status to that of its latest event;
    /// keys with no party join, with the contact `known` gives them.
    fn rebuild_parties(&mut self, known: &Vec<Contact>)
        ensures
            final(self).spec_events() == sort_by_id(old(self).spec_events()),
            final(self).spec_parties() == rebuilt(old(self).spec_parties(), old(self).spec_events(), known@),
            final(self).spec_id() == old(self).spec_id(),
            final(self).spec_call_started() == old(self).spec_call_started(),
            final(self).spec_call_ended() == old(self).spec_call_ended(),
            final(self).spec_ring_samples_written() == old(self).spec_ring_samples_written(),
            final(self).spec_audio_samples_sent() == old(self).spec_audio_samples_sent(),
            final(self).spec_audio_send_start() == old(self).spec_audio_send_start(),
            final(self).spec_last_invite() == old(self).spec_last_invite(),
    {
        let mut events: Vec<CallPartyEvent> = Vec::new();
        std::mem::swap(&mut events, &mut self.events);
        let sorted = sort_events(events);
        let entries = compute_status_entries(&sorted);
        apply_status_entries(&mut self.parties, &entries, known);
        self.events = sorted;
    }

    /// A call rebuilt from events received from a peer; parties join with the contact
    /// `known` gives them.
    pub fn from_events(id: String, events: Vec<CallPartyEvent>, known: &Vec<Contact>) -> (r: Self)
        ensures
            r.spec_id() == id@,
            r.spec_events() == sort_by_id(fresh_events(Seq::empty(), events@)),
            r.spec_parties() == rebuilt(Seq::empty(), fresh_events(Seq::empty(), events@), known@),
            r.spec_call_ended().is_none(),
            r.spec_ring_samples_written() == 0,
            r.spec_audio_samples_sent() == 0,
            r.spec_last_invite().is_none(),
    {
        let started = crate::clock::now_millis();
        let mut call = Self::with_state(id, Vec::new(), Vec::new(), started);
        assert(parties_view(Seq::<CallParty>::empty()) =~= Seq::empty());
        call.merge_events(events, known);
        call
    }

    /// The number of parties whose status is `Active`.
    pub fn active_party_count(&self) -> (r: usize)
        ensures
            r == active_count(self.spec_parties()),
    {
        let mut n: usize = 0;
        let mut i: usize = 0;
        while i < self.parties.len()
            invariant
                i <= self.parties@.len(),
                n == active_count(parties_view(self.parties@).subrange(0, i as int)),
                n <= i,
            decreases self.parties@.len() - i,
        {
            assert(parties_view(self.parties@).subrange(0, i + 1).drop_last() =~= parties_view(self.parties@).subrange(0, i as int));
            if self.parties[i].status == CallPartyStatus::Active {
                n += 1;
            }
            i += 1;
        }
        assert(parties_view(self.parties@).subrange(0, i as int) =~= parties_view(self.parties@));
        n
    }

    /// The number of parties that have not hung up.
    pub fn active_or_ringing_party_count(&self) -> (r: usize)
        ensures
            r == not_hung_up_count(self.spec_parties()),
    {
        let mut n: usize = 0;
        let mut i: usize = 0;
        while i < self.parties.len()
            invariant
                i <= self.parties@.len(),
                n == not_hung_up_count(parties_view(self.parties@).subrange(0, i as int)),
                n <= i,
            decreases self.parties@.len() - i,
        {
            assert(parties_view(self.parties@).subrange(0, i + 1).drop_last() =~= parties_view(self.parties@).subrange(0, i as int));
            if self.parties[i].status != CallPartyStatus::HungUp {
                n += 1;
            }
            i += 1;
        }
        assert(parties_view(self.parties@).subrange(0, i as int) =~= parties_view(self.parties@));
        n
    }

    /// The id of the call.
    pub fn id(&self) -> (r: &str)
        ensures
            r@ == self.spec_id(),
    {
        self.id.as_str()
    }

    /// The status of the first party with this key, if there is one.
    pub fn get_status(&self, public_key: &str) -> (r: Option<CallPartyStatus>)
        ensures
            r == status_of(self.spec_parties(), public_key@),
    {
        let j = find_party(&self.parties, public_key);
        if j < self.parties.len() {
            Some(self.parties[j].status)
        } else {
            None
        }
    }

    /// The events of the call.
    pub fn events(&self) -> (r: &[CallPartyEvent])
        ensures
            r@ == self.spec_events(),
    {
        self.events.as_slice()
    }

    /// The keys of the parties that have not hung up, in order.
    pub fn non_hungup_party_keys(&self) -> (r: Vec<String>)
        ensures
            r@.map_values(|k: String| k@) == not_hung_up_keys(self.spec_parties()),
    {
        let mut keys: Vec<String> = Vec::new();
        let mut i: usize = 0;
        while i < self.parties.len()
            invariant
                i <= self.parties@.len(),
                keys@.map_values(|k: String| k@) == not_hung_up_keys(parties_view(self.parties@).subrange(0, i as int)),
            decreases self.parties@.len() - i,
        {
            assert(parties_view(self.parties@).subrange(0, i + 1).drop_last() =~= parties_view(self.parties@).subrange(0, i as int));
            if self.parties[i].status != CallPartyStatus::HungUp {
                let ghost before = keys@;
                keys.push(self.parties[i].contact.public_key.clone());
                assert(keys@.map_values(|k: String| k@) =~= before.map_values(|k: String| k@).push(self.parties@[i as int].contact.public_key@));
            }
            i += 1;
        }
        assert(parties_view(self.parties@).subrange(0, i as int) =~= parties_view(self.parties@));
        keys
    }

    /// True when the call has a party other than `own_key` and every such party has hung up.
    pub fn all_other_parties_hung_up(&self, own_key: &str) -> (r: bool)
        ensures
            r == others_all_hung_up(self.spec_parties(), own_key@),
    {
        let ghost pv = parties_view(self.parties@);
        let mut saw_other_party = false;
        let mut i: usize = 0;
        while i < self.parties.len()
            invariant
                i <= self.parties@.len(),
                pv == parties_view(self.parties@),
                saw_other_party == exists|k: int| 0 <= k < i && pv[k].0 != own_key@,
                forall|k: int| 0 <= k < i && pv[k].0 != own_key@ ==> pv[k].2 == CallPartyStatus::HungUp,
            decreases self.parties@.len() - i,
        {
            if crate::text::str_eq(self.parties[i].contact.public_key.as_str(), own_key) {
                i += 1;
                continue;
            }
            saw_other_party = true;
            if self.parties[i].status != CallPartyStatus::HungUp {
                assert(pv[i as int].0 != own_key@ && pv[i as int].2 != CallPartyStatus::HungUp);
                return false;
            }
            i += 1;
        }
        saw_other_party
    }

    /// The keys of all parties, in order.
    pub fn get_party_public_keys(&self) -> (r: Vec<String>)
        ensures
            r@.len() == self.spec_parties().len(),
            forall|i: int| 0 <= i < r@.len() ==> #[trigger] r@[i]@ == self.spec_parties()[i].0,
    {
        let mut keys: Vec<String> = Vec::new();
        let mut i: usize = 0;
        while i < self.parties.len()
            invariant
                i <= self.parties@.len(),
                keys@.len() == i,
                forall|k: int| 0 <= k < i ==> #[trigger] keys@[k]@ == parties_view(self.parties@)[k].0,
            decreases self.parties@.len() - i,
        {
            keys.push(self.parties[i].contact.public_key.clone());
            i += 1;
        }
        keys
    }

    /// The position of the first party with this key, if there is one.
    pub fn get_party_index(&self, public_key: &str) -> (r: Option<usize>)
        ensures
            r == (if party_index(self.spec_parties(), public_key@) >= 0 {
                Some(party_index(self.spec_parties(), public_key@) as usize)
            } else {
                None
            }),
    {
        let j = find_party(&self.parties, public_key);
        if j < self.parties.len() {
            Some(j)
        } else {
            None
        }
    }

    /// A copy of the parties.
    pub fn get_parties(&self) -> (r: Vec<CallParty>)
        ensures
            parties_view(r@) == self.spec_parties(),
    {
        let mut out: Vec<CallParty> = Vec::new();
        let mut i: usize = 0;
        while i < self.parties.len()
            invariant
                i <= self.parties@.len(),
                out@.len() == i,
                forall|k: int| 0 <= k < i ==> #[trigger] out@[k] == self.parties@[k],
            decreases self.parties@.len() - i,
        {
            out.push(CallParty { status: self.parties[i].status, contact: copy_contact(&self.parties[i].contact) });
            i += 1;
        }
        assert(parties_view(out@) =~= parties_view(self.parties@));
        out
    }

    /// The decorated names of the parties other than `own_key`, joined with `, `.
    fn joined_other_names(&self, own_key: &str, display_names: &Vec<String>) -> (r: String)
        requires
            display_names@.len() == self.spec_parties().len(),
        ensures
            r@ == join(other_names(self.spec_parties(), names_view(display_names@), own_key@), ", "@),
    {
        let ghost pv = parties_view(self.parties@);
        let ghost names = names_view(display_names@);
        let mut out = String::new();
        let mut any = false;
        let mut i: usize = 0;
        proof {
            reveal_strlit(", ");
            reveal_strlit(" (dialing)");
            reveal_strlit(" (ringing)");
        }
        while i < self.parties.len()
            invariant
                i <= self.parties@.len(),
                pv == parties_view(self.parties@),
                names == names_view(display_names@),
                names.len() == pv.len(),
                out@ == join(other_names(pv.subrange(0, i as int), names, own_key@), ", "@),
                any == (other_names(pv.subrange(0, i as int), names, own_key@).len() > 0),
            decreases self.parties@.len() - i,
        {
            proof {
                let sub = pv.subrange(0, i + 1);
                assert(sub.drop_last() =~= pv.subrange(0, i as int));
                assert(sub.last() == pv[i as int]);
            }
            if !crate::text::str_eq(self.parties[i].contact.public_key.as_str(), own_key) {
                let ghost prior = other_names(pv.subrange(0, i as int), names, own_key@);
                if any {
                    out.append(", ");
                }
                any = true;
                out.append(display_names[i].as_str());
                match self.parties[i].status {
                    CallPartyStatus::Invited => out.append(" (dialing)"),
                    CallPartyStatus::Ringing => out.append(" (ringing)"),
                    _ => {},
                }
                proof {
                    let now = other_names(pv.subrange(0, i + 1), names, own_key@);
                    assert(now == prior.push(decorated_name(names[i as int], pv[i as int].2)));
                    assert(now.drop_last() == prior);
                    if prior.len() == 0 {
                        assert(join(prior, ", "@) =~= Seq::<char>::empty());
                    }
                    assert(out@ =~= join(now, ", "@));
                }
            }
            i += 1;
        }
        assert(pv.subrange(0, i as int) =~= pv);
        out
    }

    /// The label of the call as `own_contact` sees it, `secs` seconds after it began;
    /// `display_names[i]` is the name shown for party `i`.
    pub fn label_at(&self, own_contact: &Contact, display_names: &Vec<String>, secs: u64) -> (r: String)
        requires
            display_names@.len() == self.spec_parties().len(),
        ensures
            r@ == call_label(
                status_of(self.spec_parties(), own_contact.public_key@),
                active_count(self.spec_parties()),
                join(other_names(self.spec_parties(), names_view(display_names@), own_contact.public_key@), ", "@),
                secs as nat,
            ),
            ({
                let own = status_of(self.spec_parties(), own_contact.public_key@);
                let joined = join(other_names(self.spec_parties(), names_view(display_names@), own_contact.public_key@), ", "@);
                &&& (r@ == "Incoming call from "@ + joined <==> (own == Some(CallPartyStatus::Ringing) || own == Some(CallPartyStatus::Invited)))
                &&& (r@ == "Call ended with: "@ + joined <==> (own is None || own == Some(CallPartyStatus::HungUp)))
                &&& (r@ == "Calling "@ + joined <==> (own == Some(CallPartyStatus::Active) && active_count(self.spec_parties()) <= 1))
            }),
    {
        proof {
            law_call_label_kinds(
                status_of(self.spec_parties(), own_contact.public_key@),
                active_count(self.spec_parties()),
                join(other_names(self.spec_parties(), names_view(display_names@), own_contact.public_key@), ", "@),
                secs as nat,
            );
        }
        let joined = self.joined_other_names(own_contact.public_key.as_str(), display_names);
        proof {
            reveal_strlit("Call ");
            reveal_strlit(" - ");
            reveal_strlit(":");
            reveal_strlit("Calling ");
            reveal_strlit("Call ended with: ");
            reveal_strlit("Incoming call from ");
        }
        match self.get_status(own_contact.public_key.as_str()) {
            Some(CallPartyStatus::Active) => {
                if self.active_party_count() > 1 {
                    let mut s = String::from_str("Call ");
                    s.append(joined.as_str());
                    s.append(" - ");
                    s.append(two_digit_string(secs / 60).as_str());
                    s.append(":");
                    s.append(two_digit_string(secs % 60).as_str());
                    s
                } else {
                    let mut s = String::from_str("Calling ");
                    s.append(joined.as_str());
                    s
                }
            },
            Some(CallPartyStatus::HungUp) | None => {
                let mut s = String::from_str("Call ended with: ");
                s.append(joined.as_str());
                s
            },
            _ => {
                let mut s = String::from_str("Incoming call from ");
                s.append(joined.as_str());
                s
            },
        }
    }

    /// The label of the call as `own_contact` sees it now (the seconds since the call
    /// began are read from the clock); `display_names[i]` is the name shown for party `i`.
    pub fn get_call_label(&self, own_contact: &Contact, display_names: &Vec<String>) -> (r: String)
        requires
            display_names@.len() == self.spec_parties().len(),
        ensures
            exists|secs: nat| r@ == #[trigger] call_label(
                status_of(self.spec_parties(), own_contact.public_key@),
                active_count(self.spec_parties()),
                join(other_names(self.spec_parties(), names_view(display_names@), own_contact.public_key@), ", "@),
                secs,
            ),
    {
        let now = crate::clock::now_millis();
        let secs = now.saturating_sub(self.call_started) / 1000;
        self.label_at(own_contact, display_names, secs)
    }

    /// What an incoming audio chunk from `from_key` becomes: the sink channel (one past
    /// the sender's party position) and the decoded samples at 48 kHz, or `None` when the
    /// sender is not a party.
    pub fn receive_audio(&self, chunk: &AudioChunk, from_key: &str) -> (r: Option<(usize, Vec<i16>)>)
        requires
            2 * chunk->samples@.len() <= usize::MAX,
        ensures
            party_index(self.spec_parties(), from_key@) < 0 ==> r.is_none(),
            party_index(self.spec_parties(), from_key@) >= 0 ==> (r matches Some((channel, samples))
                && channel == party_index(self.spec_parties(), from_key@) + 1
                && samples@ == sink_samples(chunk->samples@.map_values(|b: u8| ulaw_decode(b)), chunk->sample_rate)),
    {
        let j = find_party(&self.parties, from_key);
        if j >= self.parties.len() {
            return None;
        }
        let samples = chunk.decode_i16();
        let out = if chunk.sample_rate() == 24000 {
            upsample_twice(&samples)
        } else {
            samples
        };
        Some((j + 1, out))
    }

    /// True when the full call state is due to be sent again (never sent, or at least a
    /// second ago); when it is, the time of sending is noted.
    pub fn take_state_resend(&mut self, now_ms: u64) -> (r: bool)
        ensures
            final(self).spec_call_started() == old(self).spec_call_started(),
            final(self).spec_call_ended() == old(self).spec_call_ended(),
            final(self).spec_ring_samples_written() == old(self).spec_ring_samples_written(),
            final(self).spec_audio_send_start() == old(self).spec_audio_send_start(),
            final(self).spec_audio_samples_sent() == old(self).spec_audio_samples_sent(),
            r == match old(self).spec_last_invite() {
                None => true,
                Some(t) => now_ms >= t && now_ms - t >= 1000,
            },
            final(self).spec_last_invite() == if r { Some(now_ms) } else { old(self).spec_last_invite() },
            final(self).spec_parties() == old(self).spec_parties(),
            final(self).spec_events() == old(self).spec_events(),
            final(self).spec_id() == old(self).spec_id(),
    {
        let due = match self.last_invite {
            None => true,
            Some(t) => now_ms >= t && now_ms - t >= 1000,
        };
        if due {
            self.last_invite = Some(now_ms);
        }
        due
    }

    /// True when the call's audio should play: it has more than one party.
    pub fn audio_should_play(&self) -> (r: bool)
        ensures
            r == (self.spec_parties().len() > 1),
    {
        self.parties.len() > 1
    }

    /// True when another 2048 samples of ring or dial tone are due at `now_ms`; when they
    /// are, they are counted as written.
    pub fn take_tone_chunk(&mut self, now_ms: u64) -> (r: bool)
        ensures
            final(self).spec_last_invite() == old(self).spec_last_invite(),
            final(self).spec_call_started() == old(self).spec_call_started(),
            final(self).spec_call_ended() == old(self).spec_call_ended(),
            final(self).spec_audio_send_start() == old(self).spec_audio_send_start(),
            final(self).spec_audio_samples_sent() == old(self).spec_audio_samples_sent(),
            r == (tone_samples_required(
                (if now_ms >= old(self).spec_call_started() { now_ms - old(self).spec_call_started() } else { 0 }) as nat,
            ) > old(self).spec_ring_samples_written() && old(self).spec_ring_samples_written() + 2048 <= usize::MAX),
            final(self).spec_ring_samples_written() == if r {
                old(self).spec_ring_samples_written() + 2048
            } else {
                old(self).spec_ring_samples_written() as int
            },
            final(self).spec_parties() == old(self).spec_parties(),
            final(self).spec_events() == old(self).spec_events(),
            final(self).spec_id() == old(self).spec_id(),
    {
        let elapsed: u64 = now_ms.saturating_sub(self.call_started);
        let required: u128 = (((elapsed as u128 + 80) * 48) / 960 + 1) * 960;
        if required > self.ring_samples_written as u128 && self.ring_samples_written <= usize::MAX - 2048 {
            self.ring_samples_written = self.ring_samples_written + 2048;
            true
        } else {
            false
        }
    }

    /// The key whose digits the dial tone plays: that of the first party that is ringing
    /// or invited, or the empty string.
    pub fn dialing_key(&self) -> (r: String)
        ensures
            r@ == if dialing_index(self.spec_parties()) >= 0 {
                self.spec_parties()[dialing_index(self.spec_parties())].0
            } else {
                Seq::<char>::empty()
            },
    {
        let ghost pv = parties_view(self.parties@);
        let mut i: usize = 0;
        while i < self.parties.len()
            invariant
                i <= self.parties@.len(),
                pv == parties_view(self.parties@),
                forall|k: int| 0 <= k < i ==> pv[k].2 != CallPartyStatus::Ringing && pv[k].2 != CallPartyStatus::Invited,
            decreases self.parties@.len() - i,
        {
            if self.parties[i].status == CallPartyStatus::Ringing || self.parties[i].status == CallPartyStatus::Invited {
                proof {
                    lemma_dialing_index(pv);
                    assert(is_dialing(pv[i as int]));
                    let d = dialing_index(pv);
                    if d >= 0 && d < i {
                        assert(is_dialing(pv[d]));
                    }
                }
                return self.parties[i].contact.public_key.clone();
            }
            i += 1;
        }
        proof {
            lemma_dialing_index(pv);
        }
        String::new()
    }

    /// The keys audio is sent to: every active party other than `my_key`, in order.
    pub fn audio_peer_keys(&self, my_key: &str) -> (r: Vec<String>)
        ensures
            r@.map_values(|k: String| k@) == active_peer_keys(self.spec_parties(), my_key@),
    {
        let ghost pv = parties_view(self.parties@);
        let mut keys: Vec<String> = Vec::new();
        let mut i: usize = 0;
        while i < self.parties.len()
            invariant
                i <= self.parties@.len(),
                pv == parties_view(self.parties@),
                keys@.map_values(|k: String| k@) == active_peer_keys(pv.subrange(0, i as int), my_key@),
            decreases self.parties@.len() - i,
        {
            proof {
                let sub = pv.subrange(0, i + 1);
                assert(sub.drop_last() =~= pv.subrange(0, i as int));
                assert(sub.last() == pv[i as int]);
            }
            let ghost before = keys@;
            if self.parties[i].status == CallPartyStatus::Active && !crate::text::str_eq(self.parties[i].contact.public_key.as_str(), my_key) {
                keys.push(self.parties[i].contact.public_key.clone());
                assert(keys@.map_values(|k: String| k@) =~= before.map_values(|k: String| k@).push(pv[i as int].0));
            }
            i += 1;
        }
        assert(pv.subrange(0, i as int) =~= pv);
        keys
    }

    /// How many more audio samples the call may send at `now_ms`; sending begins (and its
    /// time is noted) on the first call.
    pub fn audio_allowance(&mut self, now_ms: u64) -> (r: usize)
        ensures
            final(self).spec_last_invite() == old(self).spec_last_invite(),
            final(self).spec_call_started() == old(self).spec_call_started(),
            final(self).spec_call_ended() == old(self).spec_call_ended(),
            final(self).spec_ring_samples_written() == old(self).spec_ring_samples_written(),
            final(self).spec_audio_send_start() == Some(match old(self).spec_audio_send_start() {
                Some(t) => t,
                None => now_ms,
            }),
            ({
                let start = final(self).spec_audio_send_start().unwrap();
                let elapsed: nat = if now_ms >= start { (now_ms - start) as nat } else { 0 };
                r == if audio_budget(elapsed) > old(self).spec_audio_samples_sent() {
                    if audio_budget(elapsed) - old(self).spec_audio_samples_sent() <= usize::MAX {
                        (audio_budget(elapsed) - old(self).spec_audio_samples_sent()) as usize
                    } else {
                        usize::MAX
                    }
                } else {
                    0
                }
            }),
            final(self).spec_audio_samples_sent() == old(self).spec_audio_samples_sent(),
            final(self).spec_parties() == old(self).spec_parties(),
            final(self).spec_events() == old(self).spec_events(),
            final(self).spec_id() == old(self).spec_id(),
    {
        let start = match self.audio_send_start {
            Some(t) => t,
            None => now_ms,
        };
        self.audio_send_start = Some(start);
        let elapsed: u64 = now_ms.saturating_sub(start);
        let budget: u128 = elapsed as u128 * 48 + 8192;
        let sent: u128 = self.audio_samples_sent as u128;
        if budget > sent {
            let left: u128 = budget - sent;
            if left <= usize::MAX as u128 {
                left as usize
            } else {
                usize::MAX
            }
        } else {
            0
        }
    }

    /// Counts `n` more audio samples as sent.
    pub fn note_audio_sent(&mut self, n: usize)
        ensures
            final(self).spec_audio_samples_sent() == if old(self).spec_audio_samples_sent() + n <= usize::MAX {
                old(self).spec_audio_samples_sent() + n
            } else {
                usize::MAX as int
            },
            final(self).spec_parties() == old(self).spec_parties(),
            final(self).spec_events() == old(self).spec_events(),
            final(self).spec_id() == old(self).spec_id(),
            final(self).spec_audio_send_start() == old(self).spec_audio_send_start(),
    {
        self.audio_samples_sent = self.audio_samples_sent.saturating_add(n);
    }

    /// Forgets when audio sending began and how much was sent, as when the audio stream
    /// is recreated after an error.
    pub fn reset_audio(&mut self)
        ensures
            final(self).spec_last_invite() == old(self).spec_last_invite(),
            final(self).spec_call_started() == old(self).spec_call_started(),
            final(self).spec_call_ended() == old(self).spec_call_ended(),
            final(self).spec_ring_samples_written() == old(self).spec_ring_samples_written(),
            final(self).spec_audio_send_start().is_none(),
            final(self).spec_audio_samples_sent() == 0,
            final(self).spec_parties() == old(self).spec_parties(),
            final(self).spec_events() == old(self).spec_events(),
            final(self).spec_id() == old(self).spec_id(),
    {
        self.audio_send_start = None;
        self.audio_samples_sent = 0;
    }

    /// One chunk of captured audio, μ-law encoded at 48 kHz; the chunk carries the call's
    /// id and starts at offset 0.
    pub fn encode_chunk(&self, samples: &[i16]) -> (r: AudioChunk)
        ensures
            r->id@ == self.spec_id(),
            r->chunk_offset == 0,
            r->sample_rate == 48000,
            r->samples@ == encoded_samples(samples@),
    {
        AudioChunk::ULaw {
            id: self.id.clone(),
            chunk_offset: 0,
            sample_rate: 48000,
            samples: encode_samples(samples),
        }
    }

    /// The decisions of one step of the call at `now_ms`, as its party `own_key` sees it;
    /// `stream_failed` tells whether the audio stream reported an error. The full call
    /// state is due to be sent again at most once a second; a failed stream is to be made
    /// anew, and its send counters start over; the audio plays while the call has more than
    /// one party. Then, by the party's own status: while ringing, the ring tone (a chunk
    /// when one is due); while active with no other active party, the dial tone of the
    /// first ringing or invited party's key; while active with others, captured audio to
    /// each of them, within the allowance; otherwise nothing.
    pub fn step_plan(&mut self, own_key: &str, now_ms: u64, stream_failed: bool) -> (r: CallStepPlan)
        ensures
            r.send_state == resend_due(old(self).spec_last_invite(), now_ms),
            final(self).spec_last_invite() == if r.send_state { Some(now_ms) } else { old(self).spec_last_invite() },
            r.recreate_audio == stream_failed,
            r.play == (old(self).spec_parties().len() > 1),
            final(self).spec_parties() == old(self).spec_parties(),
            final(self).spec_events() == old(self).spec_events(),
            final(self).spec_id() == old(self).spec_id(),
            final(self).spec_call_started() == old(self).spec_call_started(),
            final(self).spec_call_ended() == old(self).spec_call_ended(),
            ({
                let pv = old(self).spec_parties();
                let written = old(self).spec_ring_samples_written();
                let started = old(self).spec_call_started();
                let sent: usize = if stream_failed { 0 } else { old(self).spec_audio_samples_sent() };
                let start: Option<u64> = if stream_failed { None } else { old(self).spec_audio_send_start() };
                let tone = tone_due(started, written, now_ms);
                let ring_after: int = if tone { written + 2048 } else { written as int };
                &&& final(self).spec_audio_samples_sent() == sent
                &&& match status_of(pv, own_key@) {
                    Some(CallPartyStatus::Ringing) => {
                        &&& r.audio == CallAudio::RingTone { chunk_due: tone }
                        &&& final(self).spec_ring_samples_written() == ring_after
                        &&& final(self).spec_audio_send_start() == start
                    },
                    Some(CallPartyStatus::Active) => if active_peer_keys(pv, own_key@).len() == 0 {
                        &&& r.audio matches CallAudio::DialTone { key, chunk_due }
                        &&& key@ == (if dialing_index(pv) >= 0 { pv[dialing_index(pv)].0 } else { Seq::<char>::empty() })
                        &&& chunk_due == tone
                        &&& final(self).spec_ring_samples_written() == ring_after
                        &&& final(self).spec_audio_send_start() == start
                    } else {
                        let t: u64 = match start { Some(t) => t, None => now_ms };
                        &&& r.audio matches CallAudio::SendAudio { peers, allowance }
                        &&& peers@.map_values(|k: String| k@) == active_peer_keys(pv, own_key@)
                        &&& allowance == allowance_at(t, sent, now_ms)
                        &&& final(self).spec_ring_samples_written() == written
                        &&& final(self).spec_audio_send_start() == Some(t)
                    },
                    _ => {
                        &&& r.audio == CallAudio::Nothing
                        &&& final(self).spec_ring_samples_written() == written
                        &&& final(self).spec_audio_send_start() == start
                    },
                }
            }),
    {
        let send_state = self.take_state_resend(now_ms);
        if stream_failed {
            self.reset_audio();
        }
        let play = self.audio_should_play();
        let audio = match self.get_status(own_key) {
            Some(CallPartyStatus::Ringing) => CallAudio::RingTone { chunk_due: self.take_tone_chunk(now_ms) },
            Some(CallPartyStatus::Active) => {
                let peers = self.audio_peer_keys(own_key);
                if peers.len() == 0 {
                    let key = self.dialing_key();
                    let chunk_due = self.take_tone_chunk(now_ms);
                    CallAudio::DialTone { key, chunk_due }
                } else {
                    let allowance = self.audio_allowance(now_ms);
                    CallAudio::SendAudio { peers, allowance }
                }
            },
            _ => CallAudio::Nothing,
        };
        CallStepPlan { send_state, recreate_audio: stream_failed, play, audio }
    }

    /// Whether a call is kept after a step, as its own party `own_key` sees it at
    /// `now_ms`. A call one is not in, or has hung up, is dropped. While another party
    /// has not hung up, it is kept and its end time cleared. When every other party hung
    /// up, it is dropped; otherwise (no other party yet) it is kept for five seconds from
    /// the time that was first seen.
    pub fn retain_at(&mut self, own_key: &str, now_ms: u64) -> (keep: bool)
        ensures
            *final(self) == old(self).retained(own_key@, now_ms),
            ({
                let pv = old(self).spec_parties();
                let status = status_of(pv, own_key@);
                let others = exists|i: int| 0 <= i < not_hung_up_keys(pv).len() && not_hung_up_keys(pv)[i] != own_key@;
                let ended = match old(self).spec_call_ended() { Some(t) => t, None => now_ms };
                &&& keep == match status {
                    None => false,
                    Some(CallPartyStatus::HungUp) => false,
                    Some(_) => others || (!others_all_hung_up(pv, own_key@) && (now_ms < ended || now_ms - ended < 5000)),
                }
                &&& final(self).spec_call_ended() == retained_end(pv, old(self).spec_call_ended(), own_key@, now_ms)
            }),
            final(self).spec_parties() == old(self).spec_parties(),
            final(self).spec_events() == old(self).spec_events(),
            final(self).spec_id() == old(self).spec_id(),
    {
        let status = self.get_status(own_key);
        match status {
            None => false,
            Some(CallPartyStatus::HungUp) => false,
            Some(_) => {
                let keys = self.non_hungup_party_keys();
                let ghost kv = keys@.map_values(|k: String| k@);
                let mut others = false;
                let mut i: usize = 0;
                while i < keys.len()
                    invariant
                        i <= keys@.len(),
                        kv == keys@.map_values(|k: String| k@),
                        others == exists|m: int| 0 <= m < i && kv[m] != own_key@,
                    decreases keys@.len() - i,
                {
                    assert(kv[i as int] == keys@[i as int]@);
                    if !crate::text::str_eq(keys[i].as_str(), own_key) {
                        others = true;
                    }
                    i += 1;
                }
                if others {
                    self.call_ended = None;
                    true
                } else if self.all_other_parties_hung_up(own_key) {
                    false
                } else {
                    let ended = match self.call_ended {
                        Some(t) => t,
                        None => now_ms,
                    };
                    self.call_ended = Some(ended);
                    now_ms < ended || now_ms - ended < 5000
                }
            },
        }
    }

    /// The call as [`Call::retain_at`] leaves it: only its end time changes.
    pub closed spec fn retained(self, own: Seq<char>, now: u64) -> Call {
        Call { call_ended: retained_end(self.spec_parties(), self.call_ended, own, now), ..self }
    }

    /// What a retained call holds: the same id, parties, events, start time and audio
    /// counters, and its new end time.
    pub proof fn lemma_retained(self, own: Seq<char>, now: u64)
        ensures
            self.retained(own, now).spec_id() == self.spec_id(),
            self.retained(own, now).spec_parties() == self.spec_parties(),
            self.retained(own, now).spec_events() == self.spec_events(),
            self.retained(own, now).spec_call_started() == self.spec_call_started(),
            self.retained(own, now).spec_ring_samples_written() == self.spec_ring_samples_written(),
            self.retained(own, now).spec_audio_samples_sent() == self.spec_audio_samples_sent(),
            self.retained(own, now).spec_audio_send_start() == self.spec_audio_send_start(),
            self.retained(own, now).spec_last_invite() == self.spec_last_invite(),
            self.retained(own, now).spec_call_ended() == retained_end(self.spec_parties(), self.spec_call_ended(), own, now),
    {
    }

    /// Adds an event and rebuilds the parties; a key with no party joins as a new contact.
    pub fn add_event(&mut self, event: CallPartyEvent)
        ensures
            final(self).spec_events() == sort_by_id(old(self).spec_events().push(event)),
            final(self).spec_parties() == rebuilt(old(self).spec_parties(), old(self).spec_events().push(event), Seq::empty()),
            final(self).spec_id() == old(self).spec_id(),
            final(self).spec_call_started() == old(self).spec_call_started(),
            final(self).spec_call_ended() == old(self).spec_call_ended(),
    {
        self.events.push(event);
        let known: Vec<Contact> = Vec::new();
        self.rebuild_parties(&known);
    }

    /// Adds an event for a contact: the contact joins first, with the event's status, when
    /// no party has its key; then the parties are rebuilt.
    pub fn add_event_with_contact(&mut self, event: CallPartyEvent, contact: Contact)
        ensures
            final(self).spec_events() == sort_by_id(old(self).spec_events().push(event)),
            final(self).spec_parties() == rebuilt(
                if party_index(old(self).spec_parties(), contact.public_key@) >= 0 {
                    old(self).spec_parties()
                } else {
                    old(self).spec_parties().push((contact.public_key@, contact.contact_type, event.status))
                },
                old(self).spec_events().push(event),
                Seq::empty(),
            ),
            final(self).spec_id() == old(self).spec_id(),
            final(self).spec_call_started() == old(self).spec_call_started(),
            final(self).spec_call_ended() == old(self).spec_call_ended(),
    {
        let j = find_party(&self.parties, contact.public_key.as_str());
        if j >= self.parties.len() {
            let ghost before = self.parties@;
            let status = event.status;
            self.parties.push(CallParty { status, contact });
            assert(parties_view(self.parties@) =~= parties_view(before).push((
                self.parties@.last().contact.public_key@,
                self.parties@.last().contact.contact_type,
                status,
            )));
        }
        self.events.push(event);
        let known: Vec<Contact> = Vec::new();
        self.rebuild_parties(&known);
    }

    /// Adds the incoming events whose ids the call does not have yet, then rebuilds the
    /// parties; keys with no party join with the contact `known` gives them.
    pub fn merge_events(&mut self, incoming: Vec<CallPartyEvent>, known: &Vec<Contact>)
        ensures
            final(self).spec_events() == sort_by_id(old(self).spec_events() + fresh_events(old(self).spec_events(), incoming@)),
            final(self).spec_parties() == rebuilt(
                old(self).spec_parties(),
                old(self).spec_events() + fresh_events(old(self).spec_events(), incoming@),
                known@,
            ),
            final(self).spec_id() == old(self).spec_id(),
            final(self).spec_call_started() == old(self).spec_call_started(),
            final(self).spec_call_ended() == old(self).spec_call_ended(),
            final(self).spec_ring_samples_written() == old(self).spec_ring_samples_written(),
            final(self).spec_audio_samples_sent() == old(self).spec_audio_samples_sent(),
            final(self).spec_last_invite() == old(self).spec_last_invite(),
    {
        let ghost existing = self.events@;
        let mut existing_ids: Vec<u128> = Vec::new();
        let mut i: usize = 0;
        while i < self.events.len()
            invariant
                i <= self.events@.len(),
                self.events@ == existing,
                existing_ids@.len() == i,
                forall|k: int| 0 <= k < i ==> #[trigger] existing_ids@[k] == existing[k].id,
            decreases self.events@.len() - i,
        {
            existing_ids.push(self.events[i].id);
            i += 1;
        }
        let ghost all = incoming@;
        let mut rest = incoming;
        let mut n: usize = 0;
        let total = rest.len();
        assert(fresh_events(existing, all.subrange(0, 0)) =~= Seq::<CallPartyEvent>::empty());
        assert(existing + Seq::<CallPartyEvent>::empty() =~= existing);
        while rest.len() > 0
            invariant
                n + rest@.len() == all.len(),
                total == all.len(),
                rest@ == all.subrange(n as int, all.len() as int),
                existing_ids@.len() == existing.len(),
                forall|k: int| 0 <= k < existing.len() ==> #[trigger] existing_ids@[k] == existing[k].id,
                self.events@ == existing + fresh_events(existing, all.subrange(0, n as int)),
                self.parties@ == old(self).parties@,
                self.id == old(self).id,
                self.call_started == old(self).spec_call_started(),
                self.call_ended == old(self).spec_call_ended(),
                self.ring_samples_written == old(self).ring_samples_written,
                self.audio_samples_sent == old(self).audio_samples_sent,
                self.audio_send_start == old(self).audio_send_start,
                self.last_invite == old(self).last_invite,
            decreases rest@.len(),
        {
            let e = rest.remove(0);
            let mut known_id = false;
            let mut k: usize = 0;
            while k < existing_ids.len()
                invariant
                    k <= existing_ids@.len(),
                    existing_ids@.len() == existing.len(),
                    forall|m: int| 0 <= m < existing.len() ==> #[trigger] existing_ids@[m] == existing[m].id,
                    known_id == exists|m: int| 0 <= m < k && existing[m].id == e.id,
                decreases existing_ids@.len() - k,
            {
                if existing_ids[k] == e.id {
                    known_id = true;
                }
                k += 1;
            }
            proof {
                assert(all.subrange(0, n + 1).drop_last() =~= all.subrange(0, n as int));
                assert(all.subrange(0, n + 1).last() == e);
                assert(known_id == has_event_id(existing, e.id));
            }
            if !known_id {
                let ghost before = self.events@;
                self.events.push(e);
                assert(self.events@ =~= existing + fresh_events(existing, all.subrange(0, n + 1)));
            } else {
                assert(self.events@ =~= existing + fresh_events(existing, all.subrange(0, n + 1)));
            }
            n += 1;
            assert(rest@ =~= all.subrange(n as int, all.len() as int));
        }
        assert(all.subrange(0, n as int) =~= all);
        self.rebuild_parties(known);
    }
}

/// The low and high tone, in Hz, that DTMF sends for a key: the digits, the fourth column
/// `A`-`D` (either case), and `*`/`#`, which `E` and `F` also stand for.
pub open spec fn dtmf_tones(digit: char) -> Option<(u16, u16)> {
    match digit {
        '1' => Some((697, 1209)),
        '2' => Some((697, 1336)),
        '3' => Some((697, 1477)),
        '4' => Some((770, 1209)),
        '5' => Some((770, 1336)),
        '6' => Some((770, 1477)),
        '7' => Some((852, 1209)),
        '8' => Some((852, 1336)),
        '9' => Some((852, 1477)),
        '0' => Some((941, 1336)),
        'A' | 'a' => Some((697, 1633)),
        'B' | 'b' => Some((770, 1633)),
        'C' | 'c' => Some((852, 1633)),
        'D' | 'd' => Some((941, 1633)),
        'E' | 'e' | '*' => Some((941, 1209)),
        'F' | 'f' | '#' => Some((941, 1477)),
        _ => None,
    }
}

/// The keys of the dial pad, row by row: each row has its own low tone and each column its
/// own high tone.
pub open spec fn dial_pad() -> Seq<Seq<char>> {
    seq![seq!['1', '2', '3', 'A'], seq!['4', '5', '6', 'B'], seq!['7', '8', '9', 'C'], seq!['*', '0', '#', 'D']]
}

/// The low tones of the dial pad's rows, top to bottom, in Hz.
pub open spec fn dtmf_row_tones() -> Seq<u16> {
    seq![697u16, 770u16, 852u16, 941u16]
}

/// The high tones of the dial pad's columns, left to right, in Hz.
pub open spec fn dtmf_column_tones() -> Seq<u16> {
    seq![1209u16, 1336u16, 1477u16, 1633u16]
}

/// Every key of the dial pad sounds the low tone of its row with the high tone of its
/// column; keys in one row share the low tone and keys in one column the high tone, so
/// two keys in different places sound different pairs. Lowercase letters sound as their
/// capitals, and `E` and `F` as `*` and `#`.
pub proof fn law_dtmf_dial_pad()
    ensures
        forall|r: int, c: int| 0 <= r < 4 && 0 <= c < 4
            ==> #[trigger] dtmf_tones(dial_pad()[r][c]) == Some((dtmf_row_tones()[r], dtmf_column_tones()[c])),
        forall|r1: int, c1: int, r2: int, c2: int|
            0 <= r1 < 4 && 0 <= c1 < 4 && 0 <= r2 < 4 && 0 <= c2 < 4 && (r1 != r2 || c1 != c2)
            ==> #[trigger] dtmf_tones(dial_pad()[r1][c1]) != #[trigger] dtmf_tones(dial_pad()[r2][c2]),
        dtmf_tones('a') == dtmf_tones('A') && dtmf_tones('b') == dtmf_tones('B'),
        dtmf_tones('c') == dtmf_tones('C') && dtmf_tones('d') == dtmf_tones('D'),
        dtmf_tones('E') == dtmf_tones('*') && dtmf_tones('e') == dtmf_tones('*'),
        dtmf_tones('F') == dtmf_tones('#') && dtmf_tones('f') == dtmf_tones('#'),
{
    assert forall|r: int, c: int| 0 <= r < 4 && 0 <= c < 4
        implies #[trigger] dtmf_tones(dial_pad()[r][c]) == Some((dtmf_row_tones()[r], dtmf_column_tones()[c])) by {
        if r == 0 {
            if c == 0 {} else if c == 1 {} else if c == 2 {} else {}
        } else if r == 1 {
            if c == 0 {} else if c == 1 {} else if c == 2 {} else {}
        } else if r == 2 {
            if c == 0 {} else if c == 1 {} else if c == 2 {} else {}
        } else {
            if c == 0 {} else if c == 1 {} else if c == 2 {} else {}
        }
    }
    assert forall|r1: int, c1: int, r2: int, c2: int|
        0 <= r1 < 4 && 0 <= c1 < 4 && 0 <= r2 < 4 && 0 <= c2 < 4 && (r1 != r2 || c1 != c2)
        implies #[trigger] dtmf_tones(dial_pad()[r1][c1]) != #[trigger] dtmf_tones(dial_pad()[r2][c2]) by {
        assert(dtmf_tones(dial_pad()[r1][c1]) == Some((dtmf_row_tones()[r1], dtmf_column_tones()[c1])));
        assert(dtmf_tones(dial_pad()[r2][c2]) == Some((dtmf_row_tones()[r2], dtmf_column_tones()[c2])));
    }
}

/// The DTMF tone pair of a key of the dial pad, in whole Hz; `None` for any other
/// character. A key sounds the low tone of its row and the high tone of its column.
pub fn dtmf_freqs(digit: char) -> (r: Option<(u16, u16)>)
    ensures
        r == dtmf_tones(digit),
        forall|row: int, col: int| 0 <= row < 4 && 0 <= col < 4 && digit == #[trigger] dial_pad()[row][col]
            ==> r == Some((dtmf_row_tones()[row], dtmf_column_tones()[col])),
{
    match digit {
        '1' => Some((697, 1209)),
        '2' => Some((697, 1336)),
        '3' => Some((697, 1477)),
        '4' => Some((770, 1209)),
        '5' => Some((770, 1336)),
        '6' => Some((770, 1477)),
        '7' => Some((852, 1209)),
        '8' => Some((852, 1336)),
        '9' => Some((852, 1477)),
        '0' => Some((941, 1336)),
        'A' | 'a' => Some((697, 1633)),
        'B' | 'b' => Some((770, 1633)),
        'C' | 'c' => Some((852, 1633)),
        'D' | 'd' => Some((941, 1633)),
        'E' | 'e' | '*' => Some((941, 1209)),
        'F' | 'f' | '#' => Some((941, 1477)),
        _ => None,
    }
}

} // verus!
