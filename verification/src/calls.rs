//! The calls a client is in, and what happens to them: starting one, accepting,
//! declining or inviting someone into one, hearing another party's state of one, and
//! dropping those that are over. Each operation gives the messages that tell the other
//! parties; sending them is the caller's part.
use vstd::prelude::*;
use crate::call::{
    Call, CallPartyEvent, CallPartyStatus, fresh_events, not_hung_up_keys, others_all_hung_up, party_index,
    rebuilt, sort_by_id, status_of,
};
use crate::client::{IncomingCallAction, accepts_audio, build_call_state_messages, incoming_call_action, is_call_state_message, keys_except, should_close_call};
use crate::audio_chunk::{AudioChunk, ulaw_decode};
use crate::call::sink_samples;
use crate::contact::{Contact, ContactType};
use crate::ids::is_v7;
use crate::net::HoshiMessage;

verus! {

/// The position of the first call from `start` on with this id, or -1.
pub open spec fn call_pos_from(calls: Seq<Call>, id: Seq<char>, start: int) -> int
    decreases calls.len() - start,
{
    if start < 0 || start >= calls.len() {
        -1
    } else if calls[start].spec_id() == id {
        start
    } else {
        call_pos_from(calls, id, start + 1)
    }
}

/// The position of the first call with this id, or -1 when there is none.
pub open spec fn call_pos(calls: Seq<Call>, id: Seq<char>) -> int {
    call_pos_from(calls, id, 0)
}

/// True when `msgs` tell the state of `call`, from `my_key`, to each party other than
/// `my_key` that has not hung up, in the order of the parties.
pub open spec fn tells_call_state(msgs: Seq<HoshiMessage>, my_key: Seq<char>, call: Call) -> bool {
    let to = keys_except(not_hung_up_keys(call.spec_parties()), my_key);
    &&& msgs.len() == to.len()
    &&& forall|i: int| 0 <= i < msgs.len() ==> is_call_state_message(#[trigger] msgs[i], my_key, to[i], call)
}

/// True when `after` holds these events and one more, `e`, by `key` with this status and
/// a fresh version-7 id, and its parties are these rebuilt with it.
pub open spec fn extended_by_event(
    events: Seq<CallPartyEvent>,
    parties: Seq<(Seq<char>, ContactType, CallPartyStatus)>,
    after: Call,
    key: Seq<char>,
    status: CallPartyStatus,
) -> bool {
    exists|e: CallPartyEvent|
        #![trigger events.push(e)]
        e.key@ == key && e.status == status && is_v7(e.id)
        && after.spec_events() == sort_by_id(events.push(e))
        && after.spec_parties() == rebuilt(parties, events.push(e), Seq::empty())
}

/// True when `after` is `before` with one more event by `key` with this status.
pub open spec fn added_own_event(before: Call, after: Call, key: Seq<char>, status: CallPartyStatus) -> bool {
    &&& extended_by_event(before.spec_events(), before.spec_parties(), after, key, status)
    &&& after.spec_id() == before.spec_id()
}

/// The parties of a call just started by `own` with these contacts: each contact invited,
/// in order, then `own`, active.
pub open spec fn new_call_parties(parties: Seq<Contact>, own: Seq<char>) -> Seq<(Seq<char>, ContactType, CallPartyStatus)> {
    Seq::new(
        parties.len() + 1,
        |i: int|
            if i < parties.len() {
                (parties[i].public_key@, parties[i].contact_type, CallPartyStatus::Invited)
            } else {
                (own, ContactType::Contact, CallPartyStatus::Active)
            },
    )
}

/// True when one's own side of a call with these parties hangs up because all the others
/// have: one is in the call and has not hung up, and every other party has.
pub open spec fn closes(parties: Seq<(Seq<char>, ContactType, CallPartyStatus)>, own: Seq<char>) -> bool {
    match status_of(parties, own) {
        None => false,
        Some(CallPartyStatus::HungUp) => false,
        Some(_) => others_all_hung_up(parties, own),
    }
}

/// Why an operation on a call failed.
#[derive(Debug)]
pub enum CallError {
    /// No call has this id.
    NotFound { call_id: String },
}

impl CallError {
    /// The message of the error.
    pub fn message(&self) -> (r: String)
        ensures
            r@ == match self {
                CallError::NotFound { call_id } => "Call "@ + call_id@ + " not found"@,
            },
    {
        match self {
            CallError::NotFound { call_id } => {
                let mut s = String::from_str("Call ");
                s.append(call_id.as_str());
                s.append(" not found");
                s
            },
        }
    }
}

/// The position of the first call with this id.
pub fn call_index(calls: &Vec<Call>, call_id: &str) -> (r: Option<usize>)
    ensures
        call_pos(calls@, call_id@) < 0 ==> r is None,
        call_pos(calls@, call_id@) >= 0 ==> r is Some,
        r matches Some(i) ==> i == call_pos(calls@, call_id@),
        call_pos(calls@, call_id@) < calls@.len(),
{
    proof {
        lemma_call_pos_bounds(calls@, call_id@, 0);
    }
    let mut i: usize = 0;
    while i < calls.len()
        invariant
            i <= calls@.len(),
            call_pos(calls@, call_id@) == call_pos_from(calls@, call_id@, i as int),
            -1 <= call_pos_from(calls@, call_id@, i as int) < calls@.len(),
        decreases calls@.len() - i,
    {
        if crate::text::str_eq(calls[i].id(), call_id) {
            return Some(i);
        }
        proof {
            lemma_call_pos_bounds(calls@, call_id@, i + 1);
        }
        i += 1;
    }
    None
}

proof fn lemma_call_pos_bounds(calls: Seq<Call>, id: Seq<char>, start: int)
    ensures
        -1 <= call_pos_from(calls, id, start) < calls.len(),
        call_pos_from(calls, id, start) >= 0 ==> call_pos_from(calls, id, start) >= start,
    decreases calls.len() - start,
{
    if start >= 0 && start < calls.len() && calls[start].spec_id() != id {
        lemma_call_pos_bounds(calls, id, start + 1);
    }
}

/// Taking the call at `i` out of a list and putting `c` in its place replaces it.
proof fn lemma_put_back(calls: Seq<Call>, i: int, c: Call)
    requires
        0 <= i < calls.len(),
    ensures
        calls.remove(i).insert(i, c) == calls.update(i, c),
{
    assert(calls.remove(i).insert(i, c) =~= calls.update(i, c));
}

/// Starts a call from `own_key` to these contacts: the call is kept last in the list, and
/// the messages invite the others.
pub fn call_start(calls: &mut Vec<Call>, own_key: String, parties: Vec<Contact>) -> (r: Vec<HoshiMessage>)
    ensures
        final(calls)@.len() == old(calls)@.len() + 1,
        final(calls)@.drop_last() == old(calls)@,
        final(calls)@.last().spec_parties() == new_call_parties(parties@, own_key@),
        final(calls)@.last().spec_events().len() == parties@.len() + 1,
        tells_call_state(r@, own_key@, final(calls)@.last()),
{
    let ghost ps = parties@;
    let ghost own = own_key@;
    let call = Call::new(own_key.clone(), parties);
    assert(call.spec_parties() =~= new_call_parties(ps, own));
    let msgs = build_call_state_messages(own_key.as_str(), &call);
    calls.push(call);
    assert(calls@.drop_last() =~= old(calls)@);
    msgs
}

/// Sets one's own status in the call `call_id` and gives the messages that tell the
/// others; the call must be there.
fn set_own_status(calls: &mut Vec<Call>, own_key: &str, call_id: &str, status: CallPartyStatus) -> (r: Result<Vec<HoshiMessage>, CallError>)
    ensures
        ({
            let p = call_pos(old(calls)@, call_id@);
            &&& p < 0 ==> final(calls)@ == old(calls)@ && (r matches Err(CallError::NotFound { call_id: c }) && c@ == call_id@)
            &&& p >= 0 ==> (r matches Ok(msgs)
                && final(calls)@.len() == old(calls)@.len()
                && (forall|k: int| 0 <= k < old(calls)@.len() && k != p ==> final(calls)@[k] == old(calls)@[k])
                && added_own_event(old(calls)@[p], final(calls)@[p], own_key@, status)
                && tells_call_state(msgs@, own_key@, final(calls)@[p]))
        }),
{
    match call_index(calls, call_id) {
        None => Err(CallError::NotFound { call_id: call_id.to_string() }),
        Some(i) => {
            let ghost before = calls@;
            let mut call = calls.remove(i);
            let event = CallPartyEvent::new(own_key.to_string(), status);
            call.add_event(event);
            let msgs = build_call_state_messages(own_key, &call);
            let ghost c1 = call;
            calls.insert(i, call);
            proof {
                lemma_put_back(before, i as int, c1);
            }
            Ok(msgs)
        },
    }
}

/// Accepts the call `call_id`: one's own side becomes active, and the others are told.
pub fn call_accept(calls: &mut Vec<Call>, own_key: &str, call_id: &str) -> (r: Result<Vec<HoshiMessage>, CallError>)
    ensures
        ({
            let p = call_pos(old(calls)@, call_id@);
            &&& p < 0 ==> final(calls)@ == old(calls)@ && (r matches Err(CallError::NotFound { call_id: c }) && c@ == call_id@)
            &&& p >= 0 ==> (r matches Ok(msgs)
                && final(calls)@.len() == old(calls)@.len()
                && (forall|k: int| 0 <= k < old(calls)@.len() && k != p ==> final(calls)@[k] == old(calls)@[k])
                && added_own_event(old(calls)@[p], final(calls)@[p], own_key@, CallPartyStatus::Active)
                && tells_call_state(msgs@, own_key@, final(calls)@[p]))
        }),
{
    set_own_status(calls, own_key, call_id, CallPartyStatus::Active)
}

/// Declines, or leaves, the call `call_id`: one's own side hangs up, and the others are
/// told.
pub fn call_decline(calls: &mut Vec<Call>, own_key: &str, call_id: &str) -> (r: Result<Vec<HoshiMessage>, CallError>)
    ensures
        ({
            let p = call_pos(old(calls)@, call_id@);
            &&& p < 0 ==> final(calls)@ == old(calls)@ && (r matches Err(CallError::NotFound { call_id: c }) && c@ == call_id@)
            &&& p >= 0 ==> (r matches Ok(msgs)
                && final(calls)@.len() == old(calls)@.len()
                && (forall|k: int| 0 <= k < old(calls)@.len() && k != p ==> final(calls)@[k] == old(calls)@[k])
                && added_own_event(old(calls)@[p], final(calls)@[p], own_key@, CallPartyStatus::HungUp)
                && tells_call_state(msgs@, own_key@, final(calls)@[p]))
        }),
{
    set_own_status(calls, own_key, call_id, CallPartyStatus::HungUp)
}

/// Invites a contact into the call `call_id`, and tells every party, the new one too.
pub fn call_invite_party(calls: &mut Vec<Call>, own_key: &str, call_id: &str, contact: Contact) -> (r: Result<Vec<HoshiMessage>, CallError>)
    ensures
        ({
            let p = call_pos(old(calls)@, call_id@);
            &&& p < 0 ==> final(calls)@ == old(calls)@ && (r matches Err(CallError::NotFound { call_id: c }) && c@ == call_id@)
            &&& p >= 0 ==> (r matches Ok(msgs)
                && final(calls)@.len() == old(calls)@.len()
                && (forall|k: int| 0 <= k < old(calls)@.len() && k != p ==> final(calls)@[k] == old(calls)@[k])
                && (exists|e: CallPartyEvent|
                    #![trigger old(calls)@[p].spec_events().push(e)]
                    e.key@ == contact.public_key@ && e.status == CallPartyStatus::Invited && is_v7(e.id)
                    && final(calls)@[p].spec_events() == sort_by_id(old(calls)@[p].spec_events().push(e))
                    && final(calls)@[p].spec_parties() == rebuilt(
                        if party_index(old(calls)@[p].spec_parties(), contact.public_key@) >= 0 {
                            old(calls)@[p].spec_parties()
                        } else {
                            old(calls)@[p].spec_parties().push((contact.public_key@, contact.contact_type, CallPartyStatus::Invited))
                        },
                        old(calls)@[p].spec_events().push(e),
                        Seq::empty(),
                    )
                    && final(calls)@[p].spec_id() == old(calls)@[p].spec_id())
                && tells_call_state(msgs@, own_key@, final(calls)@[p]))
        }),
{
    match call_index(calls, call_id) {
        None => Err(CallError::NotFound { call_id: call_id.to_string() }),
        Some(i) => {
            let ghost before = calls@;
            let mut call = calls.remove(i);
            let event = CallPartyEvent::new(contact.public_key.clone(), CallPartyStatus::Invited);
            call.add_event_with_contact(event, contact);
            let msgs = build_call_state_messages(own_key, &call);
            let ghost c1 = call;
            calls.insert(i, call);
            proof {
                lemma_put_back(before, i as int, c1);
            }
            Ok(msgs)
        },
    }
}

/// The events a call holds once `incoming` is merged into `existing`, before sorting.
pub open spec fn merged_events(existing: Seq<CallPartyEvent>, incoming: Seq<CallPartyEvent>) -> Seq<CallPartyEvent> {
    existing + fresh_events(existing, incoming)
}

/// Takes in another party's state of the call `call_id`: its events. A call one has is
/// brought up to date, and when every other party has now hung up, one's own side hangs
/// up too and the others are told. A call one has not heard of is kept when one is in
/// it: invited, one starts ringing and tells the others; ringing or active, one keeps it
/// as it is; otherwise it is dropped. `known` holds the contacts a new party is known by.
pub fn receive_call_state(
    calls: &mut Vec<Call>,
    own_key: &str,
    call_id: String,
    events: Vec<CallPartyEvent>,
    known: &Vec<Contact>,
) -> (r: Vec<HoshiMessage>)
    ensures
        ({
            let p = call_pos(old(calls)@, call_id@);
            &&& p >= 0 ==> ({
                let added = merged_events(old(calls)@[p].spec_events(), events@);
                let mev = sort_by_id(added);
                let mpv = rebuilt(old(calls)@[p].spec_parties(), added, known@);
                &&& final(calls)@.len() == old(calls)@.len()
                &&& forall|k: int| 0 <= k < old(calls)@.len() && k != p ==> final(calls)@[k] == old(calls)@[k]
                &&& final(calls)@[p].spec_id() == old(calls)@[p].spec_id()
                &&& if closes(mpv, own_key@) {
                    extended_by_event(mev, mpv, final(calls)@[p], own_key@, CallPartyStatus::HungUp)
                        && tells_call_state(r@, own_key@, final(calls)@[p])
                } else {
                    final(calls)@[p].spec_events() == mev && final(calls)@[p].spec_parties() == mpv && r@.len() == 0
                }
            })
            &&& p < 0 ==> ({
                let fresh = fresh_events(Seq::empty(), events@);
                let cev = sort_by_id(fresh);
                let cpv = rebuilt(Seq::empty(), fresh, known@);
                match status_of(cpv, own_key@) {
                    Some(CallPartyStatus::Invited) => final(calls)@.len() == old(calls)@.len() + 1
                        && final(calls)@.drop_last() == old(calls)@
                        && final(calls)@.last().spec_id() == call_id@
                        && extended_by_event(cev, cpv, final(calls)@.last(), own_key@, CallPartyStatus::Ringing)
                        && tells_call_state(r@, own_key@, final(calls)@.last()),
                    Some(CallPartyStatus::Ringing) | Some(CallPartyStatus::Active) => final(calls)@.len() == old(calls)@.len() + 1
                        && final(calls)@.drop_last() == old(calls)@
                        && final(calls)@.last().spec_id() == call_id@
                        && final(calls)@.last().spec_events() == cev
                        && final(calls)@.last().spec_parties() == cpv
                        && r@.len() == 0,
                    _ => final(calls)@ == old(calls)@ && r@.len() == 0,
                }
            })
        }),
{
    match call_index(calls, call_id.as_str()) {
        Some(i) => {
            let ghost before = calls@;
            let mut call = calls.remove(i);
            call.merge_events(events, known);
            let mut msgs: Vec<HoshiMessage> = Vec::new();
            if should_close_call(&call, own_key) {
                let event = CallPartyEvent::new(own_key.to_string(), CallPartyStatus::HungUp);
                    call.add_event(event);
                msgs = build_call_state_messages(own_key, &call);
            }
            let ghost c1 = call;
            calls.insert(i, call);
            proof {
                lemma_put_back(before, i as int, c1);
            }
            msgs
        },
        None => {
            let mut call = Call::from_events(call_id, events, known);
            match incoming_call_action(&call, own_key) {
                IncomingCallAction::Ring => {
                    let event = CallPartyEvent::new(own_key.to_string(), CallPartyStatus::Ringing);
                            call.add_event(event);
                    let msgs = build_call_state_messages(own_key, &call);
                    calls.push(call);
                    assert(calls@.drop_last() =~= old(calls)@);
                    msgs
                },
                IncomingCallAction::Join => {
                    calls.push(call);
                    assert(calls@.drop_last() =~= old(calls)@);
                    Vec::new()
                },
                IncomingCallAction::Ignore => Vec::new(),
            }
        },
    }
}

/// True when a call is kept at `now` (milliseconds): one is in it and has not hung up,
/// and some other party has not hung up either; or, when no other party is left but
/// not all of them hung up, for five seconds from when that was first seen.
pub open spec fn keeps(c: Call, own: Seq<char>, now: u64) -> bool {
    let pv = c.spec_parties();
    let others = exists|i: int| 0 <= i < not_hung_up_keys(pv).len() && not_hung_up_keys(pv)[i] != own;
    let ended = match c.spec_call_ended() {
        Some(t) => t,
        None => now,
    };
    match status_of(pv, own) {
        None => false,
        Some(CallPartyStatus::HungUp) => false,
        Some(_) => others || (!others_all_hung_up(pv, own) && (now < ended || now - ended < 5000)),
    }
}

/// A call as its id, parties and events.
pub open spec fn call_view(c: Call) -> (Seq<char>, Seq<(Seq<char>, ContactType, CallPartyStatus)>, Seq<CallPartyEvent>) {
    (c.spec_id(), c.spec_parties(), c.spec_events())
}

/// The calls that are kept at `now`, in order.
pub open spec fn kept_calls(calls: Seq<Call>, own: Seq<char>, now: u64) -> Seq<(Seq<char>, Seq<(Seq<char>, ContactType, CallPartyStatus)>, Seq<CallPartyEvent>)>
    decreases calls.len(),
{
    if calls.len() == 0 {
        Seq::empty()
    } else if keeps(calls.last(), own, now) {
        kept_calls(calls.drop_last(), own, now).push(call_view(calls.last()))
    } else {
        kept_calls(calls.drop_last(), own, now)
    }
}

/// The calls that are kept at `now`, in order, each as [`Call::retain_at`] leaves it.
pub open spec fn retained_calls(calls: Seq<Call>, own: Seq<char>, now: u64) -> Seq<Call>
    decreases calls.len(),
{
    if calls.len() == 0 {
        Seq::empty()
    } else if keeps(calls.last(), own, now) {
        retained_calls(calls.drop_last(), own, now).push(calls.last().retained(own, now))
    } else {
        retained_calls(calls.drop_last(), own, now)
    }
}

/// Drops the calls that are over at `now` (milliseconds), keeping the others in order;
/// true when some call was dropped. Each kept call has its end time updated (see
/// [`retained_end`]) and is otherwise unchanged.
pub fn retain_calls(calls: &mut Vec<Call>, own_key: &str, now_ms: u64) -> (changed: bool)
    ensures
        final(calls)@ == retained_calls(old(calls)@, own_key@, now_ms),
        final(calls)@.map_values(|c: Call| call_view(c)) == kept_calls(old(calls)@, own_key@, now_ms),
        changed == (final(calls)@.len() != old(calls)@.len()),
{
    let ghost orig = calls@;
    let n = calls.len();
    let mut pending: Vec<Call> = Vec::new();
    std::mem::swap(calls, &mut pending);
    let mut i: usize = 0;
    assert(orig.subrange(0, 0) =~= Seq::<Call>::empty());
    assert(pending@.subrange(0, n as int) =~= pending@);
    while pending.len() > 0
        invariant
            n == orig.len(),
            i + pending@.len() == n,
            pending@ == orig.subrange(i as int, n as int),
            calls@ == retained_calls(orig.subrange(0, i as int), own_key@, now_ms),
            calls@.map_values(|c: Call| call_view(c)) == kept_calls(orig.subrange(0, i as int), own_key@, now_ms),
            calls@.len() <= i,
        decreases pending@.len(),
    {
        let mut call = pending.remove(0);
        assert(call == orig[i as int]);
        let ghost c0 = call;
        let keep = call.retain_at(own_key, now_ms);
        assert(orig.subrange(0, i + 1).drop_last() =~= orig.subrange(0, i as int));
        assert(orig.subrange(0, i + 1).last() == c0);
        let ghost before = calls@;
        proof {
            c0.lemma_retained(own_key@, now_ms);
        }
        if keep {
            calls.push(call);
            assert(calls@.map_values(|c: Call| call_view(c)) =~= before.map_values(|c: Call| call_view(c)).push(call_view(c0)));
        }
        i += 1;
        assert(pending@ =~= orig.subrange(i as int, n as int));
    }
    assert(orig.subrange(0, n as int) =~= orig);
    proof {
        lemma_kept_len(orig, own_key@, now_ms);
    }
    calls.len() != n
}

proof fn lemma_kept_len(calls: Seq<Call>, own: Seq<char>, now: u64)
    ensures
        kept_calls(calls, own, now).len() <= calls.len(),
    decreases calls.len(),
{
    if calls.len() > 0 {
        lemma_kept_len(calls.drop_last(), own, now);
    }
}

/// Audio from `from_key` for the call `call_id`. It is played only when one is active in
/// the first call with that id and the sender is a party to it: then it goes to the sink
/// channel after the sender's party position, decoded from μ-law and brought to 48 kHz.
pub fn receive_call_audio(calls: &Vec<Call>, own_key: &str, from_key: &str, call_id: &str, chunk: &AudioChunk) -> (r: Option<(usize, Vec<i16>)>)
    requires
        2 * chunk->samples@.len() <= usize::MAX,
    ensures
        ({
            let p = call_pos(calls@, call_id@);
            let pv = calls@[p].spec_parties();
            if p >= 0 && status_of(pv, own_key@) == Some(CallPartyStatus::Active) && party_index(pv, from_key@) >= 0 {
                r matches Some((channel, samples))
                    && channel == party_index(pv, from_key@) + 1
                    && samples@ == sink_samples(chunk->samples@.map_values(|b: u8| ulaw_decode(b)), chunk->sample_rate)
            } else {
                r is None
            }
        }),
{
    match call_index(calls, call_id) {
        None => None,
        Some(i) => {
            if accepts_audio(&calls[i], own_key) {
                calls[i].receive_audio(chunk, from_key)
            } else {
                None
            }
        },
    }
}

} // verus!
