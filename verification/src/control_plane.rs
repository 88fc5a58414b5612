//! The control plane's side: registered clients, the relays it lists, and the check of
//! the Noise handshakes clients prove their keys with.
use vstd::prelude::*;
use crate::noise::{KeyError, base64_decode, base64_encode, decode_base64, decode_base64_32, encode_base64, noise_x_read, x25519_public, x_sealed_for};
use crate::wire::{ClientEntry, RelayEntry};

verus! {

/// What kind of client registered.
#[derive(Debug, Clone, Copy, PartialEq, Eq, Structural)]
pub enum ClientType {
    Device,
    User,
    Relay,
}

/// A registered client: its public key and when it was first and last seen, in Unix
/// seconds.
#[derive(Debug, Clone)]
pub struct Client {
    pub public_key: String,
    pub created_at: i64,
    pub last_seen: i64,
}

/// An error the control plane answers with.
#[derive(Debug, Clone)]
pub struct ErrorResponse {
    pub error: String,
}

/// A client's request to register.
#[derive(Debug, Clone)]
pub struct RegisterClientRequest {
    pub public_key: String,
    pub owner_id: Option<String>,
    pub client_type: ClientType,
}

/// A client and the clients it owns.
#[derive(Debug, Clone)]
pub struct LookupClientResponse {
    pub client: Client,
    pub children: Vec<Client>,
}

/// A relay's request to register.
#[derive(Debug, Clone)]
pub struct RegisterRelayRequest {
    pub public_key: String,
    pub guid: Option<String>,
}

/// A relay the control plane knows of, and when it last checked in.
#[derive(Debug, Clone)]
pub struct RelayPresence {
    pub entry: RelayEntry,
    pub last_seen: i64,
}

/// Seconds since the Unix epoch by `SystemTime::now`, or 0 when the clock is before the
/// epoch. The value depends on the clock, so nothing is stated of it.
#[verifier::external_body]
fn unix_seconds() -> (r: u64) {
    match std::time::SystemTime::now().duration_since(std::time::UNIX_EPOCH) {
        Ok(d) => d.as_secs(),
        Err(_) => 0,
    }
}

/// Seconds as an `i64`, `i64::MAX` when they do not fit.
pub open spec fn seconds_as_i64(secs: u64) -> i64 {
    if secs <= i64::MAX as u64 {
        secs as i64
    } else {
        i64::MAX
    }
}

/// A clock reading in Unix seconds as an `i64`, saturating at `i64::MAX`.
pub fn seconds_to_i64(secs: u64) -> (r: i64)
    ensures
        r == seconds_as_i64(secs),
{
    if secs <= i64::MAX as u64 {
        secs as i64
    } else {
        i64::MAX
    }
}

/// The time now in Unix seconds, saturating at `i64::MAX`.
pub fn now() -> (r: i64)
    ensures
        exists|secs: u64| r == #[trigger] seconds_as_i64(secs),
        r >= 0,
{
    let secs = unix_seconds();
    seconds_to_i64(secs)
}

impl Client {
    /// A client with this key, created at `created_at` and last seen at `last_seen`
    /// (Unix seconds).
    pub fn with_times(public_key: &str, created_at: i64, last_seen: i64) -> (r: Self)
        ensures
            r.public_key@ == public_key@,
            r.created_at == created_at,
            r.last_seen == last_seen,
    {
        Client { public_key: public_key.to_string(), created_at, last_seen }
    }

    /// A new client with this key, first and last seen now: created at the first of two
    /// clock readings, last seen at the second.
    pub fn create_client(public_key: &str) -> (r: Self)
        ensures
            r.public_key@ == public_key@,
            exists|first: u64, second: u64| #[trigger] seconds_as_i64(first) == r.created_at && #[trigger] seconds_as_i64(second) == r.last_seen,
            r.created_at >= 0,
            r.last_seen >= 0,
    {
        let first = unix_seconds();
        let second = unix_seconds();
        let r = Client::with_times(public_key, seconds_to_i64(first), seconds_to_i64(second));
        assert(seconds_as_i64(first) == r.created_at && seconds_as_i64(second) == r.last_seen);
        r
    }
}

impl<'a> From<&'a Client> for ClientEntry {
    /// The listing of a client: its public key.
    fn from(value: &'a Client) -> (r: Self)
        ensures
            r.public_key == value.public_key,
    {
        ClientEntry { public_key: value.public_key.clone() }
    }
}

impl<'a> vstd::std_specs::convert::FromSpecImpl<&'a Client> for ClientEntry {
    open spec fn obeys_from_spec() -> bool {
        true
    }

    open spec fn from_spec(v: &'a Client) -> Self {
        ClientEntry { public_key: v.public_key }
    }
}

/// The canonical base64 form of a 32-byte key field, with the key's bytes.
pub fn canonicalize_base64_32(value: &str, field: &str) -> (r: Result<(String, [u8; 32]), KeyError>)
    ensures
        match base64_decode(value@) {
            None => r matches Err(KeyError::InvalidBase64 { field: f }) && f@ == field@,
            Some(v) => if v.len() == 32 {
                r matches Ok((s, k)) && k@ == v && s@ == base64_encode(v)
            } else {
                r matches Err(KeyError::InvalidLength { field: f }) && f@ == field@
            },
        },
        r matches Ok((s, k)) ==> s@ == value@,
{
    let key = decode_base64_32(value, field)?;
    Ok((encode_base64(&key), key))
}

/// How long a relay stays listed after it last checked in, in seconds.
pub open spec fn relay_ttl_seconds() -> int {
    90
}

/// `a - b`, saturating at the bounds of `i64`.
pub open spec fn saturating_sub_i64(a: i64, b: i64) -> i64 {
    if a - b > i64::MAX {
        i64::MAX
    } else if a - b < i64::MIN {
        i64::MIN
    } else {
        (a - b) as i64
    }
}

/// `a - b`, saturating at the bounds of `i64` (`i64::saturating_sub`).
fn sub_saturating(a: i64, b: i64) -> (r: i64)
    ensures
        r == saturating_sub_i64(a, b),
{
    let d: i128 = a as i128 - b as i128;
    if d > i64::MAX as i128 {
        i64::MAX
    } else if d < i64::MIN as i128 {
        i64::MIN
    } else {
        d as i64
    }
}

/// True when a relay that last checked in at `last_seen` is still listed at `now_ts`.
pub open spec fn relay_is_live(last_seen: i64, now_ts: i64) -> bool {
    saturating_sub_i64(now_ts, last_seen) <= relay_ttl_seconds()
}

/// True when `a`'s key comes before or with `b`'s, comparing the keys' UTF-8 bytes.
pub open spec fn key_not_after(a: RelayEntry, b: RelayEntry) -> bool {
    !crate::text::bytes_less(vstd::utf8::encode_utf8(b.public_key@), vstd::utf8::encode_utf8(a.public_key@))
}

/// Inserting into a list sorted by key: `e` goes after every entry whose key is not
/// greater than its own.
pub open spec fn insert_by_key(s: Seq<RelayEntry>, e: RelayEntry) -> Seq<RelayEntry>
    decreases s.len(),
{
    if s.len() == 0 {
        seq![e]
    } else if key_not_after(s.last(), e) {
        s.push(e)
    } else {
        insert_by_key(s.drop_last(), e).push(s.last())
    }
}

/// The entries sorted by key; entries with equal keys keep their order.
pub open spec fn sort_by_key(s: Seq<RelayEntry>) -> Seq<RelayEntry>
    decreases s.len(),
{
    if s.len() == 0 {
        s
    } else {
        insert_by_key(sort_by_key(s.drop_last()), s.last())
    }
}

/// The live relays' entries, in the order the presences come.
pub open spec fn live_entries(presences: Seq<(String, RelayPresence)>, now_ts: i64) -> Seq<RelayEntry>
    decreases presences.len(),
{
    if presences.len() == 0 {
        Seq::empty()
    } else if relay_is_live(presences.last().1.last_seen, now_ts) {
        live_entries(presences.drop_last(), now_ts).push(presences.last().1.entry)
    } else {
        live_entries(presences.drop_last(), now_ts)
    }
}

/// The keys of the relays that are no longer live, in order.
pub open spec fn stale_keys(presences: Seq<(String, RelayPresence)>, now_ts: i64) -> Seq<Seq<char>>
    decreases presences.len(),
{
    if presences.len() == 0 {
        Seq::empty()
    } else if relay_is_live(presences.last().1.last_seen, now_ts) {
        stale_keys(presences.drop_last(), now_ts)
    } else {
        stale_keys(presences.drop_last(), now_ts).push(presences.last().0@)
    }
}

/// Where `e` goes: after the last entry whose key is not greater.
proof fn lemma_insert_by_key_at(s: Seq<RelayEntry>, e: RelayEntry, p: int)
    requires
        0 <= p <= s.len(),
        forall|k: int| p <= k < s.len() ==> !key_not_after(#[trigger] s[k], e),
        p == 0 || key_not_after(s[p - 1], e),
    ensures
        insert_by_key(s, e) == s.insert(p, e),
    decreases s.len(),
{
    if s.len() == 0 {
        assert(s.insert(p, e) =~= seq![e]);
    } else if p == s.len() {
        assert(s.insert(p, e) =~= s.push(e));
    } else {
        assert(!key_not_after(s[s.len() - 1], e));
        lemma_insert_by_key_at(s.drop_last(), e, p);
        assert(s.drop_last().insert(p, e).push(s.last()) =~= s.insert(p, e));
    }
}

/// Compares the keys of two entries: true when `a`'s is not after `b`'s.
fn key_le(a: &RelayEntry, b: &RelayEntry) -> (r: bool)
    ensures
        r == key_not_after(*a, *b),
{
    let c = crate::text::compare_bytes_sign(b.public_key.as_str().as_bytes(), a.public_key.as_str().as_bytes());
    c != -1
}

/// Inserts `e` into entries the way `insert_by_key` says.
fn insert_entry(out: &mut Vec<RelayEntry>, e: RelayEntry)
    ensures
        final(out)@ == insert_by_key(old(out)@, e),
{
    let mut p = out.len();
    while p > 0 && !key_le(&out[p - 1], &e)
        invariant
            p <= out@.len(),
            forall|k: int| p <= k < out@.len() ==> !key_not_after(#[trigger] out@[k], e),
        decreases p,
    {
        p -= 1;
    }
    proof {
        lemma_insert_by_key_at(out@, e, p as int);
    }
    out.insert(p, e);
}

/// The relays to list at `now_ts`, sorted by key, and the keys of the relays to forget
/// because they have not checked in for more than 90 seconds.
pub fn list_relays(presences: &Vec<(String, RelayPresence)>, now_ts: i64) -> (r: (Vec<RelayEntry>, Vec<String>))
    ensures
        r.0@ == sort_by_key(live_entries(presences@, now_ts)),
        r.1@.map_values(|k: String| k@) == stale_keys(presences@, now_ts),
{
    let mut live: Vec<RelayEntry> = Vec::new();
    let mut stale: Vec<String> = Vec::new();
    let mut i: usize = 0;
    while i < presences.len()
        invariant
            i <= presences@.len(),
            live@ == sort_by_key(live_entries(presences@.subrange(0, i as int), now_ts)),
            stale@.map_values(|k: String| k@) == stale_keys(presences@.subrange(0, i as int), now_ts),
        decreases presences@.len() - i,
    {
        let ghost sub = presences@.subrange(0, i + 1);
        assert(sub.drop_last() =~= presences@.subrange(0, i as int));
        assert(sub.last() == presences@[i as int]);
        let age = sub_saturating(now_ts, presences[i].1.last_seen);
        if age > 90 {
            let ghost before = stale@;
            stale.push(presences[i].0.clone());
            assert(stale@.map_values(|k: String| k@) =~= before.map_values(|k: String| k@).push(presences@[i as int].0@));
        } else {
            let e = presences[i].1.entry.duplicate();
            proof {
                let le = live_entries(sub, now_ts);
                assert(le == live_entries(presences@.subrange(0, i as int), now_ts).push(e));
                assert(le.drop_last() =~= live_entries(presences@.subrange(0, i as int), now_ts));
                assert(le.last() == e);
            }
            insert_entry(&mut live, e);
        }
        i += 1;
    }
    assert(presences@.subrange(0, i as int) =~= presences@);
    (live, stale)
}

/// A concurrent map (`dashmap::DashMap`).
#[verifier::external_type_specification]
#[verifier::external_body]
#[verifier::reject_recursive_types(K)]
#[verifier::reject_recursive_types(V)]
#[verifier::reject_recursive_types(S)]
pub struct ExDashMap<K, V, S>(dashmap::DashMap<K, V, S>);

/// The control plane's registry of relays, keyed by guid.
pub type RelayRegistry = dashmap::DashMap<String, RelayPresence>;

/// The relays a registry holds, by guid.
pub uninterp spec fn registry_relays(m: RelayRegistry) -> Map<Seq<char>, RelayPresence>;

/// True when `snap` lists the relays of `m`, each once, in some order.
pub open spec fn lists_registry(snap: Seq<(String, RelayPresence)>, m: Map<Seq<char>, RelayPresence>) -> bool {
    &&& forall|i: int| 0 <= i < snap.len() ==> m.dom().contains(#[trigger] snap[i].0@) && m[snap[i].0@] == snap[i].1
    &&& forall|k: Seq<char>| #[trigger] m.dom().contains(k) ==> exists|i: int| 0 <= i < snap.len() && snap[i].0@ == k
    &&& forall|i: int, j: int| 0 <= i < j < snap.len() ==> snap[i].0@ != snap[j].0@
}

/// The relays of `m` that are still live at `now_ts`.
pub open spec fn live_relays(m: Map<Seq<char>, RelayPresence>, now_ts: i64) -> Map<Seq<char>, RelayPresence> {
    Map::new(|k: Seq<char>| m.dom().contains(k) && relay_is_live(m[k].last_seen, now_ts), |k: Seq<char>| m[k])
}

/// `DashMap::iter`, each entry's guid and presence copied out. The map is walked in the
/// order of its shards and their hash tables, which rests on a hasher seeded per process,
/// so only what holds of every order is stated: each relay is listed once.
#[verifier::external_body]
fn registry_snapshot(m: &RelayRegistry) -> (r: Vec<(String, RelayPresence)>)
    ensures
        lists_registry(r@, registry_relays(*m)),
{
    let mut out = Vec::new();
    for e in m.iter() {
        out.push((e.key().clone(), e.value().clone()));
    }
    out
}

/// `DashMap::remove`: the relay with this guid leaves the registry.
#[verifier::external_body]
fn registry_remove(m: &mut RelayRegistry, guid: &str)
    ensures
        registry_relays(*final(m)) == registry_relays(*old(m)).remove(guid@),
{
    m.remove(guid);
}

/// `DashMap::insert`: the relay is listed under its guid, replacing any earlier listing,
/// which is returned.
#[verifier::external_body]
fn registry_insert(m: &mut RelayRegistry, guid: String, p: RelayPresence) -> (prev: Option<RelayPresence>)
    ensures
        registry_relays(*final(m)) == registry_relays(*old(m)).insert(guid@, p),
        match prev {
            Some(v) => registry_relays(*old(m)).dom().contains(guid@) && registry_relays(*old(m))[guid@] == v,
            None => !registry_relays(*old(m)).dom().contains(guid@),
        },
{
    m.insert(guid, p)
}

/// True when one of the first `j` keys of `sk` is `k`.
pub open spec fn among_first(sk: Seq<Seq<char>>, j: int, k: Seq<char>) -> bool {
    exists|x: int| 0 <= x < j && sk[x] == k
}

/// The keys that are stale are exactly the listed relays that are no longer live.
proof fn lemma_stale_keys(snap: Seq<(String, RelayPresence)>, now_ts: i64, k: Seq<char>)
    ensures
        among_first(stale_keys(snap, now_ts), stale_keys(snap, now_ts).len() as int, k) <==> exists|i: int|
            0 <= i < snap.len() && snap[i].0@ == k && !relay_is_live(snap[i].1.last_seen, now_ts),
    decreases snap.len(),
{
    let sk = stale_keys(snap, now_ts);
    if snap.len() == 0 {
        assert(!among_first(sk, sk.len() as int, k));
    } else {
        let d = snap.drop_last();
        let last = snap.last();
        lemma_stale_keys(d, now_ts, k);
        let sd = stale_keys(d, now_ts);
        assert(snap[snap.len() - 1] == last);
        assert forall|i: int| 0 <= i < d.len() implies #[trigger] d[i] == snap[i] by {}
        if relay_is_live(last.1.last_seen, now_ts) {
            assert(sk == sd);
        } else {
            assert(sk == sd.push(last.0@));
            if among_first(sk, sk.len() as int, k) {
                let x = choose|x: int| 0 <= x < sk.len() && sk[x] == k;
                if x < sd.len() {
                    assert(sd[x] == k);
                    assert(among_first(sd, sd.len() as int, k));
                }
            }
            if among_first(sd, sd.len() as int, k) {
                let x = choose|x: int| 0 <= x < sd.len() && sd[x] == k;
                assert(sk[x] == k);
            }
            if last.0@ == k {
                assert(sk[sd.len() as int] == k);
            }
        }
        if exists|i: int| 0 <= i < snap.len() && snap[i].0@ == k && !relay_is_live(snap[i].1.last_seen, now_ts) {
            let i = choose|i: int| 0 <= i < snap.len() && snap[i].0@ == k && !relay_is_live(snap[i].1.last_seen, now_ts);
            if i < snap.len() - 1 {
                assert(d[i] == snap[i]);
            }
        }
        if exists|i: int| 0 <= i < d.len() && d[i].0@ == k && !relay_is_live(d[i].1.last_seen, now_ts) {
            let i = choose|i: int| 0 <= i < d.len() && d[i].0@ == k && !relay_is_live(d[i].1.last_seen, now_ts);
            assert(snap[i] == d[i]);
        }
    }
}

/// Lists the live relays, sorted by key, and forgets those that have not checked in for
/// more than 90 seconds. The registry is read in an order it does not fix; the listing is
/// that of the live relays in that order, sorted by key.
pub fn list_relays_get(relays: &mut RelayRegistry, now_ts: i64) -> (r: Vec<RelayEntry>)
    ensures
        exists|snap: Seq<(String, RelayPresence)>|
            lists_registry(snap, registry_relays(*old(relays))) && r@ == sort_by_key(live_entries(snap, now_ts)),
        registry_relays(*final(relays)) == live_relays(registry_relays(*old(relays)), now_ts),
{
    let ghost m0 = registry_relays(*relays);
    let snap = registry_snapshot(relays);
    let (live, stale) = list_relays(&snap, now_ts);
    let ghost sk = stale@.map_values(|k: String| k@);
    let mut j: usize = 0;
    while j < stale.len()
        invariant
            j <= stale@.len(),
            sk == stale@.map_values(|k: String| k@),
            forall|k: Seq<char>| #[trigger] registry_relays(*relays).dom().contains(k)
                <==> (m0.dom().contains(k) && !among_first(sk, j as int, k)),
            forall|k: Seq<char>| #[trigger] registry_relays(*relays).dom().contains(k) ==> registry_relays(*relays)[k] == m0[k],
        decreases stale@.len() - j,
    {
        let ghost before = registry_relays(*relays);
        registry_remove(relays, stale[j].as_str());
        proof {
            assert(sk[j as int] == stale@[j as int]@);
            assert forall|k: Seq<char>| among_first(sk, j + 1, k) <==> (among_first(sk, j as int, k) || sk[j as int] == k) by {
                if among_first(sk, j + 1, k) {
                    let x = choose|x: int| 0 <= x < j + 1 && sk[x] == k;
                    if x < j {
                        assert(among_first(sk, j as int, k));
                    }
                }
                if among_first(sk, j as int, k) {
                    let x = choose|x: int| 0 <= x < j && sk[x] == k;
                    assert(0 <= x < j + 1 && sk[x] == k);
                }
            }
        }
        j += 1;
    }
    proof {
        assert(sk.len() == j);
        let fin = registry_relays(*relays);
        assert forall|k: Seq<char>| #[trigger] fin.dom().contains(k) <==> live_relays(m0, now_ts).dom().contains(k) by {
            lemma_stale_keys(snap@, now_ts, k);
            if m0.dom().contains(k) {
                let i = choose|i: int| 0 <= i < snap@.len() && snap@[i].0@ == k;
                assert(snap@[i].0@ == k);
                assert(m0[snap@[i].0@] == snap@[i].1);
                if exists|i2: int| 0 <= i2 < snap@.len() && snap@[i2].0@ == k && !relay_is_live(snap@[i2].1.last_seen, now_ts) {
                    let i2 = choose|i2: int| 0 <= i2 < snap@.len() && snap@[i2].0@ == k && !relay_is_live(snap@[i2].1.last_seen, now_ts);
                    assert(m0[snap@[i2].0@] == snap@[i2].1);
                }
            }
        }
        assert(fin =~= live_relays(m0, now_ts));
    }
    live
}

/// Lists a relay that registered at `now_ts` under its guid: 201 (created) when the guid
/// is new, 200 when it replaces an earlier listing.
pub fn register_relay(relays: &mut RelayRegistry, guid: String, entry: RelayEntry, now_ts: i64) -> (status: u16)
    ensures
        status == if registry_relays(*old(relays)).dom().contains(guid@) { 200u16 } else { 201u16 },
        registry_relays(*final(relays)) == registry_relays(*old(relays)).insert(guid@, RelayPresence { entry, last_seen: now_ts }),
{
    match registry_insert(relays, guid, RelayPresence { entry, last_seen: now_ts }) {
        Some(_) => 200,
        None => 201,
    }
}

/// The largest handshake message the control plane reads.
pub open spec fn max_noise_message_len() -> int {
    65535
}

/// A `Noise_X_25519_ChaChaPoly_BLAKE2s` responder built with this static key
/// (`snow::Builder::local_private_key`, `build_responder`) reading one handshake message
/// into a buffer of `out_len` bytes (`read_message`), then asked whether the handshake
/// finished and for the initiator's static key. Reading is a function of the key and the
/// message; the contract names its outcome.
#[verifier::external_body]
fn noise_x_respond(private_key: &[u8; 32], message: &[u8], out_len: usize) -> (r: Option<(Vec<u8>, bool, Option<Vec<u8>>)>)
    ensures
        match r {
            Some((p, f, s)) => noise_x_read(private_key@, message@, out_len as nat) == Some((p@, f, match s { Some(k) => Some(k@), None => None })),
            None => noise_x_read(private_key@, message@, out_len as nat) is None,
        },
{
    let params: snow::params::NoiseParams = match "Noise_X_25519_ChaChaPoly_BLAKE2s".parse() {
        Ok(p) => p,
        Err(_) => return None,
    };
    let mut responder = match snow::Builder::new(params).local_private_key(private_key).build_responder() {
        Ok(r) => r,
        Err(_) => return None,
    };
    let mut payload = vec![0u8; out_len];
    let n = match responder.read_message(message, &mut payload) {
        Ok(n) => n,
        Err(_) => return None,
    };
    Some((payload[..n].to_vec(), responder.is_handshake_finished(), responder.get_remote_static().map(|k| k.to_vec())))
}

/// Why a registration proof was refused.
#[derive(Debug, Clone, Copy, PartialEq, Eq, Structural)]
pub enum ProofError {
    /// The handshake message is larger than 65535 bytes.
    TooLarge,
    /// The handshake does not prove the claimed key over the expected payload.
    Invalid,
}

/// The payload buffer a proof is read into: as large as the message or the expected
/// payload, and at least one byte.
pub open spec fn proof_buffer_len(message_len: nat, payload_len: nat) -> nat {
    let m = if message_len >= payload_len { message_len } else { payload_len };
    if m >= 1 { m } else { 1 }
}

/// Checks that a client's Noise `X` handshake message, sent to the control plane's key,
/// carries exactly `expected_payload` and comes from `claimed_public_key`.
pub fn verify_registration_proof(
    server_private_key: &[u8; 32],
    claimed_public_key: &[u8; 32],
    handshake_message: &[u8],
    expected_payload: &[u8],
) -> (r: Result<(), ProofError>)
    ensures
        handshake_message@.len() > max_noise_message_len() ==> r == Err::<(), ProofError>(ProofError::TooLarge),
        handshake_message@.len() <= max_noise_message_len() ==> (r is Ok <==> (
            noise_x_read(server_private_key@, handshake_message@, proof_buffer_len(handshake_message@.len(), expected_payload@.len()))
                matches Some((payload, finished, remote))
            && finished
            && remote == Some(claimed_public_key@)
            && payload == expected_payload@
        )),
        r is Err ==> (r == Err::<(), ProofError>(ProofError::TooLarge) || r == Err::<(), ProofError>(ProofError::Invalid)),
{
    if handshake_message.len() > 65535 {
        return Err(ProofError::TooLarge);
    }
    let mut out_len = if handshake_message.len() >= expected_payload.len() { handshake_message.len() } else { expected_payload.len() };
    if out_len < 1 {
        out_len = 1;
    }
    let read = noise_x_respond(server_private_key, handshake_message, out_len);
    match read {
        None => Err(ProofError::Invalid),
        Some((payload, finished, remote)) => {
            if !finished {
                return Err(ProofError::Invalid);
            }
            let remote_key = match remote {
                Some(k) => k,
                None => return Err(ProofError::Invalid),
            };
            if !bytes_equal(remote_key.as_slice(), claimed_public_key) {
                return Err(ProofError::Invalid);
            }
            if payload.len() != expected_payload.len() {
                return Err(ProofError::Invalid);
            }
            if !bytes_equal(payload.as_slice(), expected_payload) {
                return Err(ProofError::Invalid);
            }
            Ok(())
        },
    }
}

/// A registration handshake a client makes for the control plane's key proves the
/// client's key and payload to the control plane: `verify_registration_proof` with the
/// control plane's private key, the client's public key and the payload accepts every
/// message `create_registration_handshake` returns for them.
pub proof fn law_registration_proof_accepted(server_private_key: Seq<u8>, client_private_key: Seq<u8>, message: Seq<u8>, payload: Seq<u8>)
    requires
        server_private_key.len() == 32,
        x_sealed_for(client_private_key, x25519_public(server_private_key), message, payload),
        message.len() <= max_noise_message_len(),
    ensures
        noise_x_read(server_private_key, message, proof_buffer_len(message.len(), payload.len()))
            == Some((payload, true, Some(x25519_public(client_private_key)))),
{
    assert(proof_buffer_len(message.len(), payload.len()) >= payload.len());
    assert(noise_x_read(server_private_key, message, proof_buffer_len(message.len(), payload.len()))
        == Some((payload, true, Some(x25519_public(client_private_key)))));
}

/// True when two byte strings are equal.
fn bytes_equal(a: &[u8], b: &[u8]) -> (r: bool)
    ensures
        r == (a@ == b@),
{
    if a.len() != b.len() {
        return false;
    }
    let mut i: usize = 0;
    while i < a.len()
        invariant
            i <= a@.len(),
            a@.len() == b@.len(),
            forall|k: int| 0 <= k < i ==> a@[k] == b@[k],
        decreases a@.len() - i,
    {
        if a[i] != b[i] {
            return false;
        }
        i += 1;
    }
    assert(a@ =~= b@);
    true
}

/// An error a route answers with: the HTTP status and the message.
#[derive(Debug, Clone)]
pub struct RouteError {
    pub status: u16,
    pub message: String,
}

/// The status of a malformed request.
pub open spec fn bad_request() -> u16 {
    400
}

/// The checked parts of a registration proof: the public key in canonical base64, its
/// bytes, and the handshake message.
pub fn read_proof_fields(public_key_b64: &str, noise_handshake_b64: &str) -> (r: Result<(String, [u8; 32], Vec<u8>), RouteError>)
    ensures
        base64_decode(public_key_b64@) is None ==> (r matches Err(e) && e.status == 400 && e.message@ == "invalid public_key base64"@),
        (base64_decode(public_key_b64@) matches Some(k) && k.len() != 32) ==> (r matches Err(e) && e.status == 400 && e.message@ == "invalid public_key length"@),
        (base64_decode(public_key_b64@) matches Some(k) && k.len() == 32 && base64_decode(noise_handshake_b64@) is None)
            ==> (r matches Err(e) && e.status == 400 && e.message@ == "invalid noise_handshake base64"@),
        (base64_decode(public_key_b64@) matches Some(k) && k.len() == 32 && base64_decode(noise_handshake_b64@) is Some) ==> r is Ok,
        r matches Ok((canonical, key, handshake)) ==> canonical@ == public_key_b64@
            && base64_decode(public_key_b64@) == Some(key@)
            && base64_decode(noise_handshake_b64@) == Some(handshake@),
{
    proof {
        reveal_strlit("public_key");
        reveal_strlit("invalid ");
        reveal_strlit(" base64");
        reveal_strlit(" length");
        reveal_strlit("invalid public_key base64");
        reveal_strlit("invalid public_key length");
    }
    let (canonical, key) = match canonicalize_base64_32(public_key_b64, "public_key") {
        Ok(v) => v,
        Err(e) => return Err(RouteError { status: 400, message: e.message() }),
    };
    let handshake = match decode_base64(noise_handshake_b64) {
        Ok(h) => h,
        Err(_) => return Err(RouteError { status: 400, message: String::from_str("invalid noise_handshake base64") }),
    };
    Ok((canonical, key, handshake))
}

/// The registration proof checked, as a route answers: a refusal is a bad request.
pub fn check_registration_proof(
    server_private_key: &[u8; 32],
    public_key: &[u8; 32],
    handshake: &[u8],
    payload: &[u8],
) -> (r: Result<(), RouteError>)
    ensures
        r is Ok <==> handshake@.len() <= max_noise_message_len() && (
            noise_x_read(server_private_key@, handshake@, proof_buffer_len(handshake@.len(), payload@.len()))
                matches Some((p, finished, remote))
            && finished && remote == Some(public_key@) && p == payload@),
        r matches Err(e) ==> e.status == 400 && e.message@ == "invalid registration proof"@,
{
    match verify_registration_proof(server_private_key, public_key, handshake, payload) {
        Ok(()) => Ok(()),
        Err(_) => Err(RouteError { status: 400, message: String::from_str("invalid registration proof") }),
    }
}

/// The check a client registration starts with: relays register elsewhere.
pub fn check_client_type(client_type: ClientType) -> (r: Result<(), RouteError>)
    ensures
        r is Ok <==> client_type != ClientType::Relay,
        r matches Err(e) ==> e.status == 400 && e.message@ == "relay is not allowed in /clients"@,
{
    match client_type {
        ClientType::Relay => Err(RouteError { status: 400, message: String::from_str("relay is not allowed in /clients") }),
        _ => Ok(()),
    }
}

/// `key_not_after` is total and transitive.
proof fn lemma_key_order(a: RelayEntry, b: RelayEntry, c: RelayEntry)
    ensures
        key_not_after(a, b) || key_not_after(b, a),
        key_not_after(a, b) && key_not_after(b, c) ==> key_not_after(a, c),
{
    let ka = vstd::utf8::encode_utf8(a.public_key@);
    let kb = vstd::utf8::encode_utf8(b.public_key@);
    let kc = vstd::utf8::encode_utf8(c.public_key@);
    crate::text::lemma_bytes_less_order(ka, kb, kc);
    crate::text::lemma_bytes_less_order(kb, ka, kc);
    crate::text::lemma_bytes_less_order(kc, ka, kb);
    crate::text::lemma_bytes_less_order(kc, kb, ka);
    crate::text::lemma_bytes_less_order(ka, kc, kb);
    crate::text::lemma_bytes_less_order(kb, kc, ka);
}

/// True when the entries' keys never decrease.
pub open spec fn sorted_by_key(s: Seq<RelayEntry>) -> bool {
    forall|i: int, j: int| 0 <= i < j < s.len() ==> key_not_after(s[i], s[j])
}

/// Every entry of `insert_by_key(s, e)` is `e` or an entry of `s`.
proof fn lemma_insert_by_key_members(s: Seq<RelayEntry>, e: RelayEntry)
    ensures
        insert_by_key(s, e).len() == s.len() + 1,
        forall|i: int| 0 <= i < insert_by_key(s, e).len() ==> insert_by_key(s, e)[i] == e || exists|k: int| 0 <= k < s.len() && s[k] == insert_by_key(s, e)[i],
    decreases s.len(),
{
    if s.len() == 0 {
    } else if key_not_after(s.last(), e) {
        assert forall|i: int| 0 <= i < s.push(e).len() implies s.push(e)[i] == e || exists|k: int| 0 <= k < s.len() && s[k] == s.push(e)[i] by {
            if i < s.len() {
                assert(s[i] == s.push(e)[i]);
            }
        }
    } else {
        lemma_insert_by_key_members(s.drop_last(), e);
        let t = insert_by_key(s.drop_last(), e);
        assert forall|i: int| 0 <= i < t.push(s.last()).len() implies t.push(s.last())[i] == e || exists|k: int| 0 <= k < s.len() && s[k] == t.push(s.last())[i] by {
            if i < t.len() {
                if t[i] != e {
                    let k = choose|k: int| 0 <= k < s.drop_last().len() && s.drop_last()[k] == t[i];
                    assert(s[k] == t.push(s.last())[i]);
                }
            } else {
                assert(s[s.len() - 1] == t.push(s.last())[i]);
            }
        }
    }
}

/// Inserting by key keeps the entries sorted by key.
proof fn lemma_insert_by_key_sorted(s: Seq<RelayEntry>, e: RelayEntry)
    requires
        sorted_by_key(s),
    ensures
        sorted_by_key(insert_by_key(s, e)),
    decreases s.len(),
{
    if s.len() == 0 {
    } else if key_not_after(s.last(), e) {
        assert forall|i: int, j: int| 0 <= i < j < s.push(e).len() implies key_not_after(s.push(e)[i], s.push(e)[j]) by {
            if j == s.len() && i < s.len() - 1 {
                lemma_key_order(s[i], s.last(), e);
            }
        }
    } else {
        let d = s.drop_last();
        lemma_insert_by_key_sorted(d, e);
        lemma_insert_by_key_members(d, e);
        let t = insert_by_key(d, e);
        lemma_key_order(s.last(), e, e);
        assert forall|i: int, j: int| 0 <= i < j < t.push(s.last()).len() implies key_not_after(t.push(s.last())[i], t.push(s.last())[j]) by {
            if j == t.len() {
                if t[i] == e {
                } else {
                    let k = choose|k: int| 0 <= k < d.len() && d[k] == t[i];
                    assert(s[k] == t[i]);
                }
            }
        }
    }
}

/// The relays are listed in the order of their keys (compared as UTF-8 bytes).
pub proof fn law_listed_relays_sorted(s: Seq<RelayEntry>)
    ensures
        sorted_by_key(sort_by_key(s)),
        sort_by_key(s).len() == s.len(),
    decreases s.len(),
{
    if s.len() > 0 {
        law_listed_relays_sorted(s.drop_last());
        lemma_insert_by_key_sorted(sort_by_key(s.drop_last()), s.last());
        lemma_insert_by_key_members(sort_by_key(s.drop_last()), s.last());
    }
}

/// The canonical base64 form of a key of any length: decoded, then encoded again.
pub fn canonicalize_base64(value: &str) -> (r: Option<String>)
    requires
        value@.len() <= usize::MAX / 2,
    ensures
        match base64_decode(value@) {
            None => r.is_none(),
            Some(v) => r matches Some(s) && s@ == base64_encode(v),
        },
        r matches Some(s) ==> s@ == value@,
{
    match decode_base64(value) {
        Ok(v) => Some(encode_base64(v.as_slice())),
        Err(_) => None,
    }
}

/// A relay's registration checked: its guid must read as a UUID (it is listed in
/// hyphenated form), its key must be base64 (it is listed in canonical form), and its
/// port must not be 0.
pub fn check_relay_registration(guid: &str, public_key: &str, port: u16) -> (r: Result<(String, String), RouteError>)
    requires
        public_key@.len() <= usize::MAX / 2,
    ensures
        crate::ids::uuid_parse(guid@) is None ==> (r matches Err(e) && e.status == 400 && e.message@ == "invalid guid"@),
        (crate::ids::uuid_parse(guid@) is Some && base64_decode(public_key@) is None)
            ==> (r matches Err(e) && e.status == 400 && e.message@ == "invalid public_key base64"@),
        (crate::ids::uuid_parse(guid@) is Some && base64_decode(public_key@) is Some && port == 0)
            ==> (r matches Err(e) && e.status == 400 && e.message@ == "invalid port"@),
        (crate::ids::uuid_parse(guid@) is Some && base64_decode(public_key@) is Some && port != 0) ==> r is Ok,
        r matches Ok((g, k)) ==> (crate::ids::uuid_parse(guid@) matches Some(id)
            && g@ == crate::text::ascii_chars(crate::ids::uuid_hyphenated_bytes(id))
            && k@ == public_key@ && port != 0),
{
    let id = match crate::ids::uuid_parse_str(guid) {
        Some(id) => id,
        None => return Err(RouteError { status: 400, message: String::from_str("invalid guid") }),
    };
    let key = match decode_base64(public_key) {
        Ok(v) => v,
        Err(_) => return Err(RouteError { status: 400, message: String::from_str("invalid public_key base64") }),
    };
    if port == 0 {
        return Err(RouteError { status: 400, message: String::from_str("invalid port") });
    }
    Ok((crate::ids::uuid_to_string(id), encode_base64(key.as_slice())))
}

/// How long a relay token lasts, in seconds: a day.
pub open spec fn relay_token_lifetime() -> int {
    86400
}

/// The issue and expiry times of a relay token issued at `issued_at`.
pub fn relay_token_times(issued_at: i64) -> (r: (i64, i64))
    requires
        issued_at <= i64::MAX - 86400,
    ensures
        r.0 == issued_at,
        r.1 == issued_at + relay_token_lifetime(),
{
    (issued_at, issued_at + 86400)
}

/// What a relay token says: whose it is (the client's guid), when it expires and was
/// issued, in Unix seconds, and what kind of client holds it.
#[derive(Debug, Clone)]
pub struct RelayTokenClaims {
    pub sub: String,
    pub exp: i64,
    pub iat: i64,
    pub client_type: ClientType,
}

/// The claims of a relay token for a registered client, issued at `issued_at`: its guid
/// must read as a UUID, or the stored record is broken and the request fails with 500.
pub fn relay_token_claims(guid: &str, client_type: ClientType, issued_at: i64) -> (r: Result<RelayTokenClaims, RouteError>)
    requires
        issued_at <= i64::MAX - 86400,
    ensures
        crate::ids::uuid_parse(guid@) is None ==> (r matches Err(e) && e.status == 500 && e.message@ == "stored client guid is invalid"@),
        crate::ids::uuid_parse(guid@) is Some ==> (r matches Ok(c)
            && c.sub@ == guid@
            && c.iat == issued_at
            && c.exp == issued_at + relay_token_lifetime()
            && c.client_type == client_type),
{
    if crate::ids::uuid_parse_str(guid).is_none() {
        return Err(RouteError { status: 500, message: String::from_str("stored client guid is invalid") });
    }
    let (iat, exp) = relay_token_times(issued_at);
    Ok(RelayTokenClaims { sub: guid.to_string(), exp, iat, client_type })
}

/// A fresh static key pair for the registration pattern
/// (`snow::Builder::generate_keypair` for `Noise_X_25519_ChaChaPoly_BLAKE2s`): its
/// private half. The key is random, so only its length is stated: the 25519 key a
/// generated pair holds is 32 bytes (`priv_len`). With snow's default resolver the RNG
/// and the 25519 implementation are always found, so a pair is always made.
#[verifier::external_body]
fn noise_generate_private_key() -> (r: Option<Vec<u8>>)
    ensures
        r is Some,
        r matches Some(v) ==> v@.len() == 32,
{
    let params: snow::params::NoiseParams = match "Noise_X_25519_ChaChaPoly_BLAKE2s".parse() {
        Ok(p) => p,
        Err(_) => return None,
    };
    match snow::Builder::new(params).generate_keypair() {
        Ok(keypair) => Some(keypair.private),
        Err(_) => None,
    }
}

/// Why no static key could be made.
#[derive(Debug, PartialEq, Eq)]
pub enum KeyGenError {
    /// snow could not generate a key pair.
    Generate,
    /// The private key it gave is not 32 bytes long.
    InvalidLength,
}

/// A fresh static private key for the control plane's registration handshakes.
pub fn generate_static_private_key() -> (r: Result<[u8; 32], KeyGenError>)
    ensures
        r is Ok,
{
    match noise_generate_private_key() {
        None => Err(KeyGenError::Generate),
        Some(v) => if v.len() == 32 {
            Ok(crate::noise::key_from_bytes(&v))
        } else {
            Err(KeyGenError::InvalidLength)
        },
    }
}

} // verus!
