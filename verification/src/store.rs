//! Record stores ("heads"): an id-ordered set of records whose contents are summed up by a
//! hash chain, and the protocol by which two heads with the same name converge.
use vstd::prelude::*;
use crate::clock::{is_permutation_of_range, now_millis, shuffled_indices};
use crate::digest::{blake3_digest, blake3_hash, digest_eq};
use crate::ids::{is_v7, new_uuid_v7};
use crate::hash_cache::{
    ChainHashes, below, hash_pairs, pairs_get_by_left, pairs_get_by_right, pairs_insert, pairs_new, pairs_retain_below,
    without_value,
};
use vstd::string::StringSliceAdditionalSpecFns;

verus! {

/// A record that a store can hold: it has an id, which orders the store, and a digest of
/// its contents.
pub trait Store: Sized + Clone {
    /// The id of the record.
    spec fn spec_id(&self) -> u128;

    /// The digest of the record's contents.
    spec fn spec_hash(&self) -> Seq<u8>;

    /// The id of the record.
    fn id(&self) -> (r: u128)
        ensures
            r == self.spec_id(),
    ;

    /// The 32-byte digest of the record's contents.
    fn hash(&self) -> (r: [u8; 32])
        ensures
            r@ == self.spec_hash(),
    ;

    /// A copy of the record, equal to it, as a head sends it to a peer.
    fn duplicate(&self) -> (r: Self)
        ensures
            r == *self,
    ;
}

/// A command that one head sends to another while syncing.
#[derive(Clone, Debug)]
pub enum HeadCommand<T: Store> {
    /// A record for the receiver to insert.
    Put(T),
    /// The sender's view of the receiver's tip hash.
    Tip([u8; 32]),
    /// The hash of the last record the sender has just sent.
    TipSecondary([u8; 32]),
}

/// True when the records are in strictly increasing id order.
pub open spec fn sorted_by_id<T: Store>(s: Seq<T>) -> bool {
    forall|i: int, j: int| 0 <= i < j < s.len() ==> s[i].spec_id() < s[j].spec_id()
}

/// True when some record has this id.
pub open spec fn has_id<T: Store>(s: Seq<T>, id: u128) -> bool {
    exists|i: int| 0 <= i < s.len() && s[i].spec_id() == id
}

/// The records as a map from id to record.
pub open spec fn contents_of<T: Store>(s: Seq<T>) -> Map<u128, T> {
    Map::new(
        |id: u128| has_id(s, id),
        |id: u128| s[choose|i: int| 0 <= i < s.len() && s[i].spec_id() == id],
    )
}

/// The bytes of a head's name, which start its hash chain.
pub open spec fn name_bytes(name: Seq<char>) -> Seq<u8> {
    vstd::utf8::encode_utf8(name)
}

/// The hash a head with this name has when it holds no record.
pub open spec fn chain_start(name: Seq<char>) -> Seq<u8> {
    blake3_digest(name_bytes(name))
}

/// The hash of the first `n` records: each record's hash folds its digest into the hash of
/// the records before it.
pub open spec fn chain_hash<T: Store>(name: Seq<char>, s: Seq<T>, n: int) -> Seq<u8>
    decreases n,
{
    if n <= 0 || n > s.len() {
        chain_start(name)
    } else {
        blake3_digest(chain_hash(name, s, n - 1) + s[n - 1].spec_hash())
    }
}

/// The state a head keeps of one of its peers.
#[derive(Clone, Debug)]
pub struct StoreHeadRemote {
    pub key: String,
    /// The tip the peer last said it has.
    pub tip: [u8; 32],
    /// The hash of the last record sent to the peer in a batch.
    pub tip_secondary: [u8; 32],
    /// Time (ms) before which no batch is sent to the peer.
    pub cooldown_until: u64,
    /// Whether the peer is owed our tip after it sent us a new record.
    pub tip_update_queued: bool,
}

impl StoreHeadRemote {
    /// A peer that claims `tip`, with no cooldown yet.
    pub fn new(key: String, tip: [u8; 32], now: u64) -> (r: Self)
        ensures
            r.key == key,
            r.tip == tip,
            r.tip_secondary == tip,
            r.cooldown_until == now,
            !r.tip_update_queued,
    {
        StoreHeadRemote { key, tip, tip_secondary: tip, cooldown_until: now, tip_update_queued: false }
    }
}

/// A watcher of a head: it is due to be called whenever the head's tip has changed since
/// it last ran.
#[derive(Clone, Debug)]
pub struct StoreWatcher {
    pub id: u128,
    pub last_hash: Option<[u8; 32]>,
}

impl StoreWatcher {
    /// A watcher that has never run.
    pub fn new() -> (r: Self)
        ensures
            is_v7(r.id),
            r.last_hash is None,
    {
        StoreWatcher { id: new_uuid_v7(), last_hash: None }
    }

    /// Records that the head's tip is `tip`; returns whether the watcher is due, that is
    /// whether the tip differs from the one it last ran on.
    pub fn run(&mut self, tip: [u8; 32]) -> (due: bool)
        ensures
            due == !(old(self).last_hash matches Some(h) && h@ == tip@),
            final(self).id == old(self).id,
            final(self).last_hash == (if due { Some(tip) } else { old(self).last_hash }),
    {
        if let Some(hash) = &self.last_hash {
            if digest_eq(hash, &tip) {
                return false;
            }
        }
        self.last_hash = Some(tip);
        true
    }
}

/// True when every pair of the chain-hash cache is right: its id is a record's, its hash
/// is the chain hash at that record, and no hash is paired with two ids.
pub open spec fn cache_ok<T: Store>(name: Seq<char>, s: Seq<T>, c: Map<u128, Seq<u8>>) -> bool {
    &&& forall|id: u128| #[trigger] c.dom().contains(id) ==> has_id(s, id)
    &&& forall|p: int|
        0 <= p < s.len() && #[trigger] c.dom().contains(s[p].spec_id()) ==> c[s[p].spec_id()] == chain_hash(name, s, p + 1)
    &&& forall|a: u128, b: u128|
        #[trigger] c.dom().contains(a) && #[trigger] c.dom().contains(b) && c[a] == c[b] ==> a == b
}

/// True when the cache holds, for some `n`, the chain hashes of exactly the first `n`
/// records.
pub open spec fn cached_upto<T: Store>(s: Seq<T>, c: Map<u128, Seq<u8>>, n: int) -> bool {
    forall|q: int| 0 <= q < s.len() ==> (#[trigger] c.dom().contains(s[q].spec_id()) <==> q < n)
}

/// True when the cached records form a prefix: a record is cached only if every record
/// before it is.
pub open spec fn cache_prefix<T: Store>(s: Seq<T>, c: Map<u128, Seq<u8>>) -> bool {
    forall|p: int, q: int|
        0 <= q <= p < s.len() && #[trigger] c.dom().contains(s[p].spec_id()) ==> #[trigger] c.dom().contains(
            s[q].spec_id(),
        )
}

/// The cache holding the chain hash of every record.
pub open spec fn full_cache<T: Store>(name: Seq<char>, s: Seq<T>) -> Map<u128, Seq<u8>> {
    Map::new(
        |id: u128| has_id(s, id),
        |id: u128| chain_hash(name, s, (choose|p: int| 0 <= p < s.len() && s[p].spec_id() == id) + 1),
    )
}

/// True when no two of the chain hashes of the records' prefixes (the empty one included)
/// are equal.
pub open spec fn chain_distinct<T: Store>(name: Seq<char>, s: Seq<T>) -> bool {
    forall|i: int, j: int| 0 <= i < j <= s.len() ==> #[trigger] chain_hash(name, s, i) != #[trigger] chain_hash(name, s, j)
}

/// An id-ordered store of records, with its sync state.
pub struct StoreHead<T: Store> {
    name: String,
    messages: Vec<T>,
    hashes: ChainHashes,
    /// Whether a chain hash worked out for the cache ever equalled another record's cached
    /// one (a BLAKE3 collision); the bimap then dropped the other pair.
    clashed: Ghost<bool>,
    pending: Vec<T>,
    remotes: Vec<StoreHeadRemote>,
    watchers: Vec<StoreWatcher>,
    due: Vec<u128>,
    unsaved: Vec<u128>,
}

/// True when no two peers share a key.
pub open spec fn keys_unique(r: Seq<StoreHeadRemote>) -> bool {
    forall|i: int, j: int| 0 <= i < j < r.len() ==> r[i].key@ != r[j].key@
}

impl<T: Store> StoreHead<T> {
    /// The head's name.
    pub closed spec fn spec_name(&self) -> Seq<char> {
        self.name@
    }

    /// The records, in id order.
    pub closed spec fn records(&self) -> Seq<T> {
        self.messages@
    }

    /// The records by id.
    pub open spec fn contents(&self) -> Map<u128, T> {
        contents_of(self.records())
    }

    /// The hash of all records: the tip of the chain.
    pub open spec fn tip(&self) -> Seq<u8> {
        chain_hash(self.spec_name(), self.records(), self.records().len() as int)
    }

    /// The records queued for the next step.
    pub closed spec fn queued(&self) -> Seq<T> {
        self.pending@
    }

    /// The peers, in the order they were added.
    pub closed spec fn peers(&self) -> Seq<StoreHeadRemote> {
        self.remotes@
    }

    /// The watchers, in the order they were added.
    pub closed spec fn watcher_list(&self) -> Seq<StoreWatcher> {
        self.watchers@
    }

    /// The ids of the watchers that are due to be called, oldest first.
    pub closed spec fn due_watchers(&self) -> Seq<u128> {
        self.due@
    }

    /// The ids of the records inserted since they were last handed out for saving.
    pub closed spec fn unsaved_ids(&self) -> Seq<u128> {
        self.unsaved@
    }

    /// The cached chain hashes, by record id.
    pub closed spec fn cached(&self) -> Map<u128, Seq<u8>> {
        hash_pairs(self.hashes)
    }

    /// True once two chain hashes the head worked out were found equal (a BLAKE3
    /// collision). Until then the cached records form a prefix of the records.
    pub closed spec fn hashes_clashed(&self) -> bool {
        self.clashed@
    }

    /// The head's invariant: records in strict id order, every cached hash correct, the
    /// cached records a prefix unless hashes clashed, peer keys distinct.
    pub closed spec fn wf(&self) -> bool {
        &&& sorted_by_id(self.messages@)
        &&& cache_ok(self.name@, self.messages@, hash_pairs(self.hashes))
        &&& (!self.clashed@ ==> cache_prefix(self.messages@, hash_pairs(self.hashes)))
        &&& keys_unique(self.remotes@)
    }

    /// A head with no records, no peers and no watchers. (Loading records saved earlier
    /// is done by [`StoreHead::load`].)
    pub fn new(name: String) -> (r: Self)
        ensures
            r.wf(),
            r.spec_name() == name@,
            r.records() == Seq::<T>::empty(),
            r.queued() == Seq::<T>::empty(),
            r.peers() == Seq::<StoreHeadRemote>::empty(),
            r.watcher_list() == Seq::<StoreWatcher>::empty(),
            r.due_watchers() == Seq::<u128>::empty(),
            r.unsaved_ids() == Seq::<u128>::empty(),
            !r.hashes_clashed(),
    {
        StoreHead {
            name,
            messages: Vec::new(),
            hashes: pairs_new(),
            clashed: Ghost(false),
            pending: Vec::new(),
            remotes: Vec::new(),
            watchers: Vec::new(),
            due: Vec::new(),
            unsaved: Vec::new(),
        }
    }

    /// The number of records.
    pub fn len(&self) -> (r: usize)
        ensures
            r == self.records().len(),
    {
        self.messages.len()
    }

    /// All records, in id order.
    pub fn get_all(&self) -> (r: &Vec<T>)
        ensures
            r@ == self.records(),
    {
        &self.messages
    }

    /// The number of watchers.
    pub fn watcher_len(&self) -> (r: usize)
        ensures
            r == self.watcher_list().len(),
    {
        self.watchers.len()
    }

    /// Position of the first record whose id is not below `id`.
    fn lower_bound(&self, id: u128) -> (r: usize)
        requires
            self.wf(),
        ensures
            r <= self.records().len(),
            forall|i: int| 0 <= i < r ==> #[trigger] self.records()[i].spec_id() < id,
            forall|i: int| r <= i < self.records().len() ==> #[trigger] self.records()[i].spec_id() >= id,
    {
        let mut lo: usize = 0;
        let mut hi: usize = self.messages.len();
        while lo < hi
            invariant
                self.wf(),
                lo <= hi <= self.messages@.len(),
                forall|i: int| 0 <= i < lo ==> #[trigger] self.messages@[i].spec_id() < id,
                forall|i: int| hi <= i < self.messages@.len() ==> #[trigger] self.messages@[i].spec_id() >= id,
            decreases hi - lo,
        {
            let mid = lo + (hi - lo) / 2;
            if self.messages[mid].id() < id {
                lo = mid + 1;
            } else {
                hi = mid;
            }
        }
        lo
    }

    /// The record with this id, if the head holds one.
    pub fn get(&self, id: u128) -> (r: Option<&T>)
        requires
            self.wf(),
        ensures
            r matches Some(x) ==> self.contents().dom().contains(id) && *x == self.contents()[id],
            r is None ==> !self.contents().dom().contains(id),
    {
        match self.index_of(id) {
            Some(i) => Some(&self.messages[i]),
            None => None,
        }
    }

    /// The position of the record with this id.
    fn index_of(&self, id: u128) -> (r: Option<usize>)
        requires
            self.wf(),
        ensures
            r matches Some(i) ==> i < self.records().len() && self.records()[i as int].spec_id() == id
                && self.contents().dom().contains(id) && self.contents()[id] == self.records()[i as int],
            r is None ==> !self.contents().dom().contains(id),
    {
        let p = self.lower_bound(id);
        if p < self.messages.len() && self.messages[p].id() == id {
            proof {
                lemma_contents_at(self.messages@, p as int);
            }
            Some(p)
        } else {
            None
        }
    }
}

/// In an id-ordered sequence, the map entry of a record's id is that record.
pub proof fn lemma_contents_at<T: Store>(s: Seq<T>, i: int)
    requires
        sorted_by_id(s),
        0 <= i < s.len(),
    ensures
        contents_of(s).dom().contains(s[i].spec_id()),
        contents_of(s)[s[i].spec_id()] == s[i],
{
    let id = s[i].spec_id();
    assert(has_id(s, id));
    let j = choose|j: int| 0 <= j < s.len() && s[j].spec_id() == id;
    if j < i {
        assert(s[j].spec_id() < s[i].spec_id());
    } else if j > i {
        assert(s[i].spec_id() < s[j].spec_id());
    }
}


/// Chain hashes depend only on the records they cover.
pub proof fn lemma_chain_prefix<T: Store>(name: Seq<char>, s1: Seq<T>, s2: Seq<T>, n: int)
    requires
        0 <= n <= s1.len(),
        n <= s2.len(),
        forall|i: int| 0 <= i < n ==> s1[i] == s2[i],
    ensures
        chain_hash(name, s1, n) == chain_hash(name, s2, n),
    decreases n,
{
    if n > 0 {
        lemma_chain_prefix(name, s1, s2, n - 1);
    }
}

/// A right cache that holds every record's id holds every record's chain hash.
proof fn lemma_full_cache<T: Store>(name: Seq<char>, s: Seq<T>, c: Map<u128, Seq<u8>>)
    requires
        sorted_by_id(s),
        cache_ok(name, s, c),
        forall|q: int| 0 <= q < s.len() ==> #[trigger] c.dom().contains(s[q].spec_id()),
    ensures
        c == full_cache(name, s),
{
    let f = full_cache(name, s);
    assert forall|id: u128| c.dom().contains(id) <==> f.dom().contains(id) by {
        if has_id(s, id) {
            let q = choose|q: int| 0 <= q < s.len() && s[q].spec_id() == id;
            assert(c.dom().contains(s[q].spec_id()));
        }
    }
    assert forall|id: u128| #[trigger] c.dom().contains(id) implies c[id] == f[id] by {
        assert(has_id(s, id));
        let q = choose|q: int| 0 <= q < s.len() && s[q].spec_id() == id;
        assert(c.dom().contains(s[q].spec_id()));
    }
    assert(c =~= f);
}

/// Caching the chain hash at position `k` keeps the cache right.
proof fn lemma_cache_insert<T: Store>(name: Seq<char>, s: Seq<T>, c: Map<u128, Seq<u8>>, k: int, h: Seq<u8>)
    requires
        sorted_by_id(s),
        cache_ok(name, s, c),
        0 <= k < s.len(),
        h == chain_hash(name, s, k + 1),
    ensures
        cache_ok(name, s, without_value(c, h).insert(s[k].spec_id(), h)),
{
    let id = s[k].spec_id();
    let c2 = without_value(c, h).insert(id, h);
    assert forall|x: u128| #[trigger] c2.dom().contains(x) implies has_id(s, x) by {
        if x == id {
            assert(s[k].spec_id() == x);
        } else {
            assert(c.dom().contains(x));
        }
    }
    assert forall|p: int| 0 <= p < s.len() && #[trigger] c2.dom().contains(s[p].spec_id()) implies c2[s[p].spec_id()]
        == chain_hash(name, s, p + 1) by {
        if s[p].spec_id() == id {
            if p < k {
                assert(s[p].spec_id() < s[k].spec_id());
            } else if p > k {
                assert(s[k].spec_id() < s[p].spec_id());
            }
        } else {
            assert(c.dom().contains(s[p].spec_id()));
        }
    }
    assert forall|a: u128, b: u128| #[trigger] c2.dom().contains(a) && #[trigger] c2.dom().contains(b) && c2[a] == c2[b] implies a
        == b by {
        if a != id && b != id {
            assert(c.dom().contains(a) && c.dom().contains(b));
        }
    }
}

/// Putting a record with id `id` at position `p` (inserted there, or in place of the
/// record there) keeps right the cached hashes of the records before it.
proof fn lemma_cache_below<T: Store>(name: Seq<char>, before: Seq<T>, after: Seq<T>, c: Map<u128, Seq<u8>>, id: u128, p: int)
    requires
        sorted_by_id(before),
        cache_ok(name, before, c),
        0 <= p <= before.len(),
        p <= after.len(),
        forall|i: int| 0 <= i < p ==> #[trigger] after[i] == before[i],
        forall|i: int| 0 <= i < p ==> #[trigger] before[i].spec_id() < id,
        forall|i: int| p <= i < before.len() ==> #[trigger] before[i].spec_id() >= id,
        forall|i: int| p <= i < after.len() ==> #[trigger] after[i].spec_id() >= id,
    ensures
        cache_ok(name, after, below(c, id)),
{
    let c2 = below(c, id);
    assert forall|x: u128| #[trigger] c2.dom().contains(x) implies has_id(after, x) by {
        assert(c.dom().contains(x));
        assert(has_id(before, x));
        let q = choose|q: int| 0 <= q < before.len() && before[q].spec_id() == x;
        if q >= p {
            assert(before[q].spec_id() >= id);
        }
        assert(after[q] == before[q]);
    }
    assert forall|q: int| 0 <= q < after.len() && #[trigger] c2.dom().contains(after[q].spec_id()) implies c2[after[q].spec_id()]
        == chain_hash(name, after, q + 1) by {
        if q >= p {
            assert(after[q].spec_id() >= id);
        }
        assert(after[q] == before[q]);
        assert(c.dom().contains(before[q].spec_id()));
        lemma_chain_prefix(name, before, after, q + 1);
    }
}

/// Inserting a record whose id is new, at its place in id order, adds it to the contents.
pub proof fn lemma_contents_insert<T: Store>(s: Seq<T>, p: int, x: T)
    requires
        sorted_by_id(s),
        0 <= p <= s.len(),
        forall|i: int| 0 <= i < p ==> #[trigger] s[i].spec_id() < x.spec_id(),
        forall|i: int| p <= i < s.len() ==> #[trigger] s[i].spec_id() > x.spec_id(),
    ensures
        sorted_by_id(s.insert(p, x)),
        contents_of(s.insert(p, x)) == contents_of(s).insert(x.spec_id(), x),
        !contents_of(s).dom().contains(x.spec_id()),
{
    let t = s.insert(p, x);
    assert forall|i: int, j: int| 0 <= i < j < t.len() implies t[i].spec_id() < t[j].spec_id() by {
        if j < p {
        } else if j == p {
        } else if i < p {
        } else if i == p {
        } else {
            assert(t[i] == s[i - 1] && t[j] == s[j - 1]);
        }
    }
    let m1 = contents_of(t);
    let m2 = contents_of(s).insert(x.spec_id(), x);
    assert forall|id: u128| m1.dom().contains(id) <==> m2.dom().contains(id) by {
        if has_id(t, id) {
            let i = choose|i: int| 0 <= i < t.len() && t[i].spec_id() == id;
            if i < p {
                assert(s[i] == t[i]);
            } else if i > p {
                assert(s[i - 1] == t[i]);
            }
        }
        if has_id(s, id) {
            let i = choose|i: int| 0 <= i < s.len() && s[i].spec_id() == id;
            if i < p {
                assert(t[i] == s[i]);
            } else {
                assert(t[i + 1] == s[i]);
            }
        }
        if id == x.spec_id() {
            assert(t[p] == x);
        }
    }
    assert forall|id: u128| #[trigger] m1.dom().contains(id) implies m1[id] == m2[id] by {
        let i = choose|i: int| 0 <= i < t.len() && t[i].spec_id() == id;
        lemma_contents_at(t, i);
        if i < p {
            assert(t[i] == s[i]);
            lemma_contents_at(s, i);
        } else if i > p {
            assert(t[i] == s[i - 1]);
            lemma_contents_at(s, i - 1);
        }
    }
    assert(m1 =~= m2);
    if has_id(s, x.spec_id()) {
        let i = choose|i: int| 0 <= i < s.len() && s[i].spec_id() == x.spec_id();
    }
}

/// Sets every peer's cooldown to `now`.
fn reset_cooldowns(remotes: &mut Vec<StoreHeadRemote>, now: u64)
    ensures
        cooldowns_reset(old(remotes)@, final(remotes)@, now),
{
    let ghost rem = old(remotes)@;
    let mut k: usize = 0;
    while k < remotes.len()
        invariant
            k <= remotes@.len(),
            remotes@.len() == rem.len(),
            forall|i: int| 0 <= i < k ==> #[trigger] remotes@[i] == (StoreHeadRemote { cooldown_until: now, ..rem[i] }),
            forall|i: int| k <= i < rem.len() ==> #[trigger] remotes@[i] == rem[i],
        decreases rem.len() - k,
    {
        let r = StoreHeadRemote {
            key: remotes[k].key.clone(),
            tip: remotes[k].tip,
            tip_secondary: remotes[k].tip_secondary,
            cooldown_until: now,
            tip_update_queued: remotes[k].tip_update_queued,
        };
        remotes.set(k, r);
        k += 1;
    }
}

/// Resetting cooldowns keeps peer keys distinct.
proof fn lemma_reset_keys(old: Seq<StoreHeadRemote>, new: Seq<StoreHeadRemote>, now: u64)
    requires
        keys_unique(old),
        cooldowns_reset(old, new, now),
    ensures
        keys_unique(new),
{
    assert forall|i: int, j: int| 0 <= i < j < new.len() implies new[i].key@ != new[j].key@ by {
        assert(new[i].key == old[i].key);
        assert(new[j].key == old[j].key);
    }
}

/// True when `new` is `old` with every cooldown set to `now`.
pub open spec fn cooldowns_reset(old: Seq<StoreHeadRemote>, new: Seq<StoreHeadRemote>, now: u64) -> bool {
    &&& new.len() == old.len()
    &&& forall|i: int|
        0 <= i < old.len() ==> #[trigger] new[i] == (StoreHeadRemote { cooldown_until: now, ..old[i] })
}

impl<T: Store> StoreHead<T> {
    /// The hash of the empty chain: the digest of the head's name.
    fn hash_start(&self) -> (r: [u8; 32])
        ensures
            r@ == chain_start(self.spec_name()),
    {
        blake3_hash(self.name.as_str().as_bytes())
    }

    /// The chain hash after the record at `k`, given the chain hash `prev` of the records
    /// before it.
    fn next_chain_hash(&self, prev: [u8; 32], k: usize) -> (h: [u8; 32])
        requires
            k < self.messages@.len(),
            prev@ == chain_hash(self.name@, self.messages@, k as int),
        ensures
            h@ == chain_hash(self.name@, self.messages@, k + 1),
    {
        let item = self.messages[k].hash();
        let mut buf: Vec<u8> = Vec::with_capacity(64);
        let mut j: usize = 0;
        while j < 32
            invariant
                j <= 32,
                prev@.len() == 32,
                buf@ == prev@.subrange(0, j as int),
            decreases 32 - j,
        {
            buf.push(prev[j]);
            j += 1;
        }
        j = 0;
        while j < 32
            invariant
                j <= 32,
                prev@.len() == 32,
                item@.len() == 32,
                buf@ == prev@ + item@.subrange(0, j as int),
            decreases 32 - j,
        {
            buf.push(item[j]);
            j += 1;
        }
        assert(item@.subrange(0, 32) =~= item@);
        assert(prev@.subrange(0, 32) =~= prev@);
        blake3_hash(buf.as_slice())
    }

    /// How many records the nearest cached chain hash at or before position `p` covers
    /// (0 when none is, the hash then being that of no record), and that hash.
    fn nearest_cached(&self, p: usize) -> (r: (usize, [u8; 32]))
        requires
            self.wf(),
            p < self.messages@.len(),
        ensures
            r.0 <= p + 1,
            r.1@ == chain_hash(self.name@, self.messages@, r.0 as int),
            r.0 > 0 ==> hash_pairs(self.hashes).dom().contains(self.messages@[r.0 - 1].spec_id()),
            forall|q: int| r.0 <= q <= p ==> !(#[trigger] hash_pairs(self.hashes).dom().contains(self.messages@[q].spec_id())),
    {
        let n = self.messages.len();
        assert(p < n);
        let mut k: usize = p + 1;
        while k > 0
            invariant
                k <= p + 1,
                p < self.messages@.len(),
                self.wf(),
                forall|q: int| k <= q <= p ==> !(#[trigger] hash_pairs(self.hashes).dom().contains(self.messages@[q].spec_id())),
            decreases k,
        {
            match pairs_get_by_left(&self.hashes, self.messages[k - 1].id()) {
                Some(h) => {
                    return (k, h);
                },
                None => {
                    k -= 1;
                },
            }
        }
        (0, self.hash_start())
    }

    /// The chain hash at the record at position `p`, worked out from the nearest cached
    /// one; each hash worked out on the way is cached.
    fn chain_at(&mut self, p: usize) -> (h: [u8; 32])
        requires
            old(self).wf(),
            p < old(self).messages@.len(),
        ensures
            final(self).wf(),
            h@ == chain_hash(old(self).name@, old(self).messages@, p + 1),
            !final(self).clashed@ ==> forall|q: int|
                0 <= q <= p ==> #[trigger] hash_pairs(final(self).hashes).dom().contains(old(self).messages@[q].spec_id()),
            old(self).clashed@ ==> final(self).clashed@,
            final(self).clashed@ ==> old(self).clashed@ || !chain_distinct(old(self).name@, old(self).messages@),
            final(self).name == old(self).name,
            final(self).messages == old(self).messages,
            final(self).pending == old(self).pending,
            final(self).remotes == old(self).remotes,
            final(self).watchers == old(self).watchers,
            final(self).due == old(self).due,
            final(self).unsaved == old(self).unsaved,
    {
        let n = self.messages.len();
        assert(p < n);
        let (start_k, start_h) = self.nearest_cached(p);
        let ghost s = self.messages@;
        if start_k == p + 1 {
            proof {
                if !self.clashed@ {
                    assert forall|q: int| 0 <= q <= p implies #[trigger] hash_pairs(self.hashes).dom().contains(s[q].spec_id()) by {
                        assert(hash_pairs(self.hashes).dom().contains(s[p as int].spec_id()));
                    }
                }
            }
            return start_h;
        }
        proof {
            if !self.clashed@ {
                let c = hash_pairs(self.hashes);
                assert forall|q: int| 0 <= q < s.len() implies (#[trigger] c.dom().contains(s[q].spec_id()) <==> q < start_k) by {
                    if q < start_k {
                        assert(c.dom().contains(s[start_k - 1].spec_id()));
                    } else if q > p {
                        if c.dom().contains(s[q].spec_id()) {
                            assert(c.dom().contains(s[p as int].spec_id()));
                        }
                    }
                }
            }
        }
        let mut k: usize = start_k;
        let mut prev: [u8; 32] = start_h;
        while k <= p
            invariant
                self.wf(),
                start_k <= k <= p + 1,
                p < n,
                n == self.messages@.len(),
                s == self.messages@,
                !self.clashed@ ==> cached_upto(s, hash_pairs(self.hashes), k as int),
                old(self).clashed@ ==> self.clashed@,
                self.clashed@ ==> old(self).clashed@ || !chain_distinct(old(self).name@, old(self).messages@),
                prev@ == chain_hash(self.name@, self.messages@, k as int),
                self.name == old(self).name,
                self.messages == old(self).messages,
                self.pending == old(self).pending,
                self.remotes == old(self).remotes,
                self.watchers == old(self).watchers,
                self.due == old(self).due,
                self.unsaved == old(self).unsaved,
            decreases p + 1 - k,
        {
            let h = self.next_chain_hash(prev, k);
            let id = self.messages[k].id();
            let ghost c0 = hash_pairs(self.hashes);
            let ghost clash = exists|x: u128| #[trigger] c0.dom().contains(x) && c0[x] == h@ && x != id;
            pairs_insert(&mut self.hashes, id, h);
            proof {
                self.clashed@ = self.clashed@ || clash;
                lemma_cache_insert(self.name@, self.messages@, c0, k as int, h@);
                if clash {
                    let x = choose|x: u128| #[trigger] c0.dom().contains(x) && c0[x] == h@ && x != id;
                    assert(has_id(s, x));
                    let q = choose|q: int| 0 <= q < s.len() && s[q].spec_id() == x;
                    assert(c0.dom().contains(s[q].spec_id()));
                    assert(q != k);
                    if q < k {
                        assert(chain_hash(self.name@, s, q + 1) == chain_hash(self.name@, s, k + 1));
                    } else {
                        assert(chain_hash(self.name@, s, k + 1) == chain_hash(self.name@, s, q + 1));
                    }
                }
                if !self.clashed@ {
                    let c = hash_pairs(self.hashes);
                    assert(without_value(c0, h@) =~= c0);
                    assert forall|q: int| 0 <= q < s.len() implies (#[trigger] c.dom().contains(s[q].spec_id()) <==> q < k + 1) by {
                        if q < k {
                            assert(s[q].spec_id() < s[k as int].spec_id());
                        } else if q > k {
                            assert(s[k as int].spec_id() < s[q].spec_id());
                        }
                    }
                }
            }
            prev = h;
            k += 1;
        }
        proof {
            if !self.clashed@ {
                let c = hash_pairs(self.hashes);
                assert forall|q: int| 0 <= q <= p implies #[trigger] c.dom().contains(s[q].spec_id()) by {
                    assert(q < k);
                }
            }
        }
        prev
    }

    /// The chain hash of the record with this id: the hash of that record and all records
    /// before it. `None` when the head has no such record.
    pub fn hash(&mut self, id: u128) -> (r: Option<[u8; 32]>)
        requires
            old(self).wf(),
        ensures
            final(self).wf(),
            final(self).spec_name() == old(self).spec_name(),
            final(self).records() == old(self).records(),
            final(self).queued() == old(self).queued(),
            final(self).peers() == old(self).peers(),
            final(self).watcher_list() == old(self).watcher_list(),
            final(self).due_watchers() == old(self).due_watchers(),
            final(self).unsaved_ids() == old(self).unsaved_ids(),
            final(self).hashes_clashed() ==> old(self).hashes_clashed() || !chain_distinct(old(self).spec_name(), old(self).records()),
            match r {
                Some(h) => exists|i: int|
                    0 <= i < old(self).records().len() && old(self).records()[i].spec_id() == id
                        && h@ == chain_hash(old(self).spec_name(), old(self).records(), i + 1),
                None => !old(self).contents().dom().contains(id),
            },
            r matches Some(h) ==> forall|i: int|
                0 <= i < old(self).records().len() && #[trigger] old(self).records()[i].spec_id() == id
                    ==> h@ == chain_hash(old(self).spec_name(), old(self).records(), i + 1),
    {
        match self.index_of(id) {
            None => None,
            Some(i) => {
                let ghost s = self.messages@;
                let h = self.chain_at(i);
                proof {
                    assert forall|j: int| 0 <= j < s.len() && #[trigger] s[j].spec_id() == id implies j == i by {
                        if j < i {
                            assert(s[j].spec_id() < s[i as int].spec_id());
                        } else if j > i {
                            assert(s[i as int].spec_id() < s[j].spec_id());
                        }
                    }
                }
                Some(h)
            },
        }
    }

    /// The tip of the chain: the hash of all records (the digest of the name when there is
    /// none).
    pub fn hash_tip(&mut self) -> (r: [u8; 32])
        requires
            old(self).wf(),
        ensures
            final(self).wf(),
            r@ == old(self).tip(),
            final(self).spec_name() == old(self).spec_name(),
            final(self).records() == old(self).records(),
            final(self).queued() == old(self).queued(),
            final(self).peers() == old(self).peers(),
            final(self).watcher_list() == old(self).watcher_list(),
            final(self).due_watchers() == old(self).due_watchers(),
            final(self).unsaved_ids() == old(self).unsaved_ids(),
            old(self).hashes_clashed() ==> final(self).hashes_clashed(),
            final(self).hashes_clashed() ==> old(self).hashes_clashed() || !chain_distinct(old(self).spec_name(), old(self).records()),
            !final(self).hashes_clashed() ==> final(self).cached() == full_cache(old(self).spec_name(), old(self).records()),
    {
        let n = self.messages.len();
        if n == 0 {
            proof {
                lemma_full_cache(self.name@, self.messages@, hash_pairs(self.hashes));
            }
            self.hash_start()
        } else {
            let h = self.chain_at(n - 1);
            proof {
                if !self.clashed@ {
                    lemma_full_cache(self.name@, self.messages@, hash_pairs(self.hashes));
                }
            }
            h
        }
    }

    /// Inserts a record unless one with its id is there; on insertion every peer's cooldown
    /// is set to `now`, so that the next sync round talks to it at once.
    fn insert_apply(&mut self, msg: T, now: u64) -> (inserted: bool)
        requires
            old(self).wf(),
        ensures
            final(self).clashed == old(self).clashed,
            final(self).wf(),
            inserted == !old(self).contents().dom().contains(msg.spec_id()),
            inserted ==> final(self).contents() == old(self).contents().insert(msg.spec_id(), msg),
            inserted ==> final(self).records().len() == old(self).records().len() + 1,
            !inserted ==> final(self).records() == old(self).records(),
            inserted ==> cooldowns_reset(old(self).peers(), final(self).peers(), now),
            !inserted ==> final(self).peers() == old(self).peers(),
            final(self).spec_name() == old(self).spec_name(),
            final(self).queued() == old(self).queued(),
            final(self).watcher_list() == old(self).watcher_list(),
            final(self).due_watchers() == old(self).due_watchers(),
            final(self).unsaved_ids() == old(self).unsaved_ids(),
    {
        let id = msg.id();
        let p = self.lower_bound(id);
        if p < self.messages.len() && self.messages[p].id() == id {
            proof {
                lemma_contents_at(self.messages@, p as int);
            }
            return false;
        }
        proof {
            lemma_contents_insert(self.messages@, p as int, msg);
        }
        let ghost before = self.messages@;
        let ghost c0 = hash_pairs(self.hashes);
        self.messages.insert(p, msg);
        pairs_retain_below(&mut self.hashes, id);
        proof {
            lemma_cache_below(self.name@, before, self.messages@, c0, id, p as int);
        }
        let ghost rem = self.remotes@;
        reset_cooldowns(&mut self.remotes, now);
        proof {
            lemma_reset_keys(rem, self.remotes@, now);
        }
        true
    }
} // impl


/// True when a watcher that last ran on `last` is due for a head whose tip is `tip`.
pub open spec fn watcher_is_due(w: StoreWatcher, tip: Seq<u8>) -> bool {
    !(w.last_hash matches Some(h) && h@ == tip)
}

/// The ids of the watchers that are due for `tip`, in order.
pub open spec fn due_ids(ws: Seq<StoreWatcher>, tip: Seq<u8>) -> Seq<u128>
    decreases ws.len(),
{
    if ws.len() == 0 {
        Seq::empty()
    } else {
        let rest = due_ids(ws.drop_last(), tip);
        if watcher_is_due(ws.last(), tip) {
            rest.push(ws.last().id)
        } else {
            rest
        }
    }
}

/// True when `new` is `old` after every watcher has run on `tip`.
pub open spec fn watchers_ran(old: Seq<StoreWatcher>, new: Seq<StoreWatcher>, tip: Seq<u8>) -> bool {
    &&& new.len() == old.len()
    &&& forall|i: int|
        0 <= i < old.len() ==> #[trigger] new[i].id == old[i].id && (new[i].last_hash matches Some(h)
            && h@ == tip)
}

/// The contents after inserting the records in order, each unless its id is there.
pub open spec fn insert_all<T: Store>(m: Map<u128, T>, s: Seq<T>) -> Map<u128, T>
    decreases s.len(),
{
    if s.len() == 0 {
        m
    } else {
        let m1 = insert_all(m, s.drop_last());
        if m1.dom().contains(s.last().spec_id()) {
            m1
        } else {
            m1.insert(s.last().spec_id(), s.last())
        }
    }
}

/// How many of the records are new when inserted in order.
pub open spec fn count_new<T: Store>(m: Map<u128, T>, s: Seq<T>) -> nat
    decreases s.len(),
{
    if s.len() == 0 {
        0
    } else {
        let m1 = insert_all(m, s.drop_last());
        count_new(m, s.drop_last()) + if m1.dom().contains(s.last().spec_id()) { 0nat } else { 1nat }
    }
}

/// The ids of the records that are new when inserted in order.
pub open spec fn new_ids<T: Store>(m: Map<u128, T>, s: Seq<T>) -> Seq<u128>
    decreases s.len(),
{
    if s.len() == 0 {
        Seq::empty()
    } else {
        let m1 = insert_all(m, s.drop_last());
        let rest = new_ids(m, s.drop_last());
        if m1.dom().contains(s.last().spec_id()) {
            rest
        } else {
            rest.push(s.last().spec_id())
        }
    }
}

/// The position of the peer with this key, if any.
pub open spec fn peer_index(r: Seq<StoreHeadRemote>, key: Seq<char>) -> Option<int> {
    if exists|i: int| 0 <= i < r.len() && r[i].key@ == key {
        Some(choose|i: int| 0 <= i < r.len() && r[i].key@ == key)
    } else {
        None
    }
}

/// Finds the peer with this key.
fn find_remote(remotes: &Vec<StoreHeadRemote>, key: &str) -> (r: Option<usize>)
    requires
        keys_unique(remotes@),
    ensures
        r matches Some(i) ==> i < remotes@.len() && remotes@[i as int].key@ == key@
            && peer_index(remotes@, key@) == Some(i as int),
        r is None ==> peer_index(remotes@, key@) is None,
{
    let mut i: usize = 0;
    while i < remotes.len()
        invariant
            i <= remotes@.len(),
            keys_unique(remotes@),
            forall|j: int| 0 <= j < i ==> remotes@[j].key@ != key@,
        decreases remotes@.len() - i,
    {
        if crate::text::str_eq(remotes[i].key.as_str(), key) {
            proof {
                let j = choose|j: int| 0 <= j < remotes@.len() && remotes@[j].key@ == key@;
                if j != i {
                    assert(remotes@[j].key@ != remotes@[i as int].key@);
                }
            }
            return Some(i);
        }
        i += 1;
    }
    None
}

/// A copy of a peer's state with its fields set as given.
fn remote_with(r: &StoreHeadRemote, tip: [u8; 32], tip_secondary: [u8; 32], cooldown_until: u64, queued: bool) -> (n: StoreHeadRemote)
    ensures
        n == (StoreHeadRemote { key: r.key, tip, tip_secondary, cooldown_until, tip_update_queued: queued }),
{
    StoreHeadRemote { key: r.key.clone(), tip, tip_secondary, cooldown_until, tip_update_queued: queued }
}

/// Runs every watcher on `tip`, queueing the ids of those that are due.
fn run_watchers(watchers: &mut Vec<StoreWatcher>, due: &mut Vec<u128>, tip: [u8; 32])
    ensures
        watchers_ran(old(watchers)@, final(watchers)@, tip@),
        final(due)@ == old(due)@ + due_ids(old(watchers)@, tip@),
{
    let ghost ws = old(watchers)@;
    let ghost d0 = old(due)@;
    let mut k: usize = 0;
    while k < watchers.len()
        invariant
            k <= watchers@.len(),
            watchers@.len() == ws.len(),
            forall|i: int| k <= i < ws.len() ==> #[trigger] watchers@[i] == ws[i],
            forall|i: int|
                0 <= i < k ==> #[trigger] watchers@[i].id == ws[i].id
                    && (watchers@[i].last_hash matches Some(h) && h@ == tip@),
            due@ == d0 + due_ids(ws.subrange(0, k as int), tip@),
        decreases ws.len() - k,
    {
        let mut w = StoreWatcher { id: watchers[k].id, last_hash: watchers[k].last_hash };
        assert(w == ws[k as int]);
        let is_due = w.run(tip);
        let id = w.id;
        assert(w.last_hash matches Some(h) && h@ == tip@);
        let ghost before = watchers@;
        watchers.set(k, w);
        assert(watchers@ == before.update(k as int, w));
        if is_due {
            due.push(id);
        }
        proof {
            assert(ws.subrange(0, k + 1).drop_last() =~= ws.subrange(0, k as int));
            assert(ws.subrange(0, k + 1).last() == ws[k as int]);
        }
        k += 1;
    }
    assert(ws.subrange(0, ws.len() as int) =~= ws);
}

impl<T: Store> StoreHead<T> {
    /// Runs every watcher on the current tip; the ones that are due are queued, in order.
    pub fn watcher_run(&mut self)
        requires
            old(self).wf(),
        ensures
            final(self).hashes_clashed() ==> old(self).hashes_clashed() || !chain_distinct(old(self).spec_name(), final(self).records()),
            final(self).wf(),
            final(self).spec_name() == old(self).spec_name(),
            final(self).records() == old(self).records(),
            final(self).queued() == old(self).queued(),
            final(self).peers() == old(self).peers(),
            final(self).unsaved_ids() == old(self).unsaved_ids(),
            watchers_ran(old(self).watcher_list(), final(self).watcher_list(), old(self).tip()),
            final(self).due_watchers() == old(self).due_watchers() + due_ids(
                old(self).watcher_list(),
                old(self).tip(),
            ),
    {
        let tip = self.hash_tip();
        run_watchers(&mut self.watchers, &mut self.due, tip);
    }

    /// Adds a watcher and runs it at once (it is due, having never run). Returns its id;
    /// [`StoreHead::watcher_remove`] takes it away again.
    pub fn watcher_add(&mut self) -> (id: u128)
        requires
            old(self).wf(),
        ensures
            final(self).hashes_clashed() ==> old(self).hashes_clashed() || !chain_distinct(old(self).spec_name(), final(self).records()),
            final(self).wf(),
            final(self).spec_name() == old(self).spec_name(),
            final(self).records() == old(self).records(),
            final(self).queued() == old(self).queued(),
            final(self).peers() == old(self).peers(),
            final(self).unsaved_ids() == old(self).unsaved_ids(),
            watchers_ran(
                old(self).watcher_list().push(StoreWatcher { id, last_hash: None }),
                final(self).watcher_list(),
                old(self).tip(),
            ),
            final(self).due_watchers() == old(self).due_watchers() + due_ids(
                old(self).watcher_list(),
                old(self).tip(),
            ).push(id),
    {
        let w = StoreWatcher::new();
        let id = w.id;
        self.watchers.push(w);
        let ghost ws = self.watchers@;
        assert(ws.drop_last() =~= old(self).watchers@);
        self.watcher_run();
        id
    }
}


/// A peer's state with its tips, cooldown and flag set as given.
pub open spec fn remote_set(r: StoreHeadRemote, tip: [u8; 32], tip_secondary: [u8; 32], cooldown_until: u64, queued: bool) -> StoreHeadRemote {
    StoreHeadRemote { key: r.key, tip, tip_secondary, cooldown_until, tip_update_queued: queued }
}

/// True when `new` is a fresh peer with this key, claiming the tip `start`.
pub open spec fn is_fresh_peer(new: StoreHeadRemote, key: Seq<char>, start: Seq<u8>, now: u64) -> bool {
    &&& new.key@ == key
    &&& new.tip@ == start
    &&& new.tip_secondary@ == start
    &&& new.cooldown_until == now
    &&& !new.tip_update_queued
}

/// The peers after making sure one has the key `key`: unchanged when it is there, else with
/// a fresh peer appended; the fresh peer is `fresh`.
pub open spec fn peers_with(peers: Seq<StoreHeadRemote>, key: Seq<char>, fresh: StoreHeadRemote) -> Seq<StoreHeadRemote> {
    if peer_index(peers, key) is Some {
        peers
    } else {
        peers.push(fresh)
    }
}

/// The position of the peer with key `key` in `peers_with(..)`.
pub open spec fn peer_slot(peers: Seq<StoreHeadRemote>, key: Seq<char>) -> int {
    match peer_index(peers, key) {
        Some(i) => i,
        None => peers.len() as int,
    }
}

/// The watchers other than the one with this id, in order.
pub open spec fn without_watcher(ws: Seq<StoreWatcher>, id: u128) -> Seq<StoreWatcher>
    decreases ws.len(),
{
    if ws.len() == 0 {
        ws
    } else {
        let rest = without_watcher(ws.drop_last(), id);
        if ws.last().id != id {
            rest.push(ws.last())
        } else {
            rest
        }
    }
}

/// Removes the peer at `i`, keeping the others in order.
fn remove_remote(remotes: &mut Vec<StoreHeadRemote>, i: usize)
    requires
        i < old(remotes)@.len(),
        keys_unique(old(remotes)@),
    ensures
        final(remotes)@ == old(remotes)@.remove(i as int),
        keys_unique(final(remotes)@),
{
    remotes.remove(i);
    proof {
        let o = old(remotes)@;
        let n = remotes@;
        assert forall|a: int, b: int| 0 <= a < b < n.len() implies n[a].key@ != n[b].key@ by {
            let a0 = if a < i { a } else { a + 1 };
            let b0 = if b < i { b } else { b + 1 };
            assert(n[a] == o[a0] && n[b] == o[b0]);
        }
    }
}

impl<T: Store> StoreHead<T> {
    /// Takes away the watcher with this id, if there is one.
    pub fn watcher_remove(&mut self, id: u128)
        requires
            old(self).wf(),
        ensures
            final(self).hashes_clashed() == old(self).hashes_clashed(),
            final(self).wf(),
            final(self).spec_name() == old(self).spec_name(),
            final(self).records() == old(self).records(),
            final(self).queued() == old(self).queued(),
            final(self).peers() == old(self).peers(),
            final(self).unsaved_ids() == old(self).unsaved_ids(),
            final(self).due_watchers() == old(self).due_watchers(),
            final(self).watcher_list() == without_watcher(old(self).watcher_list(), id),
    {
        let ghost ws = self.watchers@;
        let mut kept: Vec<StoreWatcher> = Vec::new();
        let mut k: usize = 0;
        while k < self.watchers.len()
            invariant
                k <= self.watchers@.len(),
                self.watchers@ == ws,
                kept@ == without_watcher(ws.subrange(0, k as int), id),
            decreases ws.len() - k,
        {
            let w = StoreWatcher { id: self.watchers[k].id, last_hash: self.watchers[k].last_hash };
            proof {
                assert(ws.subrange(0, k + 1).drop_last() =~= ws.subrange(0, k as int));
            }
            if w.id != id {
                kept.push(w);
            }
            k += 1;
        }
        assert(ws.subrange(0, ws.len() as int) =~= ws);
        self.watchers = kept;
    }

    /// Hands out the ids of the watchers that are due, oldest first, and forgets them.
    pub fn take_due(&mut self) -> (r: Vec<u128>)
        requires
            old(self).wf(),
        ensures
            final(self).hashes_clashed() == old(self).hashes_clashed(),
            final(self).wf(),
            r@ == old(self).due_watchers(),
            final(self).due_watchers() == Seq::<u128>::empty(),
            final(self).spec_name() == old(self).spec_name(),
            final(self).records() == old(self).records(),
            final(self).queued() == old(self).queued(),
            final(self).peers() == old(self).peers(),
            final(self).unsaved_ids() == old(self).unsaved_ids(),
            final(self).watcher_list() == old(self).watcher_list(),
    {
        let mut r: Vec<u128> = Vec::new();
        std::mem::swap(&mut r, &mut self.due);
        r
    }

    /// Hands out the ids of the records inserted since the last call, in insertion order,
    /// so that they can be appended to the head's file.
    pub fn take_unsaved(&mut self) -> (r: Vec<u128>)
        requires
            old(self).wf(),
        ensures
            final(self).hashes_clashed() == old(self).hashes_clashed(),
            final(self).wf(),
            r@ == old(self).unsaved_ids(),
            final(self).unsaved_ids() == Seq::<u128>::empty(),
            final(self).spec_name() == old(self).spec_name(),
            final(self).records() == old(self).records(),
            final(self).queued() == old(self).queued(),
            final(self).peers() == old(self).peers(),
            final(self).due_watchers() == old(self).due_watchers(),
            final(self).watcher_list() == old(self).watcher_list(),
    {
        let mut r: Vec<u128> = Vec::new();
        std::mem::swap(&mut r, &mut self.unsaved);
        r
    }

    /// Queues a record for the next [`StoreHead::step`].
    pub fn queue(&mut self, msg: T)
        requires
            old(self).wf(),
        ensures
            final(self).hashes_clashed() == old(self).hashes_clashed(),
            final(self).wf(),
            final(self).queued() == old(self).queued().push(msg),
            final(self).spec_name() == old(self).spec_name(),
            final(self).records() == old(self).records(),
            final(self).peers() == old(self).peers(),
            final(self).unsaved_ids() == old(self).unsaved_ids(),
            final(self).due_watchers() == old(self).due_watchers(),
            final(self).watcher_list() == old(self).watcher_list(),
    {
        self.pending.push(msg);
    }

    /// Inserts a record unless the head has one with its id; returns whether it did. An
    /// insertion resets every peer's cooldown to the time `now` and runs the watchers.
    pub fn insert_at(&mut self, msg: T, now: u64) -> (inserted: bool)
        requires
            old(self).wf(),
        ensures
            final(self).hashes_clashed() ==> old(self).hashes_clashed() || !chain_distinct(old(self).spec_name(), final(self).records()),
            final(self).wf(),
            inserted == !old(self).contents().dom().contains(msg.spec_id()),
            inserted ==> final(self).contents() == old(self).contents().insert(msg.spec_id(), msg),
            inserted ==> final(self).records().len() == old(self).records().len() + 1,
            !inserted ==> final(self).records() == old(self).records(),
            inserted ==> cooldowns_reset(old(self).peers(), final(self).peers(), now),
            !inserted ==> final(self).peers() == old(self).peers(),
            inserted ==> final(self).unsaved_ids() == old(self).unsaved_ids().push(msg.spec_id()),
            !inserted ==> final(self).unsaved_ids() == old(self).unsaved_ids(),
            inserted ==> watchers_ran(old(self).watcher_list(), final(self).watcher_list(), final(self).tip()),
            inserted ==> final(self).due_watchers() == old(self).due_watchers() + due_ids(
                old(self).watcher_list(),
                final(self).tip(),
            ),
            !inserted ==> final(self).watcher_list() == old(self).watcher_list(),
            !inserted ==> final(self).due_watchers() == old(self).due_watchers(),
            final(self).spec_name() == old(self).spec_name(),
            final(self).queued() == old(self).queued(),
    {
        let id = msg.id();
        if !self.insert_apply(msg, now) {
            return false;
        }
        self.unsaved.push(id);
        self.watcher_run();
        true
    }

    /// [`StoreHead::insert_at`] at the current time.
    pub fn insert(&mut self, msg: T) -> (inserted: bool)
        requires
            old(self).wf(),
        ensures
            final(self).hashes_clashed() ==> old(self).hashes_clashed() || !chain_distinct(old(self).spec_name(), final(self).records()),
            final(self).wf(),
            inserted == !old(self).contents().dom().contains(msg.spec_id()),
            inserted ==> final(self).contents() == old(self).contents().insert(msg.spec_id(), msg),
            inserted ==> final(self).records().len() == old(self).records().len() + 1,
            !inserted ==> final(self).records() == old(self).records(),
            !inserted ==> final(self).peers() == old(self).peers(),
            inserted ==> final(self).unsaved_ids() == old(self).unsaved_ids().push(msg.spec_id()),
            !inserted ==> final(self).unsaved_ids() == old(self).unsaved_ids(),
            inserted ==> final(self).due_watchers() == old(self).due_watchers() + due_ids(
                old(self).watcher_list(),
                final(self).tip(),
            ),
            !inserted ==> final(self).due_watchers() == old(self).due_watchers(),
            final(self).spec_name() == old(self).spec_name(),
            final(self).queued() == old(self).queued(),
    {
        let now = now_millis();
        self.insert_at(msg, now)
    }

    /// Inserts the queued records in order, each unless its id is there; returns how many
    /// were new. When any was, the watchers run once.
    pub fn step_at(&mut self, now: u64) -> (inserted: usize)
        requires
            old(self).wf(),
        ensures
            final(self).hashes_clashed() ==> old(self).hashes_clashed() || !chain_distinct(old(self).spec_name(), final(self).records()),
            final(self).wf(),
            final(self).contents() == insert_all(old(self).contents(), old(self).queued()),
            inserted == count_new(old(self).contents(), old(self).queued()),
            final(self).unsaved_ids() == old(self).unsaved_ids() + new_ids(old(self).contents(), old(self).queued()),
            final(self).queued() == Seq::<T>::empty(),
            inserted > 0 ==> cooldowns_reset(old(self).peers(), final(self).peers(), now),
            inserted == 0 ==> final(self).peers() == old(self).peers(),
            inserted > 0 ==> final(self).due_watchers() == old(self).due_watchers() + due_ids(
                old(self).watcher_list(),
                final(self).tip(),
            ),
            inserted == 0 ==> final(self).due_watchers() == old(self).due_watchers(),
            inserted == 0 ==> final(self).watcher_list() == old(self).watcher_list(),
            final(self).spec_name() == old(self).spec_name(),
    {
        let ghost q = self.pending@;
        let ghost m0 = self.contents();
        let ghost p0 = self.remotes@;
        let qlen = self.pending.len();
        let mut pending: Vec<T> = Vec::new();
        std::mem::swap(&mut pending, &mut self.pending);
        // reverse, so that popping yields the records in queue order
        let mut rev: Vec<T> = Vec::new();
        while pending.len() > 0
            invariant
                pending@ + rev@.reverse() == q,
            decreases pending@.len(),
        {
            let ghost before = pending@;
            let x = pending.pop().unwrap();
            rev.push(x);
            proof {
                assert(rev@.reverse() =~= seq![x] + rev@.drop_last().reverse());
                assert(before =~= pending@.push(x));
            }
        }
        assert(rev@.reverse() =~= q);
        let mut count: usize = 0;
        let ghost done: int = 0;
        while rev.len() > 0
            invariant
                self.wf(),
                rev@.reverse() == q.subrange(done, q.len() as int),
                0 <= done <= q.len(),
                self.contents() == insert_all(m0, q.subrange(0, done)),
                count == count_new(m0, q.subrange(0, done)),
                count <= done,
                self.unsaved@ == old(self).unsaved@ + new_ids(m0, q.subrange(0, done)),
                count > 0 ==> cooldowns_reset(p0, self.remotes@, now),
                count == 0 ==> self.remotes@ == p0,
                self.pending@ == Seq::<T>::empty(),
                q.len() <= usize::MAX,
                self.spec_name() == old(self).spec_name(),
                self.watcher_list() == old(self).watcher_list(),
                self.due_watchers() == old(self).due_watchers(),
                self.clashed == old(self).clashed,
            decreases rev@.len(),
        {
            let ghost r0 = rev@;
            assert(r0.reverse().len() == r0.len());
            assert(done < q.len());
            assert(r0.reverse()[0] == r0[r0.len() - 1]);
            assert(q.subrange(done, q.len() as int)[0] == q[done]);
            let x = rev.pop().unwrap();
            proof {
                assert(rev@.reverse() =~= r0.reverse().drop_first());
                assert(q.subrange(0, done + 1).drop_last() =~= q.subrange(0, done));
                assert(q[done] == x);
                assert(q.subrange(0, done + 1).last() == x);
            }
            let id = x.id();
            let ghost rem_before = self.remotes@;
            if self.insert_apply(x, now) {
                self.unsaved.push(id);
                count += 1;
                proof {
                    if count > 1 {
                        assert forall|i: int| 0 <= i < p0.len() implies #[trigger] self.remotes@[i] == (StoreHeadRemote { cooldown_until: now, ..p0[i] }) by {
                            assert(self.remotes@[i] == (StoreHeadRemote { cooldown_until: now, ..rem_before[i] }));
                        }
                    }
                }
            }
            proof {
                done = done + 1;
                assert(rev@.reverse() =~= q.subrange(done, q.len() as int));
            }
        }
        assert(q.subrange(0, q.len() as int) =~= q);
        if count > 0 {
            self.watcher_run();
        }
        count
    }

    /// [`StoreHead::step_at`] at the current time.
    pub fn step(&mut self) -> (inserted: usize)
        requires
            old(self).wf(),
        ensures
            final(self).hashes_clashed() ==> old(self).hashes_clashed() || !chain_distinct(old(self).spec_name(), final(self).records()),
            final(self).wf(),
            final(self).contents() == insert_all(old(self).contents(), old(self).queued()),
            inserted == count_new(old(self).contents(), old(self).queued()),
            final(self).unsaved_ids() == old(self).unsaved_ids() + new_ids(old(self).contents(), old(self).queued()),
            final(self).queued() == Seq::<T>::empty(),
            inserted == 0 ==> final(self).peers() == old(self).peers(),
            inserted > 0 ==> final(self).due_watchers() == old(self).due_watchers() + due_ids(
                old(self).watcher_list(),
                final(self).tip(),
            ),
            inserted == 0 ==> final(self).due_watchers() == old(self).due_watchers(),
            final(self).spec_name() == old(self).spec_name(),
    {
        let now = now_millis();
        self.step_at(now)
    }
}


impl<T: Store> StoreHead<T> {
    /// Adds a peer with this key unless there is one; a new peer claims `tip`, or, when
    /// none is given, the tip of an empty head of this name, and has no cooldown.
    pub fn remote_add_at(&mut self, key: String, tip: Option<[u8; 32]>, now: u64)
        requires
            old(self).wf(),
        ensures
            final(self).hashes_clashed() == old(self).hashes_clashed(),
            final(self).wf(),
            peer_index(old(self).peers(), key@) is Some ==> final(self).peers() == old(self).peers(),
            peer_index(old(self).peers(), key@) is None ==> final(self).peers().len() == old(self).peers().len() + 1
                && final(self).peers().drop_last() == old(self).peers()
                && is_fresh_peer(
                    final(self).peers().last(),
                    key@,
                    match tip {
                        Some(t) => t@,
                        None => chain_start(old(self).spec_name()),
                    },
                    now,
                ),
            final(self).spec_name() == old(self).spec_name(),
            final(self).records() == old(self).records(),
            final(self).queued() == old(self).queued(),
            final(self).unsaved_ids() == old(self).unsaved_ids(),
            final(self).due_watchers() == old(self).due_watchers(),
            final(self).watcher_list() == old(self).watcher_list(),
    {
        if find_remote(&self.remotes, key.as_str()).is_some() {
            return;
        }
        let t = match tip {
            Some(t) => t,
            None => self.hash_start(),
        };
        let ghost k = key@;
        self.remotes.push(StoreHeadRemote::new(key, t, now));
        proof {
            let r = self.remotes@;
            assert forall|i: int, j: int| 0 <= i < j < r.len() implies r[i].key@ != r[j].key@ by {
                if j == r.len() - 1 {
                    assert(r[j].key@ == k);
                    if r[i].key@ == k {
                        assert(exists|x: int| 0 <= x < old(self).remotes@.len() && old(self).remotes@[x].key@ == k);
                    }
                }
            }
            assert(r.drop_last() =~= old(self).remotes@);
        }
    }

    /// [`StoreHead::remote_add_at`] at the current time.
    pub fn remote_add(&mut self, key: String, tip: Option<[u8; 32]>)
        requires
            old(self).wf(),
        ensures
            final(self).hashes_clashed() == old(self).hashes_clashed(),
            final(self).wf(),
            peer_index(old(self).peers(), key@) is Some ==> final(self).peers() == old(self).peers(),
            peer_index(old(self).peers(), key@) is None ==> final(self).peers().len() == old(self).peers().len() + 1
                && final(self).peers().drop_last() == old(self).peers()
                && final(self).peers().last().key@ == key@
                && final(self).peers().last().tip@ == match tip {
                    Some(t) => t@,
                    None => chain_start(old(self).spec_name()),
                },
            final(self).spec_name() == old(self).spec_name(),
            final(self).records() == old(self).records(),
            final(self).queued() == old(self).queued(),
            final(self).unsaved_ids() == old(self).unsaved_ids(),
            final(self).due_watchers() == old(self).due_watchers(),
            final(self).watcher_list() == old(self).watcher_list(),
    {
        let now = now_millis();
        self.remote_add_at(key, tip, now)
    }

    /// Forgets the peer with this key, if there is one.
    pub fn remote_drop(&mut self, key: &str)
        requires
            old(self).wf(),
        ensures
            final(self).hashes_clashed() == old(self).hashes_clashed(),
            final(self).wf(),
            match peer_index(old(self).peers(), key@) {
                Some(i) => final(self).peers() == old(self).peers().remove(i),
                None => final(self).peers() == old(self).peers(),
            },
            final(self).spec_name() == old(self).spec_name(),
            final(self).records() == old(self).records(),
            final(self).queued() == old(self).queued(),
            final(self).unsaved_ids() == old(self).unsaved_ids(),
            final(self).due_watchers() == old(self).due_watchers(),
            final(self).watcher_list() == old(self).watcher_list(),
    {
        if let Some(i) = find_remote(&self.remotes, key) {
            remove_remote(&mut self.remotes, i);
        }
    }

    /// Handles a command that the peer `from` sent: the peer is added if it is new, its
    /// cooldown is set to `now`, and then a tip is recorded, or a record inserted; an
    /// inserted record owes the peer our tip and runs the watchers.
    pub fn rx_at(&mut self, from: &str, cmd: HeadCommand<T>, now: u64)
        requires
            old(self).wf(),
        ensures
            final(self).hashes_clashed() ==> old(self).hashes_clashed() || !chain_distinct(old(self).spec_name(), final(self).records()),
            final(self).wf(),
            final(self).spec_name() == old(self).spec_name(),
            final(self).queued() == old(self).queued(),
            ({
                let i = peer_slot(old(self).peers(), from@);
                let known = peer_index(old(self).peers(), from@) is Some;
                let o = old(self).peers();
                let n = final(self).peers();
                let inserted = match cmd {
                    HeadCommand::Put(msg) => !old(self).contents().dom().contains(msg.spec_id()),
                    _ => false,
                };
                let start = chain_start(old(self).spec_name());
                &&& n.len() == if known { o.len() } else { o.len() + 1 }
                &&& forall|j: int| 0 <= j < o.len() && j != i ==> #[trigger] n[j] == (if inserted {
                    StoreHeadRemote { cooldown_until: now, ..o[j] }
                } else {
                    o[j]
                })
                &&& n[i].key@ == from@
                &&& n[i].cooldown_until == now
                &&& n[i].tip@ == match cmd {
                    HeadCommand::Tip(t) => t@,
                    _ => if known { o[i].tip@ } else { start },
                }
                &&& n[i].tip_secondary@ == match cmd {
                    HeadCommand::TipSecondary(t) => t@,
                    _ => if known { o[i].tip_secondary@ } else { start },
                }
                &&& n[i].tip_update_queued == (inserted || (known && o[i].tip_update_queued))
                &&& match cmd {
                    HeadCommand::Put(msg) => {
                        &&& inserted ==> final(self).contents() == old(self).contents().insert(msg.spec_id(), msg)
                            && final(self).unsaved_ids() == old(self).unsaved_ids().push(msg.spec_id())
                            && final(self).due_watchers() == old(self).due_watchers() + due_ids(
                                old(self).watcher_list(),
                                final(self).tip(),
                            )
                        &&& !inserted ==> final(self).records() == old(self).records()
                            && final(self).unsaved_ids() == old(self).unsaved_ids()
                            && final(self).due_watchers() == old(self).due_watchers()
                    },
                    _ => final(self).records() == old(self).records()
                        && final(self).unsaved_ids() == old(self).unsaved_ids()
                        && final(self).due_watchers() == old(self).due_watchers(),
                }
            }),
    {
        let ghost p0 = self.remotes@;
        let idx = match find_remote(&self.remotes, from) {
            Some(i) => i,
            None => {
                let start = self.hash_start();
                self.remote_add_at(String::from_str(from), Some(start), now);
                self.remotes.len() - 1
            },
        };
        let ghost p1 = self.remotes@;
        assert(idx == peer_slot(p0, from@));
        let r = remote_with(&self.remotes[idx], self.remotes[idx].tip, self.remotes[idx].tip_secondary, now, self.remotes[idx].tip_update_queued);
        self.set_remote(idx, r);
        match cmd {
            HeadCommand::Tip(t) => {
                let r = remote_with(&self.remotes[idx], t, self.remotes[idx].tip_secondary, now, self.remotes[idx].tip_update_queued);
                self.set_remote(idx, r);
            },
            HeadCommand::TipSecondary(t) => {
                let r = remote_with(&self.remotes[idx], self.remotes[idx].tip, t, now, self.remotes[idx].tip_update_queued);
                self.set_remote(idx, r);
            },
            HeadCommand::Put(msg) => {
                let id = msg.id();
                let ghost p2 = self.remotes@;
                if self.insert_apply(msg, now) {
                    let r = remote_with(&self.remotes[idx], self.remotes[idx].tip, self.remotes[idx].tip_secondary, self.remotes[idx].cooldown_until, true);
                    self.set_remote(idx, r);
                    self.unsaved.push(id);
                    self.watcher_run();
                }
            },
        }
    }

    /// Replaces the peer at `i` with one of the same key.
    fn set_remote(&mut self, i: usize, r: StoreHeadRemote)
        requires
            old(self).wf(),
            i < old(self).peers().len(),
            r.key@ == old(self).peers()[i as int].key@,
        ensures
            final(self).clashed == old(self).clashed,
            final(self).wf(),
            final(self).peers() == old(self).peers().update(i as int, r),
            final(self).spec_name() == old(self).spec_name(),
            final(self).records() == old(self).records(),
            final(self).queued() == old(self).queued(),
            final(self).unsaved_ids() == old(self).unsaved_ids(),
            final(self).due_watchers() == old(self).due_watchers(),
            final(self).watcher_list() == old(self).watcher_list(),
    {
        self.remotes.set(i, r);
        proof {
            let o = old(self).remotes@;
            let n = self.remotes@;
            assert forall|a: int, b: int| 0 <= a < b < n.len() implies n[a].key@ != n[b].key@ by {
                assert(n[a].key@ == o[a].key@);
                assert(n[b].key@ == o[b].key@);
            }
        }
    }

    /// [`StoreHead::rx_at`] at the current time.
    pub fn rx(&mut self, from: &str, cmd: HeadCommand<T>)
        requires
            old(self).wf(),
        ensures
            final(self).hashes_clashed() ==> old(self).hashes_clashed() || !chain_distinct(old(self).spec_name(), final(self).records()),
            final(self).wf(),
            final(self).spec_name() == old(self).spec_name(),
            final(self).queued() == old(self).queued(),
            final(self).peers()[peer_slot(old(self).peers(), from@)].key@ == from@,
            match cmd {
                HeadCommand::Tip(t) => final(self).peers()[peer_slot(old(self).peers(), from@)].tip == t
                    && final(self).records() == old(self).records(),
                HeadCommand::TipSecondary(t) => final(self).peers()[peer_slot(old(self).peers(), from@)].tip_secondary == t
                    && final(self).records() == old(self).records(),
                HeadCommand::Put(msg) => if !old(self).contents().dom().contains(msg.spec_id()) {
                    final(self).contents() == old(self).contents().insert(msg.spec_id(), msg)
                        && final(self).peers()[peer_slot(old(self).peers(), from@)].tip_update_queued
                } else {
                    final(self).records() == old(self).records()
                },
            },
    {
        let now = now_millis();
        self.rx_at(from, cmd, now)
    }
}



} // verus!
verus! {

/// What a head sends one peer in a sync round.
pub enum TxItem {
    /// The record at this position.
    Put(int),
    /// Our tip.
    Tip,
    /// The chain hash of the record at this position.
    TipSecondary(int),
}

/// How long (ms) a head waits before it sends a peer another batch.
pub open spec fn sync_cooldown_ms() -> int {
    300_000
}

/// The chain hash of the record at position `k`: the hash of it and all records before it.
pub open spec fn entry_hash<T: Store>(name: Seq<char>, s: Seq<T>, k: int) -> Seq<u8> {
    chain_hash(name, s, k + 1)
}

/// The position of the record whose cached chain hash is `h`, when the cache holds `h`.
pub open spec fn cache_lookup<T: Store>(s: Seq<T>, c: Map<u128, Seq<u8>>, h: Seq<u8>) -> Option<int> {
    if exists|id: u128| #[trigger] c.dom().contains(id) && c[id] == h {
        let id = choose|id: u128| #[trigger] c.dom().contains(id) && c[id] == h;
        Some(choose|p: int| 0 <= p < s.len() && #[trigger] s[p].spec_id() == id)
    } else {
        None
    }
}

/// What the cache finds is a record's position, and the chain hash there is the one looked up.
proof fn lemma_cache_lookup<T: Store>(name: Seq<char>, s: Seq<T>, c: Map<u128, Seq<u8>>, h: Seq<u8>)
    requires
        cache_ok(name, s, c),
    ensures
        cache_lookup(s, c, h) matches Some(k) ==> 0 <= k < s.len() && entry_hash(name, s, k) == h,
{
    if exists|id: u128| #[trigger] c.dom().contains(id) && c[id] == h {
        let id = choose|id: u128| #[trigger] c.dom().contains(id) && c[id] == h;
        assert(has_id(s, id));
        let p = choose|p: int| 0 <= p < s.len() && #[trigger] s[p].spec_id() == id;
        assert(0 <= p < s.len() && s[p].spec_id() == id);
        assert(c.dom().contains(s[p].spec_id()));
    }
}

/// Puts of the records at positions `from..to`, in order.
pub open spec fn puts_range(from: int, to: int) -> Seq<TxItem> {
    Seq::new(if to > from { (to - from) as nat } else { 0 }, |j: int| TxItem::Put(from + j))
}

/// Puts of the newest records (up to four), newest first, then of up to twelve records
/// in the random `order`.
pub open spec fn puts_catch_up(n: int, order: Seq<usize>) -> Seq<TxItem> {
    Seq::new(if n < 4 { n as nat } else { 4 }, |j: int| TxItem::Put(n - 1 - j))
        + Seq::new(if n < 12 { n as nat } else { 12 }, |j: int| TxItem::Put(order[j] as int))
}

/// The batch of records for a peer whose tip differs from ours, and the position of the
/// last record of a batch that extends a tip the peer shares with us.
pub open spec fn batch_for<T: Store>(name: Seq<char>, s: Seq<T>, r: StoreHeadRemote, order: Seq<usize>, c: Map<u128, Seq<u8>>) -> (Seq<TxItem>, Option<int>) {
    let n = s.len() as int;
    let tip = chain_hash(name, s, n);
    if r.tip_secondary@ == tip {
        (Seq::empty(), None)
    } else if r.tip@ == chain_start(name) {
        let to = if n < 8 { n } else { 8 };
        (puts_range(0, to), if to > 0 { Some(to - 1) } else { None })
    } else {
        match cache_lookup(s, c, r.tip@) {
            Some(k) => {
                let to = if n < k + 9 { n } else { k + 9 };
                (puts_range(k + 1, to), if to > k + 1 { Some(to - 1) } else { None })
            },
            None => (puts_catch_up(n, order), None),
        }
    }
}

/// What a head sends one peer in a sync round at time `now`, the peer's new state, and
/// the position of the last record of its batch when the peer is owed its chain hash.
pub open spec fn remote_plan<T: Store>(name: Seq<char>, s: Seq<T>, r: StoreHeadRemote, now: u64, order: Seq<usize>, c: Map<u128, Seq<u8>>) -> (Seq<TxItem>, StoreHeadRemote, Option<int>) {
    let tip = chain_hash(name, s, s.len() as int);
    let pre = if r.tip_update_queued { seq![TxItem::Tip] } else { Seq::empty() };
    let r1 = StoreHeadRemote { tip_update_queued: false, ..r };
    if r.tip@ == tip || now < r.cooldown_until {
        (pre, r1, None)
    } else {
        let (batch, last) = batch_for(name, s, r, order, c);
        let until = if now + sync_cooldown_ms() > u64::MAX { u64::MAX } else { (now + sync_cooldown_ms()) as u64 };
        (pre + batch + seq![TxItem::Tip], StoreHeadRemote { cooldown_until: until, ..r1 }, last)
    }
}

/// The plan of a sync round over the first `i` peers: what is sent, to which peer (by
/// position), the peers' new states, and the chain hashes owed.
pub open spec fn plan_upto<T: Store>(name: Seq<char>, s: Seq<T>, rs: Seq<StoreHeadRemote>, now: u64, order: Seq<usize>, c: Map<u128, Seq<u8>>, i: int) -> (Seq<(int, TxItem)>, Seq<StoreHeadRemote>, Seq<(int, int)>)
    decreases i,
{
    if i <= 0 || i > rs.len() {
        (Seq::empty(), Seq::empty(), Seq::empty())
    } else {
        let (sent, peers, owed) = plan_upto(name, s, rs, now, order, c, i - 1);
        let (items, r2, last) = remote_plan(name, s, rs[i - 1], now, order, c);
        (
            sent + items.map_values(|x: TxItem| (i - 1, x)),
            peers.push(r2),
            match last {
                Some(k) => owed.push((i - 1, k)),
                None => owed,
            },
        )
    }
}

/// The chain hashes owed, for those that differ from our tip.
pub open spec fn owed_items<T: Store>(name: Seq<char>, s: Seq<T>, owed: Seq<(int, int)>) -> Seq<(int, TxItem)>
    decreases owed.len(),
{
    if owed.len() == 0 {
        Seq::empty()
    } else {
        let rest = owed_items(name, s, owed.drop_last());
        let (ri, k) = owed.last();
        if chain_hash(name, s, k + 1) != chain_hash(name, s, s.len() as int) {
            rest.push((ri, TxItem::TipSecondary(k)))
        } else {
            rest
        }
    }
}

/// Everything a sync round sends, by peer position.
pub open spec fn tx_items<T: Store>(name: Seq<char>, s: Seq<T>, rs: Seq<StoreHeadRemote>, now: u64, order: Seq<usize>, c: Map<u128, Seq<u8>>) -> Seq<(int, TxItem)> {
    let (sent, _, owed) = plan_upto(name, s, rs, now, order, c, rs.len() as int);
    sent + owed_items(name, s, owed)
}

/// True when the command is what the plan item says, for a head holding `s`.
pub open spec fn command_is<T: Store>(name: Seq<char>, s: Seq<T>, cmd: HeadCommand<T>, item: TxItem) -> bool {
    match item {
        TxItem::Put(k) => cmd matches HeadCommand::Put(x) && 0 <= k < s.len() && x == s[k],
        TxItem::Tip => cmd matches HeadCommand::Tip(t) && t@ == chain_hash(name, s, s.len() as int),
        TxItem::TipSecondary(k) => cmd matches HeadCommand::TipSecondary(t) && t@ == chain_hash(name, s, k + 1),
    }
}

/// True when `out` sends exactly the planned items, each to its peer's key.
pub open spec fn sends_plan<T: Store>(name: Seq<char>, s: Seq<T>, rs: Seq<StoreHeadRemote>, out: Seq<(String, HeadCommand<T>)>, plan: Seq<(int, TxItem)>) -> bool {
    &&& out.len() == plan.len()
    &&& forall|m: int|
        0 <= m < out.len() ==> 0 <= (#[trigger] plan[m]).0 < rs.len() && out[m].0@ == rs[plan[m].0].key@
            && command_is(name, s, out[m].1, plan[m].1)
}


/// True when `new` is `old` followed by the commands of `items`, each sent to `key`.
pub open spec fn appended<T: Store>(name: Seq<char>, s: Seq<T>, old: Seq<(String, HeadCommand<T>)>, new: Seq<(String, HeadCommand<T>)>, key: Seq<char>, items: Seq<TxItem>) -> bool {
    &&& new.len() == old.len() + items.len()
    &&& new.subrange(0, old.len() as int) == old
    &&& forall|j: int|
        0 <= j < items.len() ==> (#[trigger] new[old.len() + j]).0@ == key && command_is(
            name,
            s,
            new[old.len() + j].1,
            items[j],
        )
}

proof fn lemma_appended_trans<T: Store>(name: Seq<char>, s: Seq<T>, a: Seq<(String, HeadCommand<T>)>, b: Seq<(String, HeadCommand<T>)>, c: Seq<(String, HeadCommand<T>)>, key: Seq<char>, i1: Seq<TxItem>, i2: Seq<TxItem>)
    requires
        appended(name, s, a, b, key, i1),
        appended(name, s, b, c, key, i2),
    ensures
        appended(name, s, a, c, key, i1 + i2),
{
    assert(c.subrange(0, a.len() as int) =~= a) by {
        assert forall|x: int| 0 <= x < a.len() implies c[x] == a[x] by {
            assert(c.subrange(0, b.len() as int)[x] == b[x]);
            assert(b.subrange(0, a.len() as int)[x] == a[x]);
        }
    }
    assert forall|j: int| 0 <= j < (i1 + i2).len() implies (#[trigger] c[a.len() + j]).0@ == key
        && command_is(name, s, c[a.len() + j].1, (i1 + i2)[j]) by {
        if j < i1.len() {
            assert(c.subrange(0, b.len() as int)[a.len() + j] == b[a.len() + j]);
            assert(b[a.len() + j].0@ == key);
        } else {
            let j2 = j - i1.len();
            assert(c[b.len() + j2] == c[a.len() + j]);
        }
    }
}

proof fn lemma_appended_nothing<T: Store>(name: Seq<char>, s: Seq<T>, a: Seq<(String, HeadCommand<T>)>, key: Seq<char>, items: Seq<TxItem>)
    requires
        items.len() == 0,
    ensures
        appended(name, s, a, a, key, items),
{
    assert(a.subrange(0, a.len() as int) =~= a);
}

/// Sends `cmd` to `key`.
fn push_cmd<T: Store>(out: &mut Vec<(String, HeadCommand<T>)>, key: &String, cmd: HeadCommand<T>, Ghost(name): Ghost<Seq<char>>, Ghost(s): Ghost<Seq<T>>, Ghost(item): Ghost<TxItem>)
    requires
        command_is(name, s, cmd, item),
    ensures
        appended(name, s, old(out)@, final(out)@, key@, seq![item]),
{
    out.push((key.clone(), cmd));
    proof {
        let o = old(out)@;
        assert(out@.subrange(0, o.len() as int) =~= o);
        assert(out@[o.len() + 0int] == out@[o.len() as int]);
    }
}

/// Sends the records at positions `from..to` to `key`, in order.
fn push_puts_range<T: Store>(out: &mut Vec<(String, HeadCommand<T>)>, key: &String, msgs: &Vec<T>, from: usize, to: usize, Ghost(name): Ghost<Seq<char>>)
    requires
        from <= to <= msgs@.len(),
    ensures
        appended(name, msgs@, old(out)@, final(out)@, key@, puts_range(from as int, to as int)),
{
    let ghost o = old(out)@;
    proof { lemma_appended_nothing(name, msgs@, o, key@, puts_range(from as int, from as int)); }
    let mut k = from;
    while k < to
        invariant
            from <= k <= to <= msgs@.len(),
            appended(name, msgs@, o, out@, key@, puts_range(from as int, k as int)),
        decreases to - k,
    {
        let ghost before = out@;
        let x = msgs[k].duplicate();
        push_cmd(out, key, HeadCommand::Put(x), Ghost(name), Ghost(msgs@), Ghost(TxItem::Put(k as int)));
        proof {
            lemma_appended_trans(name, msgs@, o, before, out@, key@, puts_range(from as int, k as int), seq![TxItem::Put(k as int)]);
            assert(puts_range(from as int, k as int) + seq![TxItem::Put(k as int)] =~= puts_range(from as int, k + 1));
        }
        k += 1;
    }
}

/// Sends a peer that has fallen off the chain the newest records (up to four, newest first)
/// and up to twelve records in the random `order`.
fn push_catch_up<T: Store>(out: &mut Vec<(String, HeadCommand<T>)>, key: &String, msgs: &Vec<T>, order: &Vec<usize>, Ghost(name): Ghost<Seq<char>>)
    requires
        is_permutation_of_range(order@, msgs@.len() as int),
    ensures
        appended(name, msgs@, old(out)@, final(out)@, key@, puts_catch_up(msgs@.len() as int, order@)),
{
    let ghost o = old(out)@;
    let n = msgs.len();
    let newest: usize = if n < 4 { n } else { 4 };
    let ghost first = Seq::new(newest as nat, |j: int| TxItem::Put(n - 1 - j));
    proof { lemma_appended_nothing(name, msgs@, o, key@, Seq::new(0, |x: int| TxItem::Put(n - 1 - x))); }
    let mut j: usize = 0;
    while j < newest
        invariant
            j <= newest <= n == msgs@.len(),
            newest == if n < 4 { n } else { 4 },
            appended(name, msgs@, o, out@, key@, Seq::new(j as nat, |x: int| TxItem::Put(n - 1 - x))),
        decreases newest - j,
    {
        let ghost before = out@;
        let x = msgs[n - 1 - j].duplicate();
        push_cmd(out, key, HeadCommand::Put(x), Ghost(name), Ghost(msgs@), Ghost(TxItem::Put(n - 1 - j)));
        proof {
            lemma_appended_trans(name, msgs@, o, before, out@, key@, Seq::new(j as nat, |x: int| TxItem::Put(n - 1 - x)), seq![TxItem::Put(n - 1 - j)]);
            assert(Seq::new(j as nat, |x: int| TxItem::Put(n - 1 - x)) + seq![TxItem::Put(n - 1 - j)] =~= Seq::new((j + 1) as nat, |x: int| TxItem::Put(n - 1 - x)));
        }
        j += 1;
    }
    let ghost mid = out@;
    let random: usize = if n < 12 { n } else { 12 };
    proof { lemma_appended_nothing(name, msgs@, mid, key@, Seq::new(0, |x: int| TxItem::Put(order@[x] as int))); }
    let mut j: usize = 0;
    while j < random
        invariant
            j <= random <= n == msgs@.len(),
            random == if n < 12 { n } else { 12 },
            is_permutation_of_range(order@, n as int),
            appended(name, msgs@, mid, out@, key@, Seq::new(j as nat, |x: int| TxItem::Put(order@[x] as int))),
        decreases random - j,
    {
        let ghost before = out@;
        let k = order[j];
        let x = msgs[k].duplicate();
        push_cmd(out, key, HeadCommand::Put(x), Ghost(name), Ghost(msgs@), Ghost(TxItem::Put(k as int)));
        proof {
            lemma_appended_trans(name, msgs@, mid, before, out@, key@, Seq::new(j as nat, |x: int| TxItem::Put(order@[x] as int)), seq![TxItem::Put(k as int)]);
            assert(Seq::new(j as nat, |x: int| TxItem::Put(order@[x] as int)) + seq![TxItem::Put(k as int)] =~= Seq::new((j + 1) as nat, |x: int| TxItem::Put(order@[x] as int)));
        }
        j += 1;
    }
    proof {
        lemma_appended_trans(name, msgs@, o, mid, out@, key@, first, Seq::new(random as nat, |x: int| TxItem::Put(order@[x] as int)));
        assert(first + Seq::new(random as nat, |x: int| TxItem::Put(order@[x] as int)) =~= puts_catch_up(n as int, order@));
    }
}



/// Appends the batch of records for the peer `r` (at position `i`), whose tip differs from
/// ours, and records the chain hash it is owed. `found` is the last position whose chain
/// hash is the peer's tip, when that is looked up.
fn plan_batch<T: Store>(msgs: &Vec<T>, r: &StoreHeadRemote, i: usize, tip: &[u8; 32], start: &[u8; 32], found: Option<usize>, order: &Vec<usize>, out: &mut Vec<(String, HeadCommand<T>)>, owed: &mut Vec<(usize, usize)>, Ghost(name): Ghost<Seq<char>>, Ghost(c): Ghost<Map<u128, Seq<u8>>>)
    requires
        tip@ == chain_hash(name, msgs@, msgs@.len() as int),
        start@ == chain_start(name),
        cache_ok(name, msgs@, c),
        r.tip_secondary@ != tip@ && r.tip@ != start@ ==> match found {
            Some(k) => cache_lookup(msgs@, c, r.tip@) == Some(k as int),
            None => cache_lookup(msgs@, c, r.tip@) is None,
        },
        is_permutation_of_range(order@, msgs@.len() as int),
    ensures
        ({
            let (batch, last) = batch_for(name, msgs@, *r, order@, c);
            &&& appended(name, msgs@, old(out)@, final(out)@, r.key@, batch)
            &&& owed_view(final(owed)@) == match last {
                Some(k) => owed_view(old(owed)@).push((i as int, k)),
                None => owed_view(old(owed)@),
            }
        }),
{
    let ghost s = msgs@;
    let ghost o = out@;
    let ghost ow = owed@;
    let n = msgs.len();
    if digest_eq(&r.tip_secondary, tip) {
        proof { lemma_appended_nothing(name, s, o, r.key@, Seq::<TxItem>::empty()); }
        return;
    }
    if digest_eq(&r.tip, start) {
        let to: usize = if n < 8 { n } else { 8 };
        push_puts_range(out, &r.key, msgs, 0, to, Ghost(name));
        if to > 0 {
            owed.push((i, to - 1));
            assert(owed_view(owed@) =~= owed_view(ow).push((i as int, to - 1)));
        }
        return;
    }
    match found {
        Some(k) => {
            proof {
                lemma_cache_lookup(name, s, c, r.tip@);
            }
            let to: usize = if n - k < 9 { n } else { k + 9 };
            push_puts_range(out, &r.key, msgs, k + 1, to, Ghost(name));
            if to > k + 1 {
                owed.push((i, to - 1));
                assert(owed_view(owed@) =~= owed_view(ow).push((i as int, to - 1)));
            }
        },
        None => {
            push_catch_up(out, &r.key, msgs, order, Ghost(name));
        },
    }
}

/// The owed chain hashes as positions.
pub open spec fn owed_view(owed: Seq<(usize, usize)>) -> Seq<(int, int)> {
    owed.map_values(|p: (usize, usize)| (p.0 as int, p.1 as int))
}

impl<T: Store> StoreHead<T> {
    /// The position of the record whose cached chain hash is `h`, if the cache holds it.
    fn find_cached(&self, h: &[u8; 32]) -> (r: Option<usize>)
        requires
            self.wf(),
        ensures
            r matches Some(k) ==> cache_lookup(self.records(), hash_pairs(self.hashes), h@) == Some(k as int),
            r is None ==> cache_lookup(self.records(), hash_pairs(self.hashes), h@) is None,
    {
        let ghost c = hash_pairs(self.hashes);
        let ghost s = self.messages@;
        match pairs_get_by_right(&self.hashes, h) {
            None => {
                assert(!exists|id: u128| #[trigger] c.dom().contains(id) && c[id] == h@);
                None
            },
            Some(id) => {
                proof {
                    let id2 = choose|x: u128| #[trigger] c.dom().contains(x) && c[x] == h@;
                    assert(c.dom().contains(id2) && c.dom().contains(id));
                    assert(id2 == id);
                    assert(has_id(s, id));
                }
                match self.index_of(id) {
                    Some(k) => {
                        proof {
                            let p = choose|p: int| 0 <= p < s.len() && #[trigger] s[p].spec_id() == id;
                            assert(0 <= p < s.len() && s[p].spec_id() == id);
                            if p < k {
                                assert(s[p].spec_id() < s[k as int].spec_id());
                            } else if p > k {
                                assert(s[k as int].spec_id() < s[p].spec_id());
                            }
                        }
                        Some(k)
                    },
                    None => {
                        proof {
                            let p = choose|p: int| 0 <= p < s.len() && #[trigger] s[p].spec_id() == id;
                            lemma_contents_at(s, p);
                        }
                        None
                    },
                }
            },
        }
    }

    /// Plans the sync round for the peer at `i`: appends what it is sent, records the chain
    /// hash it is owed, and returns its new state.
    fn plan_one(&self, i: usize, tip: &[u8; 32], start: &[u8; 32], now: u64, order: &Vec<usize>, out: &mut Vec<(String, HeadCommand<T>)>, owed: &mut Vec<(usize, usize)>) -> (r2: StoreHeadRemote)
        requires
            self.wf(),
            i < self.peers().len(),
            tip@ == self.tip(),
            start@ == chain_start(self.spec_name()),
            is_permutation_of_range(order@, self.records().len() as int),
        ensures
            ({
                let (items, r, last) = remote_plan(self.spec_name(), self.records(), self.peers()[i as int], now, order@, hash_pairs(self.hashes));
                &&& appended(self.spec_name(), self.records(), old(out)@, final(out)@, self.peers()[i as int].key@, items)
                &&& r2 == r
                &&& owed_view(final(owed)@) == match last {
                    Some(k) => owed_view(old(owed)@).push((i as int, k)),
                    None => owed_view(old(owed)@),
                }
            }),
    {
        let ghost name = self.name@;
        let ghost s = self.messages@;
        let ghost o = out@;
        let r = &self.remotes[i];
        let ghost pre: Seq<TxItem> = if r.tip_update_queued { seq![TxItem::Tip] } else { Seq::empty() };
        if r.tip_update_queued {
            push_cmd(out, &r.key, HeadCommand::Tip(*tip), Ghost(name), Ghost(s), Ghost(TxItem::Tip));
        } else {
            proof { lemma_appended_nothing(name, s, o, r.key@, pre); }
        }
        let ghost after_pre = out@;
        if digest_eq(&r.tip, tip) || now < r.cooldown_until {
            return remote_with(r, r.tip, r.tip_secondary, r.cooldown_until, false);
        }
        let ghost c = hash_pairs(self.hashes);
        let ghost (batch, last) = batch_for(name, s, *r, order@, c);
        let found = if digest_eq(&r.tip_secondary, tip) || digest_eq(&r.tip, start) {
            None
        } else {
            self.find_cached(&r.tip)
        };
        plan_batch(&self.messages, r, i, tip, start, found, order, out, owed, Ghost(name), Ghost(c));
        let ghost after_batch = out@;
        push_cmd(out, &r.key, HeadCommand::Tip(*tip), Ghost(name), Ghost(s), Ghost(TxItem::Tip));
        proof {
            lemma_appended_trans(name, s, o, after_pre, after_batch, r.key@, pre, batch);
            lemma_appended_trans(name, s, o, after_batch, out@, r.key@, pre + batch, seq![TxItem::Tip]);
        }
        remote_with(r, r.tip, r.tip_secondary, now.saturating_add(300_000), false)
    }
}

/// Extending a plan by what one peer is sent.
proof fn lemma_sends_extend<T: Store>(name: Seq<char>, s: Seq<T>, rs: Seq<StoreHeadRemote>, a: Seq<(String, HeadCommand<T>)>, b: Seq<(String, HeadCommand<T>)>, plan: Seq<(int, TxItem)>, i: int, items: Seq<TxItem>)
    requires
        sends_plan(name, s, rs, a, plan),
        appended(name, s, a, b, rs[i].key@, items),
        0 <= i < rs.len(),
    ensures
        sends_plan(name, s, rs, b, plan + items.map_values(|x: TxItem| (i, x))),
{
    let p2 = plan + items.map_values(|x: TxItem| (i, x));
    assert forall|m: int| 0 <= m < b.len() implies 0 <= (#[trigger] p2[m]).0 < rs.len() && b[m].0@ == rs[p2[m].0].key@
        && command_is(name, s, b[m].1, p2[m].1) by {
        if m < a.len() {
            assert(b.subrange(0, a.len() as int)[m] == a[m]);
            assert(p2[m] == plan[m]);
        } else {
            let j = m - a.len();
            assert(b[a.len() + j] == b[m]);
            assert(p2[m] == (i, items[j]));
        }
    }
}

/// The position a batch owes a chain hash for is a record's.
proof fn lemma_batch_last<T: Store>(name: Seq<char>, s: Seq<T>, r: StoreHeadRemote, order: Seq<usize>, c: Map<u128, Seq<u8>>)
    requires
        cache_ok(name, s, c),
    ensures
        batch_for(name, s, r, order, c).1 matches Some(k) ==> 0 <= k < s.len(),
{
    lemma_cache_lookup(name, s, c, r.tip@);
}

/// Every chain hash the plan owes is for a peer and a record that exist.
proof fn lemma_plan_owed<T: Store>(name: Seq<char>, s: Seq<T>, rs: Seq<StoreHeadRemote>, now: u64, order: Seq<usize>, c: Map<u128, Seq<u8>>, i: int)
    requires
        0 <= i <= rs.len(),
        cache_ok(name, s, c),
    ensures
        forall|x: int| 0 <= x < plan_upto(name, s, rs, now, order, c, i).2.len() ==> {
            let e = #[trigger] plan_upto(name, s, rs, now, order, c, i).2[x];
            0 <= e.0 < i && 0 <= e.1 < s.len()
        },
        plan_upto(name, s, rs, now, order, c, i).1.len() == i,
    decreases i,
{
    if i > 0 {
        lemma_plan_owed(name, s, rs, now, order, c, i - 1);
        lemma_batch_last(name, s, rs[i - 1], order, c);
    }
}

impl<T: Store> StoreHead<T> {
    /// One sync round at time `now`, with `order` as the random order of catch-up batches:
    /// returns the commands to send, each with the key of the peer it is for, and updates
    /// each peer's state (see [`tx_items`] and [`plan_upto`]).
    pub fn tx_at(&mut self, now: u64, order: &Vec<usize>) -> (out: Vec<(String, HeadCommand<T>)>)
        requires
            old(self).wf(),
            is_permutation_of_range(order@, old(self).records().len() as int),
        ensures
            final(self).wf(),
            final(self).spec_name() == old(self).spec_name(),
            final(self).records() == old(self).records(),
            final(self).queued() == old(self).queued(),
            final(self).unsaved_ids() == old(self).unsaved_ids(),
            final(self).due_watchers() == old(self).due_watchers(),
            final(self).watcher_list() == old(self).watcher_list(),
            final(self).hashes_clashed() ==> old(self).hashes_clashed() || !chain_distinct(old(self).spec_name(), old(self).records()),
            exists|c: Map<u128, Seq<u8>>|
                cache_ok(old(self).spec_name(), old(self).records(), c)
                && (!final(self).hashes_clashed() ==> c == full_cache(old(self).spec_name(), old(self).records()))
                && final(self).peers() == plan_upto(
                    old(self).spec_name(),
                    old(self).records(),
                    old(self).peers(),
                    now,
                    order@,
                    c,
                    old(self).peers().len() as int,
                ).1
                && sends_plan(
                    old(self).spec_name(),
                    old(self).records(),
                    old(self).peers(),
                    out@,
                    tx_items(old(self).spec_name(), old(self).records(), old(self).peers(), now, order@, c),
                ),
    {
        let tip = self.hash_tip();
        let start = self.hash_start();
        let ghost name = self.name@;
        let ghost s = self.messages@;
        let ghost rs = self.remotes@;
        let ghost c = hash_pairs(self.hashes);
        let mut out: Vec<(String, HeadCommand<T>)> = Vec::new();
        let mut owed: Vec<(usize, usize)> = Vec::new();
        let mut peers: Vec<StoreHeadRemote> = Vec::new();
        let mut i: usize = 0;
        while i < self.remotes.len()
            invariant
                self.wf(),
                name == self.name@,
                s == self.messages@,
                rs == self.remotes@,
                c == hash_pairs(self.hashes),
                !self.clashed@ ==> c == full_cache(name, s),
                self.clashed@ ==> old(self).clashed@ || !chain_distinct(name, s),
                name == old(self).name@,
                s == old(self).messages@,
                self.queued() == old(self).queued(),
                self.unsaved_ids() == old(self).unsaved_ids(),
                self.due_watchers() == old(self).due_watchers(),
                self.watcher_list() == old(self).watcher_list(),
                tip@ == self.tip(),
                start@ == chain_start(name),
                is_permutation_of_range(order@, s.len() as int),
                i <= rs.len(),
                peers@ == plan_upto(name, s, rs, now, order@, c, i as int).1,
                owed_view(owed@) == plan_upto(name, s, rs, now, order@, c, i as int).2,
                sends_plan(name, s, rs, out@, plan_upto(name, s, rs, now, order@, c, i as int).0),
            decreases rs.len() - i,
        {
            let ghost out0 = out@;
            let r2 = self.plan_one(i, &tip, &start, now, order, &mut out, &mut owed);
            peers.push(r2);
            proof {
                let (items, _, _) = remote_plan(name, s, rs[i as int], now, order@, c);
                lemma_sends_extend(name, s, rs, out0, out@, plan_upto(name, s, rs, now, order@, c, i as int).0, i as int, items);
            }
            i += 1;
        }
        let ghost plan = plan_upto(name, s, rs, now, order@, c, rs.len() as int);
        proof {
            lemma_plan_owed(name, s, rs, now, order@, c, rs.len() as int);
        }
        let mut j: usize = 0;
        while j < owed.len()
            invariant
                self.wf(),
                name == self.name@,
                s == self.messages@,
                rs == self.remotes@,
                !self.clashed@ ==> c == full_cache(name, s),
                self.clashed@ ==> old(self).clashed@ || !chain_distinct(name, s),
                name == old(self).name@,
                s == old(self).messages@,
                self.queued() == old(self).queued(),
                self.unsaved_ids() == old(self).unsaved_ids(),
                self.due_watchers() == old(self).due_watchers(),
                self.watcher_list() == old(self).watcher_list(),
                tip@ == chain_hash(name, s, s.len() as int),
                j <= owed@.len(),
                owed_view(owed@) == plan.2,
                forall|x: int| 0 <= x < plan.2.len() ==> {
                    let e = #[trigger] plan.2[x];
                    0 <= e.0 < rs.len() && 0 <= e.1 < s.len()
                },
                sends_plan(name, s, rs, out@, plan.0 + owed_items(name, s, owed_view(owed@).subrange(0, j as int))),
            decreases owed@.len() - j,
        {
            let (ri, k) = owed[j];
            assert(owed_view(owed@)[j as int] == (ri as int, k as int));
            let ghost before = out@;
            let ghost sub = owed_view(owed@).subrange(0, j as int);
            assert(owed_view(owed@).subrange(0, j + 1).drop_last() =~= sub);
            let h = self.chain_at(k);
            if !digest_eq(&h, &tip) {
                push_cmd(&mut out, &self.remotes[ri].key, HeadCommand::TipSecondary(h), Ghost(name), Ghost(s), Ghost(TxItem::TipSecondary(k as int)));
                proof {
                    lemma_sends_extend(name, s, rs, before, out@, plan.0 + owed_items(name, s, sub), ri as int, seq![TxItem::TipSecondary(k as int)]);
                    assert(plan.0 + owed_items(name, s, sub) + seq![TxItem::TipSecondary(k as int)].map_values(|x: TxItem| (ri as int, x))
                        =~= plan.0 + owed_items(name, s, owed_view(owed@).subrange(0, j + 1)));
                }
            }
            j += 1;
        }
        assert(owed_view(owed@).subrange(0, owed@.len() as int) =~= owed_view(owed@));
        proof {
            let np = peers@;
            assert forall|a: int, b: int| 0 <= a < b < np.len() implies np[a].key@ != np[b].key@ by {
                lemma_plan_keys(name, s, rs, now, order@, c, rs.len() as int);
                assert(np[a].key == rs[a].key);
                assert(np[b].key == rs[b].key);
            }
        }
        self.remotes = peers;
        assert(cache_ok(name, s, c));
        out
    }

    /// One sync round at the current time: [`StoreHead::tx_at`] with a fresh random order
    /// for the catch-up batches.
    pub fn tx(&mut self) -> (out: Vec<(String, HeadCommand<T>)>)
        requires
            old(self).wf(),
        ensures
            final(self).wf(),
            final(self).spec_name() == old(self).spec_name(),
            final(self).records() == old(self).records(),
            final(self).queued() == old(self).queued(),
            final(self).unsaved_ids() == old(self).unsaved_ids(),
            final(self).watcher_list() == old(self).watcher_list(),
            final(self).hashes_clashed() ==> old(self).hashes_clashed() || !chain_distinct(old(self).spec_name(), old(self).records()),
            exists|now: u64, order: Seq<usize>, c: Map<u128, Seq<u8>>|
                is_permutation_of_range(order, old(self).records().len() as int)
                && cache_ok(old(self).spec_name(), old(self).records(), c)
                && (!final(self).hashes_clashed() ==> c == full_cache(old(self).spec_name(), old(self).records()))
                && final(self).peers() == plan_upto(
                    old(self).spec_name(),
                    old(self).records(),
                    old(self).peers(),
                    now,
                    order,
                    c,
                    old(self).peers().len() as int,
                ).1
                && sends_plan(
                    old(self).spec_name(),
                    old(self).records(),
                    old(self).peers(),
                    out@,
                    tx_items(old(self).spec_name(), old(self).records(), old(self).peers(), now, order, c),
                ),
    {
        let now = now_millis();
        let order = shuffled_indices(self.messages.len());
        self.tx_at(now, &order)
    }
}

/// A sync round keeps every peer's key.
proof fn lemma_plan_keys<T: Store>(name: Seq<char>, s: Seq<T>, rs: Seq<StoreHeadRemote>, now: u64, order: Seq<usize>, c: Map<u128, Seq<u8>>, i: int)
    requires
        0 <= i <= rs.len(),
    ensures
        plan_upto(name, s, rs, now, order, c, i).1.len() == i,
        forall|x: int| 0 <= x < i ==> (#[trigger] plan_upto(name, s, rs, now, order, c, i).1[x]).key == rs[x].key,
    decreases i,
{
    if i > 0 {
        lemma_plan_keys(name, s, rs, now, order, c, i - 1);
    }
}

/// The contents after putting the records in order, a later record replacing an earlier
/// one with the same id.
pub open spec fn put_all<T: Store>(m: Map<u128, T>, s: Seq<T>) -> Map<u128, T>
    decreases s.len(),
{
    if s.len() == 0 {
        m
    } else {
        put_all(m, s.drop_last()).insert(s.last().spec_id(), s.last())
    }
}

/// Replacing the record at `p` by one with the same id replaces it in the contents.
proof fn lemma_contents_replace<T: Store>(s: Seq<T>, p: int, x: T)
    requires
        sorted_by_id(s),
        0 <= p < s.len(),
        s[p].spec_id() == x.spec_id(),
    ensures
        sorted_by_id(s.update(p, x)),
        contents_of(s.update(p, x)) == contents_of(s).insert(x.spec_id(), x),
{
    let t = s.update(p, x);
    let m1 = contents_of(t);
    let m2 = contents_of(s).insert(x.spec_id(), x);
    assert forall|id: u128| m1.dom().contains(id) <==> m2.dom().contains(id) by {
        if has_id(t, id) {
            let i = choose|i: int| 0 <= i < t.len() && t[i].spec_id() == id;
            if i != p {
                assert(s[i] == t[i]);
            }
        }
        if has_id(s, id) {
            let i = choose|i: int| 0 <= i < s.len() && s[i].spec_id() == id;
            assert(t[i].spec_id() == s[i].spec_id());
        }
        if id == x.spec_id() {
            assert(t[p] == x);
        }
    }
    assert forall|id: u128| #[trigger] m1.dom().contains(id) implies m1[id] == m2[id] by {
        let i = choose|i: int| 0 <= i < t.len() && t[i].spec_id() == id;
        lemma_contents_at(t, i);
        if i != p {
            assert(t[i] == s[i]);
            lemma_contents_at(s, i);
        }
    }
    assert(m1 =~= m2);
}

impl<T: Store> StoreHead<T> {
    /// Puts a record, replacing any with its id. Used when loading saved records.
    fn put(&mut self, msg: T)
        requires
            old(self).wf(),
        ensures
            final(self).clashed == old(self).clashed,
            final(self).wf(),
            final(self).contents() == old(self).contents().insert(msg.spec_id(), msg),
            final(self).spec_name() == old(self).spec_name(),
            final(self).queued() == old(self).queued(),
            final(self).peers() == old(self).peers(),
            final(self).unsaved_ids() == old(self).unsaved_ids(),
            final(self).due_watchers() == old(self).due_watchers(),
            final(self).watcher_list() == old(self).watcher_list(),
    {
        let id = msg.id();
        let p = self.lower_bound(id);
        let ghost before = self.messages@;
        let ghost c0 = hash_pairs(self.hashes);
        if p < self.messages.len() && self.messages[p].id() == id {
            proof {
                lemma_contents_replace(self.messages@, p as int, msg);
            }
            self.messages.set(p, msg);
        } else {
            proof {
                lemma_contents_insert(self.messages@, p as int, msg);
            }
            self.messages.insert(p, msg);
        }
        pairs_retain_below(&mut self.hashes, id);
        proof {
            lemma_cache_below(self.name@, before, self.messages@, c0, id, p as int);
        }
    }

    /// A head holding the records read back from its file, in the order they were saved;
    /// a later record with an id replaces an earlier one.
    pub fn load(name: String, saved: Vec<T>) -> (r: Self)
        ensures
            r.wf(),
            r.spec_name() == name@,
            r.contents() == put_all(Map::<u128, T>::empty(), saved@),
            r.queued() == Seq::<T>::empty(),
            r.peers() == Seq::<StoreHeadRemote>::empty(),
            r.watcher_list() == Seq::<StoreWatcher>::empty(),
            r.due_watchers() == Seq::<u128>::empty(),
            r.unsaved_ids() == Seq::<u128>::empty(),
            !r.hashes_clashed(),
    {
        let mut head = StoreHead::new(name);
        let ghost q = saved@;
        let mut saved = saved;
        let mut rev: Vec<T> = Vec::new();
        while saved.len() > 0
            invariant
                saved@ + rev@.reverse() == q,
            decreases saved@.len(),
        {
            let ghost before = saved@;
            let x = saved.pop().unwrap();
            rev.push(x);
            proof {
                assert(rev@.reverse() =~= seq![x] + rev@.drop_last().reverse());
                assert(before =~= saved@.push(x));
            }
        }
        assert(rev@.reverse() =~= q);
        let ghost done: int = 0;
        assert(contents_of(head.messages@) =~= Map::<u128, T>::empty());
        while rev.len() > 0
            invariant
                head.wf(),
                rev@.reverse() == q.subrange(done, q.len() as int),
                0 <= done <= q.len(),
                head.contents() == put_all(Map::<u128, T>::empty(), q.subrange(0, done)),
                head.spec_name() == name@,
                head.queued() == Seq::<T>::empty(),
                head.peers() == Seq::<StoreHeadRemote>::empty(),
                head.watcher_list() == Seq::<StoreWatcher>::empty(),
                head.due_watchers() == Seq::<u128>::empty(),
                head.unsaved_ids() == Seq::<u128>::empty(),
                !head.hashes_clashed(),
            decreases rev@.len(),
        {
            let ghost r0 = rev@;
            assert(r0.reverse().len() == r0.len());
            assert(done < q.len());
            assert(r0.reverse()[0] == r0[r0.len() - 1]);
            assert(q.subrange(done, q.len() as int)[0] == q[done]);
            let x = rev.pop().unwrap();
            proof {
                assert(rev@.reverse() =~= r0.reverse().drop_first());
                assert(q.subrange(0, done + 1).drop_last() =~= q.subrange(0, done));
                assert(q.subrange(0, done + 1).last() == x);
            }
            head.put(x);
            proof {
                done = done + 1;
                assert(rev@.reverse() =~= q.subrange(done, q.len() as int));
            }
        }
        assert(q.subrange(0, q.len() as int) =~= q);
        head
    }
}

/// Dropping the last record of an id-ordered sequence drops its id from the contents.
proof fn lemma_contents_drop_last<T: Store>(s: Seq<T>)
    requires
        sorted_by_id(s),
        s.len() > 0,
    ensures
        contents_of(s.drop_last()) == contents_of(s).remove(s.last().spec_id()),
{
    let t = s.drop_last();
    let m1 = contents_of(t);
    let m2 = contents_of(s).remove(s.last().spec_id());
    assert forall|id: u128| m1.dom().contains(id) <==> m2.dom().contains(id) by {
        if has_id(t, id) {
            let i = choose|i: int| 0 <= i < t.len() && t[i].spec_id() == id;
            assert(s[i] == t[i]);
            assert(s[i].spec_id() < s.last().spec_id());
        }
        if has_id(s, id) && id != s.last().spec_id() {
            let i = choose|i: int| 0 <= i < s.len() && s[i].spec_id() == id;
            assert(i != s.len() - 1);
            assert(t[i] == s[i]);
        }
    }
    assert forall|id: u128| #[trigger] m1.dom().contains(id) implies m1[id] == m2[id] by {
        let i = choose|i: int| 0 <= i < t.len() && t[i].spec_id() == id;
        lemma_contents_at(t, i);
        lemma_contents_at(s, i);
    }
    assert(m1 =~= m2);
}

/// Two id-ordered sequences with the same contents are the same sequence.
pub proof fn lemma_sorted_contents_unique<T: Store>(s1: Seq<T>, s2: Seq<T>)
    requires
        sorted_by_id(s1),
        sorted_by_id(s2),
        contents_of(s1) == contents_of(s2),
    ensures
        s1 == s2,
    decreases s1.len() + s2.len(),
{
    if s1.len() == 0 && s2.len() == 0 {
        assert(s1 =~= s2);
    } else if s1.len() == 0 {
        lemma_contents_at(s2, 0);
    } else if s2.len() == 0 {
        lemma_contents_at(s1, 0);
    } else {
        let a = s1.last();
        let b = s2.last();
        lemma_contents_at(s1, s1.len() - 1);
        lemma_contents_at(s2, s2.len() - 1);
        let j = choose|j: int| 0 <= j < s2.len() && s2[j].spec_id() == a.spec_id();
        let k = choose|k: int| 0 <= k < s1.len() && s1[k].spec_id() == b.spec_id();
        if j < s2.len() - 1 {
            assert(s2[j].spec_id() < b.spec_id());
        }
        if k < s1.len() - 1 {
            assert(s1[k].spec_id() < a.spec_id());
        }
        assert(a.spec_id() == b.spec_id());
        lemma_contents_drop_last(s1);
        lemma_contents_drop_last(s2);
        lemma_sorted_contents_unique(s1.drop_last(), s2.drop_last());
        assert(s1 =~= s2.drop_last().push(b));
        assert(s2 =~= s2.drop_last().push(b));
    }
}

/// Heads that hold the same records have the same tip, whatever order the records came
/// in: the tip is a function of the head's name and contents.
pub proof fn law_tip_depends_only_on_contents<T: Store>(a: &StoreHead<T>, b: &StoreHead<T>)
    requires
        a.wf(),
        b.wf(),
        a.spec_name() == b.spec_name(),
        a.contents() == b.contents(),
    ensures
        a.records() == b.records(),
        a.tip() == b.tip(),
{
    lemma_sorted_contents_unique(a.records(), b.records());
}

/// Loading a head's records, in the order the head keeps them, gives back its contents:
/// what a head saves is what it restores.
pub proof fn law_load_restores_contents<T: Store>(h: &StoreHead<T>)
    requires
        h.wf(),
    ensures
        put_all(Map::<u128, T>::empty(), h.records()) == h.contents(),
{
    lemma_put_all_sorted(h.records());
}

/// A head loaded from the records another head saved, under the same name, holds the same
/// records in the same order and has the same tip.
pub proof fn law_reload_keeps_records_and_tip<T: Store>(h: &StoreHead<T>, loaded: &StoreHead<T>)
    requires
        h.wf(),
        loaded.wf(),
        loaded.spec_name() == h.spec_name(),
        loaded.contents() == put_all(Map::<u128, T>::empty(), h.records()),
    ensures
        loaded.records() == h.records(),
        loaded.tip() == h.tip(),
{
    law_load_restores_contents(h);
    law_tip_depends_only_on_contents(loaded, h);
}

proof fn lemma_put_all_sorted<T: Store>(s: Seq<T>)
    requires
        sorted_by_id(s),
    ensures
        put_all(Map::<u128, T>::empty(), s) == contents_of(s),
    decreases s.len(),
{
    if s.len() == 0 {
        assert(contents_of(s) =~= Map::<u128, T>::empty());
    } else {
        let t = s.drop_last();
        assert(sorted_by_id(t));
        lemma_put_all_sorted(t);
        lemma_contents_drop_last(s);
        lemma_contents_at(s, s.len() - 1);
        assert(contents_of(s) =~= contents_of(s).remove(s.last().spec_id()).insert(s.last().spec_id(), s.last()));
    }
}

} // verus!

verus! {

/// What a head holds after receiving these records, one after another, as `Put`s: a
/// record whose id it lacks is added; one whose id it already holds changes nothing.
pub open spec fn receive_all<T: Store>(m: Map<u128, T>, s: Seq<T>) -> Map<u128, T>
    decreases s.len(),
{
    if s.len() == 0 {
        m
    } else {
        let m1 = receive_all(m, s.drop_last());
        if m1.dom().contains(s.last().spec_id()) {
            m1
        } else {
            m1.insert(s.last().spec_id(), s.last())
        }
    }
}

/// True when every record of `s` is the record `src` holds under its id.
pub open spec fn drawn_from<T: Store>(s: Seq<T>, src: Map<u128, T>) -> bool {
    forall|i: int| 0 <= i < s.len() ==> src.dom().contains(#[trigger] s[i].spec_id()) && src[s[i].spec_id()] == s[i]
}

proof fn lemma_receive_all<T: Store>(m: Map<u128, T>, s: Seq<T>, src: Map<u128, T>)
    requires
        drawn_from(s, src),
    ensures
        forall|k: u128| #[trigger] receive_all(m, s).dom().contains(k) <==> (m.dom().contains(k) || has_id(s, k)),
        forall|k: u128| #[trigger] receive_all(m, s).dom().contains(k) ==> receive_all(m, s)[k] == if m.dom().contains(k) {
            m[k]
        } else {
            src[k]
        },
    decreases s.len(),
{
    if s.len() == 0 {
        assert forall|k: u128| !has_id(s, k) by {}
    } else {
        let t = s.drop_last();
        assert forall|i: int| 0 <= i < t.len() implies src.dom().contains(#[trigger] t[i].spec_id()) && src[t[i].spec_id()] == t[i] by {
            assert(t[i] == s[i]);
        }
        lemma_receive_all(m, t, src);
        let last = s.last();
        let id = last.spec_id();
        let m1 = receive_all(m, t);
        assert(s[s.len() - 1] == last);
        assert(src.dom().contains(id) && src[id] == last);
        assert(receive_all(m, s) == if m1.dom().contains(id) { m1 } else { m1.insert(id, last) });
        assert forall|k: u128| has_id(s, k) <==> (has_id(t, k) || id == k) by {
            if has_id(s, k) {
                let i = choose|i: int| 0 <= i < s.len() && s[i].spec_id() == k;
                if i < s.len() - 1 {
                    assert(t[i] == s[i]);
                }
            }
            if has_id(t, k) {
                let i = choose|i: int| 0 <= i < t.len() && t[i].spec_id() == k;
                assert(s[i] == t[i]);
            }
            if id == k {
                assert(s[s.len() - 1].spec_id() == k);
            }
        }
        assert forall|k: u128| #[trigger] receive_all(m, s).dom().contains(k) <==> (m.dom().contains(k) || has_id(s, k)) by {
            assert(m1.dom().contains(k) <==> (m.dom().contains(k) || has_id(t, k)));
        }
        assert forall|k: u128| #[trigger] receive_all(m, s).dom().contains(k) implies receive_all(m, s)[k] == if m.dom().contains(k) {
            m[k]
        } else {
            src[k]
        } by {
            if m1.dom().contains(k) {
                assert(receive_all(m, s)[k] == m1[k]);
            } else {
                assert(k == id);
                assert(!m.dom().contains(k));
            }
        }
    }
}

/// Once each of two heads has received every record of the other, in any order and any
/// number of times, both hold the same records, as long as no id names two different
/// records; heads that hold the same records have the same tip
/// (`law_tip_depends_only_on_contents`), so syncing has then converged.
pub proof fn law_exchange_converges<T: Store>(a: Map<u128, T>, b: Map<u128, T>, from_a: Seq<T>, from_b: Seq<T>)
    requires
        forall|k: u128| a.dom().contains(k) && b.dom().contains(k) ==> a[k] == b[k],
        drawn_from(from_a, a),
        forall|k: u128| a.dom().contains(k) ==> has_id(from_a, k),
        drawn_from(from_b, b),
        forall|k: u128| b.dom().contains(k) ==> has_id(from_b, k),
    ensures
        receive_all(a, from_b) == receive_all(b, from_a),
{
    lemma_receive_all(a, from_b, b);
    lemma_receive_all(b, from_a, a);
    let l = receive_all(a, from_b);
    let r = receive_all(b, from_a);
    assert forall|k: u128| has_id(from_b, k) implies b.dom().contains(k) by {
        let i = choose|i: int| 0 <= i < from_b.len() && from_b[i].spec_id() == k;
        assert(b.dom().contains(from_b[i].spec_id()));
    }
    assert forall|k: u128| has_id(from_a, k) implies a.dom().contains(k) by {
        let i = choose|i: int| 0 <= i < from_a.len() && from_a[i].spec_id() == k;
        assert(a.dom().contains(from_a[i].spec_id()));
    }
    assert forall|k: u128| #[trigger] l.dom().contains(k) <==> r.dom().contains(k) by {
        assert(l.dom().contains(k) <==> (a.dom().contains(k) || has_id(from_b, k)));
        assert(r.dom().contains(k) <==> (b.dom().contains(k) || has_id(from_a, k)));
    }
    assert forall|k: u128| #[trigger] l.dom().contains(k) implies l[k] == r[k] by {
        assert(r.dom().contains(k));
    }
    assert(l =~= r);
}

/// What a sync round sends goes only to the head's peers, and every record it puts is one
/// the head holds.
pub proof fn law_sync_sends_held_records_to_peers<T: Store>(
    name: Seq<char>,
    s: Seq<T>,
    rs: Seq<StoreHeadRemote>,
    out: Seq<(String, HeadCommand<T>)>,
    plan: Seq<(int, TxItem)>,
)
    requires
        sends_plan(name, s, rs, out, plan),
    ensures
        forall|m: int| #![trigger out[m]] 0 <= m < out.len() ==> rs.map_values(|r: StoreHeadRemote| r.key@).contains(out[m].0@),
        forall|m: int| #![trigger out[m]] 0 <= m < out.len() ==> (out[m].1 matches HeadCommand::Put(x)
            ==> exists|k: int| 0 <= k < s.len() && x == s[k]),
{
    assert forall|m: int| #![trigger out[m]] 0 <= m < out.len() implies rs.map_values(|r: StoreHeadRemote| r.key@).contains(out[m].0@)
        && (out[m].1 matches HeadCommand::Put(x) ==> exists|k: int| 0 <= k < s.len() && x == s[k]) by {
        let e = plan[m];
        let i = e.0;
        assert(0 <= i < rs.len() && out[m].0@ == rs[i].key@);
        assert(command_is(name, s, out[m].1, e.1));
        assert(rs.map_values(|r: StoreHeadRemote| r.key@)[i] == out[m].0@);
    }
}

/// A peer whose tip is the chain hash at one of our records other than the last, and that
/// is due a batch, is sent the records after that one (up to eight), in order, then our
/// tip, and is owed the chain hash at the last record sent: so it is when no two chain
/// hashes of our records coincide and the cache holds them all, as after a tip is worked
/// out.
pub proof fn law_peer_behind_gets_next_records<T: Store>(
    name: Seq<char>,
    s: Seq<T>,
    r: StoreHeadRemote,
    now: u64,
    order: Seq<usize>,
    k: int,
)
    requires
        sorted_by_id(s),
        chain_distinct(name, s),
        0 <= k < s.len() - 1,
        r.tip@ == chain_hash(name, s, k + 1),
        r.tip_secondary@ != chain_hash(name, s, s.len() as int),
        now >= r.cooldown_until,
        !r.tip_update_queued,
    ensures
        ({
            let n = s.len() as int;
            let to = if n < k + 9 { n } else { k + 9 };
            &&& remote_plan(name, s, r, now, order, full_cache(name, s)).0 == puts_range(k + 1, to).push(TxItem::Tip)
            &&& remote_plan(name, s, r, now, order, full_cache(name, s)).2 == Some(to - 1)
        }),
{
    let n = s.len() as int;
    let c = full_cache(name, s);
    let h = chain_hash(name, s, k + 1);
    assert(chain_hash(name, s, 0) != chain_hash(name, s, k + 1));
    assert(chain_hash(name, s, k + 1) != chain_hash(name, s, n));
    assert(chain_hash(name, s, 0) == chain_start(name));
    let idk = s[k].spec_id();
    assert(has_id(s, idk));
    let pk = choose|p: int| 0 <= p < s.len() && s[p].spec_id() == idk;
    if pk < k {
        assert(s[pk].spec_id() < s[k].spec_id());
    } else if pk > k {
        assert(s[k].spec_id() < s[pk].spec_id());
    }
    assert(c.dom().contains(idk) && c[idk] == h);
    assert(exists|id: u128| #[trigger] c.dom().contains(id) && c[id] == h);
    let id = choose|id: u128| #[trigger] c.dom().contains(id) && c[id] == h;
    let p0 = choose|p: int| 0 <= p < s.len() && s[p].spec_id() == id;
    assert(c[id] == chain_hash(name, s, p0 + 1));
    if p0 < k {
        assert(chain_hash(name, s, p0 + 1) != chain_hash(name, s, k + 1));
    } else if p0 > k {
        assert(chain_hash(name, s, k + 1) != chain_hash(name, s, p0 + 1));
    }
    assert(id == idk);
    assert(cache_lookup(s, c, h) == Some(k));
    let to = if n < k + 9 { n } else { k + 9 };
    assert(batch_for(name, s, r, order, c) == (puts_range(k + 1, to), Some(to - 1)));
    assert(Seq::<TxItem>::empty() + puts_range(k + 1, to) + seq![TxItem::Tip] =~= puts_range(k + 1, to).push(TxItem::Tip));
}

/// What a sync round plans for the first `i` peers is addressed to those peers.
proof fn lemma_plan_peers_below<T: Store>(name: Seq<char>, s: Seq<T>, rs: Seq<StoreHeadRemote>, now: u64, order: Seq<usize>, c: Map<u128, Seq<u8>>, i: int)
    requires
        0 <= i <= rs.len(),
    ensures
        forall|k: int| 0 <= k < plan_upto(name, s, rs, now, order, c, i).0.len()
            ==> 0 <= (#[trigger] plan_upto(name, s, rs, now, order, c, i).0[k]).0 < i,
    decreases i,
{
    if i > 0 {
        lemma_plan_peers_below(name, s, rs, now, order, c, i - 1);
        let prev = plan_upto(name, s, rs, now, order, c, i - 1).0;
        let items = remote_plan(name, s, rs[i - 1], now, order, c).0;
        let cur = plan_upto(name, s, rs, now, order, c, i).0;
        assert(cur == prev + items.map_values(|x: TxItem| (i - 1, x)));
        assert forall|k: int| 0 <= k < cur.len() implies 0 <= (#[trigger] cur[k]).0 < i by {
            if k < prev.len() {
                assert(cur[k] == prev[k]);
            } else {
                assert(cur[k] == (i - 1, items[k - prev.len()]));
            }
        }
    }
}

/// A sync round's plan for more peers extends its plan for fewer.
proof fn lemma_plan_prefix<T: Store>(name: Seq<char>, s: Seq<T>, rs: Seq<StoreHeadRemote>, now: u64, order: Seq<usize>, c: Map<u128, Seq<u8>>, i: int, j: int)
    requires
        0 <= i <= j <= rs.len(),
    ensures
        plan_upto(name, s, rs, now, order, c, i).0.len() <= plan_upto(name, s, rs, now, order, c, j).0.len(),
        forall|k: int| 0 <= k < plan_upto(name, s, rs, now, order, c, i).0.len()
            ==> #[trigger] plan_upto(name, s, rs, now, order, c, j).0[k] == plan_upto(name, s, rs, now, order, c, i).0[k],
    decreases j - i,
{
    if i < j {
        lemma_plan_prefix(name, s, rs, now, order, c, i, j - 1);
        let prev = plan_upto(name, s, rs, now, order, c, j - 1).0;
        let items = remote_plan(name, s, rs[j - 1], now, order, c).0;
        assert(plan_upto(name, s, rs, now, order, c, j).0 == prev + items.map_values(|x: TxItem| (j - 1, x)));
    }
}

/// After a peer sent us a new record, the next sync round sends it our tip before anything
/// else it sends that peer.
pub proof fn law_owed_tip_sent_first_in_round<T: Store>(
    name: Seq<char>,
    s: Seq<T>,
    rs: Seq<StoreHeadRemote>,
    now: u64,
    order: Seq<usize>,
    c: Map<u128, Seq<u8>>,
    i: int,
)
    requires
        0 <= i < rs.len(),
        rs[i].tip_update_queued,
    ensures
        exists|m: int|
            0 <= m < tx_items(name, s, rs, now, order, c).len()
                && #[trigger] tx_items(name, s, rs, now, order, c)[m] == (i, TxItem::Tip)
                && forall|k: int| 0 <= k < m ==> (#[trigger] tx_items(name, s, rs, now, order, c)[k]).0 != i,
{
    let n = rs.len() as int;
    let before = plan_upto(name, s, rs, now, order, c, i).0;
    let items = remote_plan(name, s, rs[i], now, order, c).0;
    let upto = plan_upto(name, s, rs, now, order, c, i + 1).0;
    let all = plan_upto(name, s, rs, now, order, c, n).0;
    let tx = tx_items(name, s, rs, now, order, c);
    law_owed_tip_goes_first(name, s, rs[i], now, order, c);
    lemma_plan_peers_below(name, s, rs, now, order, c, i);
    lemma_plan_prefix(name, s, rs, now, order, c, i, n);
    lemma_plan_prefix(name, s, rs, now, order, c, i + 1, n);
    assert(upto == before + items.map_values(|x: TxItem| (i, x)));
    let m = before.len() as int;
    assert(upto[m] == (i, TxItem::Tip));
    assert(all[m] == (i, TxItem::Tip));
    assert(tx == all + owed_items(name, s, plan_upto(name, s, rs, now, order, c, n).2));
    assert(tx[m] == (i, TxItem::Tip));
    assert forall|k: int| 0 <= k < m implies (#[trigger] tx[k]).0 != i by {
        assert(all[k] == before[k]);
        assert(tx[k] == all[k]);
        assert(0 <= before[k].0 < i);
    }
}

/// A peer owed our tip is sent it first in the next sync round, before anything else:
/// after it sent us a new record, its next round starts with our tip.
pub proof fn law_owed_tip_goes_first<T: Store>(
    name: Seq<char>,
    s: Seq<T>,
    r: StoreHeadRemote,
    now: u64,
    order: Seq<usize>,
    c: Map<u128, Seq<u8>>,
)
    requires
        r.tip_update_queued,
    ensures
        remote_plan(name, s, r, now, order, c).0.len() > 0,
        remote_plan(name, s, r, now, order, c).0[0] == TxItem::Tip,
        !remote_plan(name, s, r, now, order, c).1.tip_update_queued,
{
}

} // verus!
