//! The cache a store head keeps of its chain hashes: a bimap (`bimap::BiHashMap`) from
//! record ids to the chain hash at each record, so that a hash can also be looked up by
//! value. It is used through the wrappers below, whose contracts say what the crate's
//! source does to the pairs it holds.
use vstd::prelude::*;

verus! {

/// A bimap (`bimap::BiHashMap`): pairs in which no left and no right value occurs twice.
#[verifier::external_type_specification]
#[verifier::external_body]
#[verifier::reject_recursive_types(L)]
#[verifier::reject_recursive_types(R)]
#[verifier::reject_recursive_types(LS)]
#[verifier::reject_recursive_types(RS)]
pub struct ExBiHashMap<L, R, LS, RS>(bimap::BiHashMap<L, R, LS, RS>);

/// A bimap of record ids and their chain hashes.
pub type ChainHashes = bimap::BiHashMap<u128, [u8; 32]>;

/// The pairs a bimap of record ids and chain hashes holds, as a map from id to hash.
pub uninterp spec fn hash_pairs(m: ChainHashes) -> Map<u128, Seq<u8>>;

/// The pairs of `m` without those whose value is `v`.
pub open spec fn without_value(m: Map<u128, Seq<u8>>, v: Seq<u8>) -> Map<u128, Seq<u8>> {
    Map::new(|k: u128| m.dom().contains(k) && m[k] != v, |k: u128| m[k])
}

/// The pairs of `m` whose id is below `bound`.
pub open spec fn below(m: Map<u128, Seq<u8>>, bound: u128) -> Map<u128, Seq<u8>> {
    Map::new(|k: u128| m.dom().contains(k) && k < bound, |k: u128| m[k])
}

/// `BiHashMap::new`: a bimap with no pairs.
#[verifier::external_body]
pub(crate) fn pairs_new() -> (r: ChainHashes)
    ensures
        forall|id: u128| !(#[trigger] hash_pairs(r).dom().contains(id)),
{
    bimap::BiHashMap::new()
}

/// `BiHashMap::get_by_left`: the hash paired with an id, if any.
#[verifier::external_body]
pub(crate) fn pairs_get_by_left(m: &ChainHashes, id: u128) -> (r: Option<[u8; 32]>)
    ensures
        match r {
            Some(h) => hash_pairs(*m).dom().contains(id) && hash_pairs(*m)[id] == h@,
            None => !hash_pairs(*m).dom().contains(id),
        },
{
    m.get_by_left(&id).copied()
}

/// `BiHashMap::get_by_right`: the id paired with a hash, if any.
#[verifier::external_body]
pub(crate) fn pairs_get_by_right(m: &ChainHashes, h: &[u8; 32]) -> (r: Option<u128>)
    ensures
        match r {
            Some(id) => hash_pairs(*m).dom().contains(id) && hash_pairs(*m)[id] == h@,
            None => forall|id: u128| #[trigger] hash_pairs(*m).dom().contains(id) ==> hash_pairs(*m)[id] != h@,
        },
{
    m.get_by_right(h).copied()
}

/// `BiHashMap::insert`: the pair goes in, after any pair with the same id and any pair
/// with the same hash have left.
#[verifier::external_body]
pub(crate) fn pairs_insert(m: &mut ChainHashes, id: u128, h: [u8; 32])
    ensures
        hash_pairs(*final(m)) == without_value(hash_pairs(*old(m)), h@).insert(id, h@),
{
    m.insert(id, h);
}

/// True when `id` is below `bound`.
pub(crate) fn id_below(id: &u128, bound: u128) -> (r: bool)
    ensures
        r == (*id < bound),
{
    *id < bound
}

/// `BiHashMap::retain`, keeping the pairs whose id is below `bound`.
#[verifier::external_body]
pub(crate) fn pairs_retain_below(m: &mut ChainHashes, bound: u128)
    ensures
        hash_pairs(*final(m)) == below(hash_pairs(*old(m)), bound),
{
    m.retain(|id, _| id_below(id, bound));
}

} // verus!
