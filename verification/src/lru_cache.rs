//! The `lru` crate's cache, holding reassembled messages by message id.

use vstd::prelude::*;
use lru::LruCache;

verus! {

#[verifier::external_type_specification]
#[verifier::external_body]
#[verifier::reject_recursive_types(K)]
#[verifier::reject_recursive_types(V)]
#[verifier::reject_recursive_types(S)]
pub struct ExLruCache<K, V, S>(LruCache<K, V, S>);

#[verifier::external_type_specification]
#[verifier::external_body]
pub struct ExLruDefaultHasher(lru::DefaultHasher);

/// A cache of reassembled messages keyed by message id.
pub type MessageCache = LruCache<String, Vec<u8>>;

/// What a cache of messages holds: message id to message bytes.
pub uninterp spec fn lru_entries(c: MessageCache) -> Map<Seq<char>, Seq<u8>>;

/// The capacity a cache of messages was made with.
pub uninterp spec fn lru_capacity(c: MessageCache) -> nat;

/// `LruCache::new(NonZeroUsize::new(cap))`: an empty cache holding at most
/// `cap` entries.
#[verifier::external_body]
pub(crate) fn lru_new(cap: usize) -> (r: MessageCache)
    requires
        cap > 0,
    ensures
        lru_entries(r).dom() == Set::<Seq<char>>::empty(),
        lru_capacity(r) == cap,
{
    LruCache::new(std::num::NonZeroUsize::new(cap).unwrap())
}

/// `LruCache::get` followed by a copy of the value: the entry for `key`, if
/// any. Only the recency order changes, not the entries.
#[verifier::external_body]
pub(crate) fn lru_get(c: &mut MessageCache, key: &String) -> (r: Option<Vec<u8>>)
    ensures
        lru_entries(*final(c)) == lru_entries(*old(c)),
        lru_capacity(*final(c)) == lru_capacity(*old(c)),
        r is Some <==> lru_entries(*old(c)).dom().contains(key@),
        r matches Some(v) ==> v@ == lru_entries(*old(c))[key@],
{
    c.get(key).cloned()
}

/// How a put of `value` under `key` changes the entries `before` of a cache
/// of capacity `cap` into `after`: an existing entry for the key is replaced;
/// otherwise, in a full cache, one other entry is evicted first.
pub open spec fn put_outcome(
    before: Map<Seq<char>, Seq<u8>>,
    cap: nat,
    key: Seq<char>,
    value: Seq<u8>,
    after: Map<Seq<char>, Seq<u8>>,
) -> bool {
    if before.dom().contains(key) || before.len() < cap {
        after == before.insert(key, value)
    } else {
        exists|evicted: Seq<char>|
            #![trigger before.remove(evicted)]
            evicted != key && before.dom().contains(evicted) && after == before.remove(evicted).insert(key, value)
    }
}

/// `LruCache::put`: stores `value` under `key`. An existing entry for the key
/// is replaced; otherwise, in a full cache, the least recently used entry is
/// evicted first (which one that is the contract leaves open).
#[verifier::external_body]
pub(crate) fn lru_put(c: &mut MessageCache, key: String, value: Vec<u8>)
    ensures
        lru_capacity(*final(c)) == lru_capacity(*old(c)),
        put_outcome(lru_entries(*old(c)), lru_capacity(*old(c)), key@, value@, lru_entries(*final(c))),
{
    c.put(key, value);
}

/// `LruCache::len`: the number of entries.
#[verifier::external_body]
pub(crate) fn lru_len(c: &MessageCache) -> (r: usize)
    ensures
        r == lru_entries(*c).len(),
{
    c.len()
}

} // verus!
