//! Bounded segment stores keyed by segment id.
use lru::LruCache;
use vstd::prelude::*;

verus! {

#[verifier::external_type_specification]
#[verifier::external_body]
#[verifier::reject_recursive_types(K)]
#[verifier::reject_recursive_types(V)]
#[verifier::reject_recursive_types(S)]
pub struct ExLruCache<K, V, S>(LruCache<K, V, S>);

#[verifier::external_type_specification]
#[verifier::external_body]
pub struct ExDefaultHasher(lru::DefaultHasher);

/// What an LRU cache of segments holds, by key.
pub uninterp spec fn lru_contents(c: LruCache<String, Vec<u8>>) -> Map<Seq<char>, Seq<u8>>;

/// Keys of an LRU cache of segments, least recently used first.
pub uninterp spec fn lru_order(c: LruCache<String, Vec<u8>>) -> Seq<Seq<char>>;

/// The bound an LRU cache of segments was made with.
pub uninterp spec fn lru_capacity(c: LruCache<String, Vec<u8>>) -> nat;

/// Contents after `put(key, value)`: the key takes the value; a new key in a
/// full cache first pushes out the least recently used entry.
pub open spec fn lru_contents_after_put(
    contents: Map<Seq<char>, Seq<u8>>,
    order: Seq<Seq<char>>,
    capacity: nat,
    key: Seq<char>,
    value: Seq<u8>,
) -> Map<Seq<char>, Seq<u8>> {
    if contents.contains_key(key) || order.len() < capacity {
        contents.insert(key, value)
    } else {
        contents.remove(order[0]).insert(key, value)
    }
}

/// Recency order after using `key`: it becomes the most recent.
pub open spec fn lru_order_after_use(order: Seq<Seq<char>>, capacity: nat, key: Seq<char>, present: bool) -> Seq<
    Seq<char>,
> {
    if present {
        order.remove(order.index_of(key)).push(key)
    } else if order.len() < capacity {
        order.push(key)
    } else {
        order.drop_first().push(key)
    }
}

/// Relies on `lru::LruCache::new`: an empty cache bounded by `capacity`.
#[verifier::external_body]
fn lru_new(capacity: usize) -> (r: LruCache<String, Vec<u8>>)
    requires
        capacity > 0,
    ensures
        lru_contents(r) =~= Map::empty(),
        lru_order(r) =~= Seq::empty(),
        lru_capacity(r) == capacity,
{
    LruCache::new(std::num::NonZeroUsize::new(capacity).unwrap())
}

/// Relies on `lru::LruCache::get`: the value of `key`, which becomes the most
/// recently used; the contents do not change.
#[verifier::external_body]
fn lru_get<'a>(c: &'a mut LruCache<String, Vec<u8>>, key: &str) -> (r: Option<&'a Vec<u8>>)
    ensures
        lru_contents(*final(c)) == lru_contents(*old(c)),
        lru_capacity(*final(c)) == lru_capacity(*old(c)),
        lru_contents(*old(c)).contains_key(key@) ==> lru_order(*final(c)) == lru_order_after_use(
            lru_order(*old(c)),
            lru_capacity(*old(c)),
            key@,
            true,
        ),
        !lru_contents(*old(c)).contains_key(key@) ==> lru_order(*final(c)) == lru_order(*old(c)),
        match r {
            Some(v) => lru_contents(*old(c)).contains_key(key@) && v@ == lru_contents(*old(c))[key@],
            None => !lru_contents(*old(c)).contains_key(key@),
        },
{
    c.get(key)
}

/// Relies on `lru::LruCache::put`: `key` takes `value` and becomes the most
/// recently used; the old value of `key`, if any, comes back; a new key in a
/// full cache pushes out the least recently used entry.
#[verifier::external_body]
fn lru_put(c: &mut LruCache<String, Vec<u8>>, key: String, value: Vec<u8>) -> (r: Option<Vec<u8>>)
    ensures
        lru_contents(*final(c)) == lru_contents_after_put(
            lru_contents(*old(c)),
            lru_order(*old(c)),
            lru_capacity(*old(c)),
            key@,
            value@,
        ),
        lru_order(*final(c)) == lru_order_after_use(
            lru_order(*old(c)),
            lru_capacity(*old(c)),
            key@,
            lru_contents(*old(c)).contains_key(key@),
        ),
        lru_capacity(*final(c)) == lru_capacity(*old(c)),
        match r {
            Some(v) => lru_contents(*old(c)).contains_key(key@) && v@ == lru_contents(*old(c))[key@],
            None => !lru_contents(*old(c)).contains_key(key@),
        },
{
    c.put(key, value)
}

/// A store of segments keyed by segment id.
pub trait SegmentStorage {
    /// The segments held, by id.
    spec fn stored(&self) -> Map<Seq<char>, Seq<u8>>;

    /// The segment `key`, if held. What is held does not change.
    fn get(&mut self, key: &str) -> (r: Option<&Vec<u8>>)
        ensures
            final(self).stored() == old(self).stored(),
            match r {
                Some(v) => old(self).stored().contains_key(key@) && v@ == old(self).stored()[key@],
                None => !old(self).stored().contains_key(key@),
            },
    ;

    /// Stores `value` as the segment `key`. Other segments keep their data or
    /// leave to make room. When `key` was held, its id and old data come back.
    fn set(&mut self, key: &str, value: Vec<u8>) -> (r: Option<(String, Vec<u8>)>)
        ensures
            final(self).stored().contains_key(key@),
            final(self).stored()[key@] == value@,
            forall|k: Seq<char>|
                k != key@ && #[trigger] final(self).stored().contains_key(k) ==> old(self).stored().contains_key(k)
                    && final(self).stored()[k] == old(self).stored()[k],
            match r {
                Some(e) => e.0@ == key@ && old(self).stored().contains_key(key@) && e.1@ == old(
                    self,
                ).stored()[key@],
                None => !old(self).stored().contains_key(key@),
            },
    ;
}

/// Most segments a [`MemoryStorage`] holds.
pub const MEMORY_STORAGE_CAPACITY: usize = 20;

/// Segments held in memory, the least recently used leaving first.
pub struct MemoryStorage(LruCache<String, Vec<u8>>);

impl MemoryStorage {
    /// Recency order of the ids held, least recently used first.
    pub closed spec fn order(&self) -> Seq<Seq<char>> {
        lru_order(self.0)
    }

    pub closed spec fn spec_capacity(&self) -> nat {
        lru_capacity(self.0)
    }

    /// An empty store for 20 segments.
    pub fn new() -> (r: Self)
        ensures
            r.stored() == Map::<Seq<char>, Seq<u8>>::empty(),
            r.order() == Seq::<Seq<char>>::empty(),
            r.spec_capacity() == MEMORY_STORAGE_CAPACITY,
    {
        MemoryStorage(lru_new(MEMORY_STORAGE_CAPACITY))
    }
}

impl SegmentStorage for MemoryStorage {
    closed spec fn stored(&self) -> Map<Seq<char>, Seq<u8>> {
        lru_contents(self.0)
    }

    fn get(&mut self, key: &str) -> (r: Option<&Vec<u8>>) {
        lru_get(&mut self.0, key)
    }

    fn set(&mut self, key: &str, value: Vec<u8>) -> (r: Option<(String, Vec<u8>)>) {
        match lru_put(&mut self.0, key.to_owned(), value) {
            Some(old_value) => Some((key.to_owned(), old_value)),
            None => None,
        }
    }
}

} // verus!
