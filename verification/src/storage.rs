//! The key/value storage behind the core objects: a store of JSON values with
//! a bounded least-recently-used read cache in front of it.

use vstd::prelude::*;
use crate::json::{JsonValue, Json, clone_json};
use crate::json_map::JsonMap;
use crate::text::{copy_str, str_equal};
use lru::LruCache;

verus! {

broadcast use vstd::string::group_string_axioms;

#[verifier::external_type_specification]
#[verifier::external_body]
#[verifier::reject_recursive_types(K)]
#[verifier::reject_recursive_types(V)]
#[verifier::reject_recursive_types(S)]
pub struct ExLruCache<K, V, S>(LruCache<K, V, S>);

#[verifier::external_type_specification]
#[verifier::external_body]
pub struct ExLruHasher(lru::DefaultHasher);

/// What an LRU cache holds: key text to value.
pub uninterp spec fn lru_entries(c: LruCache<String, JsonValue>) -> Map<Seq<char>, Json>;

/// The capacity an LRU cache was made with.
pub uninterp spec fn lru_capacity(c: LruCache<String, JsonValue>) -> nat;

/// `LruCache::new`: an empty cache that holds at most `cap` entries
/// (`cap` must be non-zero).
#[verifier::external_body]
fn lru_new(cap: usize) -> (c: LruCache<String, JsonValue>)
    requires
        cap >= 1,
    ensures
        lru_capacity(c) == cap,
        lru_entries(c).dom().is_empty(),
{
    LruCache::new(std::num::NonZeroUsize::new(cap).unwrap())
}

/// `LruCache::put`: afterwards `key` maps to `value`; every other entry
/// was there before with the same value (one may have been evicted to make
/// room).
#[verifier::external_body]
fn lru_put(c: &mut LruCache<String, JsonValue>, key: String, value: JsonValue)
    ensures
        lru_capacity(*final(c)) == lru_capacity(*old(c)),
        lru_entries(*final(c)).dom().contains(key@),
        lru_entries(*final(c))[key@] == value.model(),
        forall|k: Seq<char>| #[trigger] lru_entries(*final(c)).dom().contains(k) && k != key@ ==> lru_entries(*old(c)).dom().contains(k)
            && lru_entries(*final(c))[k] == lru_entries(*old(c))[k],
{
    c.put(key, value);
}

/// `LruCache::get`: the value under `key`, if cached; the entries are
/// unchanged (only their recency order moves).
#[verifier::external_body]
fn lru_get<'a>(c: &'a mut LruCache<String, JsonValue>, key: &str) -> (r: Option<&'a JsonValue>)
    ensures
        lru_entries(*final(c)) == lru_entries(*old(c)),
        lru_capacity(*final(c)) == lru_capacity(*old(c)),
        match r {
            Some(v) => lru_entries(*old(c)).dom().contains(key@) && lru_entries(*old(c))[key@] == v.model(),
            None => !lru_entries(*old(c)).dom().contains(key@),
        },
{
    c.get(key)
}

/// `LruCache::pop`: removes `key` from the cache.
#[verifier::external_body]
fn lru_pop(c: &mut LruCache<String, JsonValue>, key: &str)
    ensures
        lru_entries(*final(c)) == lru_entries(*old(c)).remove(key@),
        lru_capacity(*final(c)) == lru_capacity(*old(c)),
{
    c.pop(key);
}

/// Where a storage keeps its values.
#[derive(PartialEq, Eq, Structural, Clone, Copy, Debug)]
pub enum StorageMode {
    Memory,
    Storage,
}

impl StorageMode {
    /// `storage` names the backend mode; any other text the memory mode.
    pub fn from_str(mode: &str) -> (m: StorageMode)
        ensures
            m == (if mode@ == "storage"@ { StorageMode::Storage } else { StorageMode::Memory }),
    {
        if str_equal(mode, "storage") {
            StorageMode::Storage
        } else {
            StorageMode::Memory
        }
    }
}

/// A key/value store of JSON values: an in-memory map or a backend map
/// (chosen by the mode), with an optional bounded read cache in front.
pub struct CoreStorage {
    persistent: bool,
    storage_mode: StorageMode,
    enable_memory_cache: bool,
    memory_store: JsonMap,
    storage_backend: JsonMap,
    memory_cache: LruCache<String, JsonValue>,
}

impl CoreStorage {
    pub closed spec fn spec_mode(&self) -> StorageMode {
        self.storage_mode
    }

    pub closed spec fn spec_persistent(&self) -> bool {
        self.persistent
    }

    pub closed spec fn spec_cache_enabled(&self) -> bool {
        self.enable_memory_cache
    }

    /// The in-memory map.
    pub closed spec fn spec_memory(&self) -> Map<Seq<char>, Json> {
        self.memory_store@
    }

    /// The backend map.
    pub closed spec fn spec_backend(&self) -> Map<Seq<char>, Json> {
        self.storage_backend@
    }

    /// The map that reads and writes go to.
    pub open spec fn spec_store(&self) -> Map<Seq<char>, Json> {
        match self.spec_mode() {
            StorageMode::Memory => self.spec_memory(),
            StorageMode::Storage => self.spec_backend(),
        }
    }

    /// Both maps are well formed and the cache agrees with the store.
    pub closed spec fn wf(&self) -> bool {
        &&& self.memory_store.wf()
        &&& self.storage_backend.wf()
        &&& !self.enable_memory_cache ==> lru_entries(self.memory_cache).dom().is_empty()
        &&& forall|k: Seq<char>| #[trigger] lru_entries(self.memory_cache).dom().contains(k) ==> self.spec_store().dom().contains(k)
            && lru_entries(self.memory_cache)[k] == self.spec_store()[k]
    }

    /// A storage in `storage_mode` whose backend is `storage_backend` (a
    /// fresh empty map when none is given), with a read cache of
    /// `memory_cache_size` entries (at least one).
    pub fn new(
        persistent: bool,
        storage_mode: StorageMode,
        storage_backend: Option<JsonMap>,
        enable_memory_cache: bool,
        memory_cache_size: usize,
    ) -> (s: CoreStorage)
        requires
            storage_backend matches Some(b) ==> b.wf(),
        ensures
            s.wf(),
            s.spec_mode() == storage_mode,
            s.spec_persistent() == persistent,
            s.spec_cache_enabled() == enable_memory_cache,
            s.spec_memory() == Map::<Seq<char>, Json>::empty(),
            s.spec_backend() == match storage_backend {
                Some(b) => b@,
                None => Map::<Seq<char>, Json>::empty(),
            },
    {
        let cache_size = if memory_cache_size < 1 { 1 } else { memory_cache_size };
        let backend = match storage_backend {
            Some(b) => b,
            None => JsonMap::new(),
        };
        CoreStorage {
            persistent,
            storage_mode,
            enable_memory_cache,
            memory_store: JsonMap::new(),
            storage_backend: backend,
            memory_cache: lru_new(cache_size),
        }
    }

    /// The value stored under `key` (through the cache when it is enabled).
    pub fn read(&mut self, key: &str) -> (r: Option<JsonValue>)
        requires
            old(self).wf(),
        ensures
            final(self).wf(),
            final(self).spec_memory() == old(self).spec_memory(),
            final(self).spec_backend() == old(self).spec_backend(),
            final(self).spec_mode() == old(self).spec_mode(),
            match r {
                Some(v) => old(self).spec_store().dom().contains(key@) && old(self).spec_store()[key@] == v.model(),
                None => !old(self).spec_store().dom().contains(key@),
            },
    {
        if self.enable_memory_cache {
            match lru_get(&mut self.memory_cache, key) {
                Some(v) => {
                    return Some(clone_json(v));
                },
                None => {},
            }
        }
        let value = match self.storage_mode {
            StorageMode::Memory => match self.memory_store.get(key) {
                Some(v) => Some(clone_json(v)),
                None => None,
            },
            StorageMode::Storage => match self.storage_backend.get(key) {
                Some(v) => Some(clone_json(v)),
                None => None,
            },
        };
        if self.enable_memory_cache {
            match &value {
                Some(v) => {
                    lru_put(&mut self.memory_cache, copy_str(key), clone_json(v));
                },
                None => {},
            }
        }
        value
    }

    /// Stores `value` under `key`.
    pub fn write(&mut self, key: &str, value: JsonValue)
        requires
            old(self).wf(),
        ensures
            final(self).wf(),
            final(self).spec_mode() == old(self).spec_mode(),
            final(self).spec_store() == old(self).spec_store().insert(key@, value.model()),
            final(self).spec_mode() == StorageMode::Memory ==> final(self).spec_backend() == old(self).spec_backend(),
            final(self).spec_mode() == StorageMode::Storage ==> final(self).spec_memory() == old(self).spec_memory(),
    {
        match self.storage_mode {
            StorageMode::Memory => {
                self.memory_store.insert(copy_str(key), clone_json(&value));
            },
            StorageMode::Storage => {
                self.storage_backend.insert(copy_str(key), clone_json(&value));
            },
        }
        if self.enable_memory_cache {
            lru_put(&mut self.memory_cache, copy_str(key), value);
        }
    }

    /// Removes `key`.
    pub fn delete(&mut self, key: &str)
        requires
            old(self).wf(),
        ensures
            final(self).wf(),
            final(self).spec_mode() == old(self).spec_mode(),
            final(self).spec_store() == old(self).spec_store().remove(key@),
            final(self).spec_mode() == StorageMode::Memory ==> final(self).spec_backend() == old(self).spec_backend(),
            final(self).spec_mode() == StorageMode::Storage ==> final(self).spec_memory() == old(self).spec_memory(),
    {
        match self.storage_mode {
            StorageMode::Memory => {
                self.memory_store.remove(key);
            },
            StorageMode::Storage => {
                self.storage_backend.remove(key);
            },
        }
        if self.enable_memory_cache {
            lru_pop(&mut self.memory_cache, key);
        }
    }
}


/// What a read gives back of a write: after `key` is written with `value`,
/// the store holds `value` under `key` and every other key as before.
pub proof fn lemma_read_after_write(before: CoreStorage, after: CoreStorage, key: Seq<char>, value: Json, other: Seq<char>)
    requires
        after.spec_store() == before.spec_store().insert(key, value),
    ensures
        after.spec_store().dom().contains(key),
        after.spec_store()[key] == value,
        other != key ==> (after.spec_store().dom().contains(other) == before.spec_store().dom().contains(other)
            && (before.spec_store().dom().contains(other) ==> after.spec_store()[other] == before.spec_store()[other])),
{
}

/// After `key` is deleted a read finds nothing under it, and every other key
/// is as before.
pub proof fn lemma_read_after_delete(before: CoreStorage, after: CoreStorage, key: Seq<char>, other: Seq<char>)
    requires
        after.spec_store() == before.spec_store().remove(key),
    ensures
        !after.spec_store().dom().contains(key),
        other != key ==> (after.spec_store().dom().contains(other) == before.spec_store().dom().contains(other)
            && (before.spec_store().dom().contains(other) ==> after.spec_store()[other] == before.spec_store()[other])),
{
}

} // verus!
