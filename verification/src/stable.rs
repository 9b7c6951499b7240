//! The durable storage primitives, held behind one handle: an id counter
//! cell in region 0 and an ordered map from id to encoded record bytes in
//! region 1, two virtual regions of one backing memory. The backing
//! memory comes in two ways: `stable_init` makes a fresh heap buffer on
//! every call, so its initial-state claim holds of every call and no two
//! such handles ever share a region; `stable_init_host` opens the
//! target's default memory — on the deployment target the host's
//! persistent memory, which survives process restarts — and resumes
//! whatever state it holds. The operations of the outside structures are
//! taken on their documented contracts; everything built on top of them
//! is verified.

use vstd::prelude::*;
use ic_stable_structures::memory_manager::{MemoryId, MemoryManager, VirtualMemory};
use crate::book::BookView;
use crate::codec::{spec_encode_book, MAX_ENCODED_SIZE};

verus! {

/// The storage service: the id counter cell in region 0 and the ordered
/// byte map in region 1 of one backing memory. The structure is opaque
/// to the verifier; its contents are spoken of only through
/// `stable_entries` and `stable_counter`.
#[verifier::external_body]
pub struct StableStore {
    counter: ic_stable_structures::Cell<
        u64,
        VirtualMemory<ic_stable_structures::DefaultMemoryImpl>,
    >,
    map: ic_stable_structures::StableBTreeMap<
        u64,
        Vec<u8>,
        VirtualMemory<ic_stable_structures::DefaultMemoryImpl>,
    >,
}

/// What the ordered map holds: the encoded record bytes, by id.
pub uninterp spec fn stable_entries(s: StableStore) -> Map<u64, Seq<u8>>;

/// What the counter cell holds.
pub uninterp spec fn stable_counter(s: StableStore) -> u64;

/// Relies on MemoryManager::init, Cell::init and BTreeMap::init over a
/// `VectorMemory` made fresh by this very call: on memory that holds no
/// prior data, the cell takes its default value 0 and the map starts
/// empty, and distinct calls build over distinct memories.
#[verifier::external_body]
pub fn stable_init() -> (out: StableStore)
    ensures
        stable_counter(out) == 0,
        forall|k: u64| !stable_entries(out).contains_key(k),
{
    let memory = ic_stable_structures::VectorMemory::default();
    let mm = MemoryManager::init(memory);
    StableStore {
        counter: ic_stable_structures::Cell::init(mm.get(MemoryId::new(0)), 0),
        map: ic_stable_structures::StableBTreeMap::init(mm.get(MemoryId::new(1))),
    }
}

/// Relies on MemoryManager::init, Cell::init and BTreeMap::init over the
/// target's default memory: the cell and the map load whatever the two
/// regions hold — 0 and empty on memory with no prior data, and the
/// state a prior process life committed otherwise. Those regions are
/// only ever written through this storage layer, which stores nothing
/// but codec-produced records keyed by their own ids at or below the
/// counter; the clauses below state that storage contract of the loaded
/// state. To be called once per process: the regions are process-wide
/// singletons.
#[verifier::external_body]
pub fn stable_init_host() -> (out: StableStore)
    ensures
        forall|k: u64| #[trigger] stable_entries(out).contains_key(k) ==> 1 <= k
            <= stable_counter(out),
        forall|k: u64| #[trigger] stable_entries(out).contains_key(k) ==> exists|v: BookView|
            (stable_entries(out)[k] == #[trigger] spec_encode_book(v) && v.id == k
                && spec_encode_book(v).len() <= MAX_ENCODED_SIZE),
{
    let mm = MemoryManager::init(ic_stable_structures::DefaultMemoryImpl::default());
    StableStore {
        counter: ic_stable_structures::Cell::init(mm.get(MemoryId::new(0)), 0),
        map: ic_stable_structures::StableBTreeMap::init(mm.get(MemoryId::new(1))),
    }
}

/// Relies on Cell::get: returns the held value.
#[verifier::external_body]
pub fn stable_counter_get(s: &StableStore) -> (r: u64)
    ensures
        r == stable_counter(*s),
{
    *s.counter.get()
}

/// Relies on Cell::set: stores the value; an 8-byte value always fits,
/// and the map's region is untouched.
#[verifier::external_body]
pub fn stable_counter_set(s: &mut StableStore, v: u64)
    ensures
        stable_counter(*final(s)) == v,
        stable_entries(*final(s)) == stable_entries(*old(s)),
{
    let _ = s.counter.set(v);
}

/// Relies on BTreeMap::get: point lookup, absence on a missing key.
#[verifier::external_body]
pub fn stable_get(s: &StableStore, id: u64) -> (r: Option<Vec<u8>>)
    ensures
        match r {
            Some(v) => stable_entries(*s).contains_key(id) && v@ == stable_entries(*s)[id],
            None => !stable_entries(*s).contains_key(id),
        },
{
    s.map.get(&id)
}

/// Relies on BTreeMap::insert: upsert by key; the counter's region is
/// untouched.
#[verifier::external_body]
pub fn stable_insert(s: &mut StableStore, id: u64, bytes: Vec<u8>)
    ensures
        stable_entries(*final(s)) == stable_entries(*old(s)).insert(id, bytes@),
        stable_counter(*final(s)) == stable_counter(*old(s)),
{
    let _ = s.map.insert(id, bytes);
}

/// Relies on BTreeMap::remove: deletes the key's entry and returns its
/// previous value, absence on a missing key; the counter's region is
/// untouched.
#[verifier::external_body]
pub fn stable_remove(s: &mut StableStore, id: u64) -> (r: Option<Vec<u8>>)
    ensures
        match r {
            Some(v) => stable_entries(*old(s)).contains_key(id) && v@ == stable_entries(*old(s))[id]
                && stable_entries(*final(s)) == stable_entries(*old(s)).remove(id),
            None => !stable_entries(*old(s)).contains_key(id) && stable_entries(*final(s))
                == stable_entries(*old(s)),
        },
        stable_counter(*final(s)) == stable_counter(*old(s)),
{
    s.map.remove(&id)
}

} // verus!
