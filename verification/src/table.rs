//! The lookup table of an interner.
//!
//! The table is a `hashbrown` map that holds the keys of symbols and nothing
//! else. It is never asked to hash or compare a key by itself: every lookup
//! brings the hash of a value and a test on keys, and every insertion brings
//! the function that hashes a key again when the table grows.
use vstd::prelude::*;
use hashbrown::HashMap;
use hashbrown::hash_map::RawEntryMut;
use crate::backend::{Backend, BackendSymbol, Value};
use crate::hash::ValueHasher;

verus! {

/// The hash table of an interner: a `hashbrown::HashMap` with keys of symbols
/// as its keys, no values, and no hasher of its own.
#[verifier::external_body]
pub struct SymbolTable {
    map: HashMap<(usize, usize), (), ()>,
}

/// The keys that the table holds, each with the hash under which it was filed.
pub uninterp spec fn table_entries(t: SymbolTable) -> Set<((usize, usize), u64)>;

/// What the value behind a key is in a backend, if the key's symbol resolves.
pub open spec fn key_value<T: ?Sized + Value, B: Backend<T>>(backend: &B, k: (usize, usize)) -> Option<
    T::Model,
> {
    backend.spec_get(B::Symbol::spec_from_key(k))
}

/// The hash of the value behind a key.
pub open spec fn key_hash_spec<T: ?Sized + Value, B: Backend<T>, H: ValueHasher<T>>(
    backend: &B,
    hasher: &H,
    k: (usize, usize),
) -> u64 {
    hasher.spec_hash(key_value(backend, k).unwrap())
}

/// Whether every key of the table resolves in the backend and is filed under
/// the hash of its value.
pub open spec fn filed_by_value<T: ?Sized + Value, B: Backend<T>, H: ValueHasher<T>>(
    t: SymbolTable,
    backend: &B,
    hasher: &H,
) -> bool {
    forall|k: (usize, usize), h: u64| #[trigger]
        table_entries(t).contains((k, h)) ==> key_value(backend, k) is Some && h == key_hash_spec(
            backend,
            hasher,
            k,
        )
}

/// Whether the value behind a key is the given value.
pub fn key_matches<T: ?Sized + Value, B: Backend<T>>(backend: &B, k: (usize, usize), src: &T) -> (hit:
    bool)
    requires
        backend.wf(),
        key_value(backend, k) is Some,
    ensures
        hit == (key_value(backend, k) == Some(src.model())),
{
    let sym = B::Symbol::from_key(k);
    src.same(backend.get_unchecked(sym))
}

/// Hashes the value behind a key.
pub fn key_hash<T: ?Sized + Value, B: Backend<T>, H: ValueHasher<T>>(
    backend: &B,
    hasher: &H,
    k: (usize, usize),
) -> (hash: u64)
    requires
        backend.wf(),
        key_value(backend, k) is Some,
    ensures
        hash == key_hash_spec(backend, hasher, k),
{
    let sym = B::Symbol::from_key(k);
    hasher.hash_one(backend.get_unchecked(sym))
}

/// `hashbrown::HashMap::with_hasher`, with `()` for the hasher: a table that
/// holds nothing.
#[verifier::external_body]
pub(crate) fn table_new() -> (t: SymbolTable)
    ensures
        table_entries(t) == Set::<((usize, usize), u64)>::empty(),
{
    SymbolTable { map: HashMap::with_hasher(()) }
}

/// `hashbrown::hash_map::RawEntryBuilder::from_hash`: searches the table with
/// the hash of `src` for a key whose value is `src`.
///
/// A key that comes back is in the table and its value is `src`. When none
/// comes back, no key that was filed under `hash` has that value: the search
/// visits every key filed under the hash it is given, since nothing is ever
/// taken out of the table and a key is filed again only under the hash it
/// has.
#[verifier::external_body]
pub(crate) fn table_find<T: ?Sized + Value, B: Backend<T>>(
    t: &SymbolTable,
    hash: u64,
    backend: &B,
    src: &T,
) -> (found: Option<(usize, usize)>)
    requires
        backend.wf(),
        forall|k: (usize, usize), h: u64| #[trigger]
            table_entries(*t).contains((k, h)) ==> key_value(backend, k) is Some,
    ensures
        found matches Some(k) ==> (exists|h: u64| #[trigger] table_entries(*t).contains((k, h)))
            && key_value(backend, k) == Some(src.model()),
        found is None ==> forall|k: (usize, usize)| #[trigger]
            table_entries(*t).contains((k, hash)) ==> key_value(backend, k) != Some(src.model()),
{
    t.map.raw_entry().from_hash(hash, |k| key_matches(backend, *k, src)).map(|(k, _)| *k)
}

/// `hashbrown::hash_map::RawVacantEntryMut::insert_with_hasher`, on the
/// vacant entry that `RawEntryBuilderMut::from_hash` gives for a test that no
/// key passes: files `key` under `hash`.
///
/// When the table grows it files every key it holds again, under the hash that
/// `key_hash` gives for it. The keys are required to be filed under that hash
/// already, so growing changes nothing of what the table holds.
#[verifier::external_body]
pub(crate) fn table_insert<T: ?Sized + Value, B: Backend<T>, H: ValueHasher<T>>(
    t: &mut SymbolTable,
    hash: u64,
    key: (usize, usize),
    backend: &B,
    hasher: &H,
)
    requires
        backend.wf(),
        filed_by_value(*old(t), backend, hasher),
    ensures
        table_entries(*final(t)) == table_entries(*old(t)).insert((key, hash)),
{
    match t.map.raw_entry_mut().from_hash(hash, |_| false) {
        RawEntryMut::Vacant(slot) => {
            slot.insert_with_hasher(hash, key, (), |k| key_hash(backend, hasher, *k));
        },
        RawEntryMut::Occupied(_) => {},
    }
}

/// `hashbrown::HashMap::capacity`: how many keys the table can hold before it
/// grows.
///
/// The number is that of the keys the table holds plus the room it has left,
/// so it is at least the number of keys held. How much room is left is not
/// claimed.
#[verifier::external_body]
pub(crate) fn table_capacity(t: &SymbolTable) -> (capacity: usize)
    ensures
        table_entries(*t).finite() ==> table_entries(*t).len() <= capacity,
{
    t.map.capacity()
}

} // verus!
