//! A key-value store in shards: which shard a key belongs to, and what a
//! shard answers to a read and to a write.

use vstd::prelude::*;
use vstd::hash_map::StringHashMap;
use vstd::std_specs::hash::DefaultHasherAdditionalSpecFns;
use std::collections::hash_map::DefaultHasher;
use std::hash::Hash;
use std::hash::Hasher;

verus! {

/// What hashing the string `key` writes into a hasher, write by write.
pub uninterp spec fn hash_writes(key: Seq<char>) -> Seq<Seq<u8>>;

/// Calls `Hash::hash` of `str`. Trusted: what it writes into the hasher
/// depends on the characters of `key` alone; it is named `hash_writes`.
#[verifier::external_body]
fn hash_str(key: &str, state: &mut DefaultHasher)
    ensures
        final(state)@ == old(state)@ + hash_writes(key@),
{
    key.hash(state)
}

/// The hash of `key`.
pub open spec fn key_hash_of(key: Seq<char>) -> u64 {
    DefaultHasher::spec_finish(hash_writes(key))
}

/// The shard, out of `shards`, that `key` belongs to.
pub open spec fn shard_of(key: Seq<char>, shards: int) -> int {
    key_hash_of(key) as int % shards
}

/// Hashes `key` with a hasher in its initial state.
pub fn key_hash(key: &str) -> (hash: u64)
    ensures
        hash == key_hash_of(key@),
{
    let mut state = DefaultHasher::new();
    hash_str(key, &mut state);
    assert(state@ =~= hash_writes(key@));
    state.finish()
}

/// The index, among `shards` shards, of the shard for a key with this hash.
pub fn shard_index(hash: u64, shards: usize) -> (index: usize)
    requires
        shards > 0,
        hash <= usize::MAX,
    ensures
        index == hash as int % shards as int,
        index < shards,
{
    (hash as usize) % shards
}

/// One shard of the store: a map from keys to values.
#[verifier::reject_recursive_types(V)]
pub struct Shard<V> {
    entries: StringHashMap<V>,
}

impl<V> View for Shard<V> {
    type V = Map<Seq<char>, V>;

    closed spec fn view(&self) -> Map<Seq<char>, V> {
        self.entries@
    }
}

/// The answer to a command.
#[derive(Debug, PartialEq, Eq)]
pub enum Reply<'a, V> {
    /// The value asked for.
    Bulk(&'a V),
    /// There is no such value.
    Null,
    /// A plain word.
    Simple(&'static str),
}

impl<V> Shard<V> {
    /// An empty shard.
    pub fn new() -> (shard: Self)
        ensures
            shard@ == Map::<Seq<char>, V>::empty(),
    {
        Shard { entries: StringHashMap::new() }
    }

    /// Answers a read of `key`: the value stored under it, or `Null` if
    /// there is none.
    pub fn answer_get<'a>(&'a self, key: &str) -> (reply: Reply<'a, V>)
        ensures
            self@.contains_key(key@) ==> reply == Reply::Bulk(&self@[key@]),
            !self@.contains_key(key@) ==> reply == Reply::<V>::Null,
    {
        match self.entries.get(key) {
            Some(value) => Reply::Bulk(value),
            None => Reply::Null,
        }
    }

    /// Answers a write of `value` under `key`: the value is stored, in place
    /// of any that was there, and the answer is the word `OK`.
    pub fn answer_set(&mut self, key: &str, value: V) -> (reply: Reply<'static, V>)
        ensures
            final(self)@ == old(self)@.insert(key@, value),
            reply matches Reply::Simple(word) && word@ == "OK"@,
    {
        self.entries.insert(key.to_owned(), value);
        Reply::Simple("OK")
    }
}

/// `num_shards` empty shards.
pub fn new_sharded_db<V>(num_shards: usize) -> (db: Vec<Shard<V>>)
    ensures
        db@.len() == num_shards,
        forall|i: int| 0 <= i < num_shards ==> (#[trigger] db@[i])@ == Map::<Seq<char>, V>::empty(),
{
    let mut db: Vec<Shard<V>> = Vec::with_capacity(num_shards);
    let mut i: usize = 0;
    while i < num_shards
        invariant
            i <= num_shards,
            db@.len() == i,
            forall|j: int| 0 <= j < i ==> (#[trigger] db@[j])@ == Map::<Seq<char>, V>::empty(),
        decreases num_shards - i,
    {
        db.push(Shard::new());
        i += 1;
    }
    db
}

/// The shard of `db` that `key` belongs to. There has to be a shard, and
/// the hash of the key has to fit the machine's word.
pub fn get_correct_db<'a, S>(db: &'a Vec<S>, key: &str) -> (shard: &'a S)
    requires
        db@.len() > 0,
        key_hash_of(key@) <= usize::MAX,
    ensures
        *shard == db@[shard_of(key@, db@.len() as int)],
{
    &db[shard_index(key_hash(key), db.len())]
}

/// The shard of `db` that `key` belongs to, or `None` where `db` has no
/// shard or the hash of the key does not fit the machine's word.
pub fn find_shard<'a, S>(db: &'a Vec<S>, key: &str) -> (found: Option<&'a S>)
    ensures
        db@.len() > 0 && key_hash_of(key@) <= usize::MAX ==> found == Some(
            &db@[shard_of(key@, db@.len() as int)],
        ),
        !(db@.len() > 0 && key_hash_of(key@) <= usize::MAX) ==> found is None,
{
    if db.len() > 0 && key_hash(key) <= usize::MAX as u64 {
        Some(get_correct_db(db, key))
    } else {
        None
    }
}

} // verus!
