//! The backend capability: a flat key-value medium with one advisory lock.
use vstd::prelude::*;

use crate::textmap::{lists_prefixed_keys, TextMap};

verus! {

/// An opaque failure of a storage medium.
#[derive(Clone, Debug)]
pub struct StorageError {
    pub message: String,
}

impl StorageError {
    pub fn new(message: &str) -> (r: StorageError)
        ensures
            r.message@ == message@,
    {
        StorageError { message: String::from_str(message) }
    }
}

/// Whether an advisory lock was newly taken or was already held.
#[derive(Clone, Copy, Debug, PartialEq, Eq, Structural)]
pub enum LockStatus {
    AlreadyHeld,
    NewlyAcquired,
}

/// A simple key-value storage backend, shared by the state manager and the
/// directory cache.  Writers are expected to hold the advisory lock; data
/// operations never touch the lock and lock operations never touch data.
pub trait KeyValueStore {
    /// What the medium holds.
    spec fn entries(&self) -> Map<Seq<char>, Seq<char>>;

    /// Whether this store holds the write lock.
    spec fn holds_lock(&self) -> bool;

    /// The value under `key`; `Ok(None)` when there is none.
    fn get(&self, key: &str) -> (r: Result<Option<String>, StorageError>)
        ensures
            r matches Ok(v) ==> (v is Some <==> self.entries().contains_key(key@)),
            r matches Ok(Some(s)) ==> s@ == self.entries()[key@],
    ;

    /// Stores `value` under `key`, replacing any previous value.
    fn set(&mut self, key: &str, value: &str) -> (r: Result<(), StorageError>)
        ensures
            final(self).holds_lock() == old(self).holds_lock(),
            r is Ok ==> final(self).entries() == old(self).entries().insert(key@, value@),
    ;

    /// Deletes `key`; deleting an absent key is no error.
    fn delete(&mut self, key: &str) -> (r: Result<(), StorageError>)
        ensures
            final(self).holds_lock() == old(self).holds_lock(),
            r is Ok ==> final(self).entries() == old(self).entries().remove(key@),
            !old(self).entries().contains_key(key@) ==> r is Ok,
    ;

    /// Every key that begins with `prefix`, each once, in no set order.
    fn keys(&self, prefix: &str) -> (r: Result<Vec<String>, StorageError>)
        ensures
            r matches Ok(ks) ==> lists_prefixed_keys(ks@, self.entries(), prefix@),
    ;

    /// Takes the write lock: `Ok(true)` when newly taken, `Ok(false)` when it
    /// was already held.
    fn try_lock(&mut self) -> (r: Result<bool, StorageError>)
        ensures
            final(self).entries() == old(self).entries(),
            r matches Ok(b) ==> b == !old(self).holds_lock() && final(self).holds_lock(),
    ;

    /// Whether this store holds the write lock.
    fn is_locked(&self) -> (r: Result<bool, StorageError>)
        ensures
            r matches Ok(b) ==> b == self.holds_lock(),
    ;

    /// Releases the write lock; releasing a lock that is not held is no error.
    fn unlock(&mut self) -> (r: Result<(), StorageError>)
        ensures
            final(self).entries() == old(self).entries(),
            r is Ok ==> !final(self).holds_lock(),
            !old(self).holds_lock() ==> r is Ok,
    ;
}

/// A key-value store held in memory, with its own lock flag.
pub struct MemoryKeyValueStore {
    data: TextMap,
    locked: bool,
}

impl MemoryKeyValueStore {
    /// An empty, unlocked store.
    pub fn new() -> (r: MemoryKeyValueStore)
        ensures
            r.entries() == Map::<Seq<char>, Seq<char>>::empty(),
            !r.holds_lock(),
    {
        MemoryKeyValueStore { data: TextMap::new(), locked: false }
    }
}

impl MemoryKeyValueStore {
    /// The value under `key`; never fails.
    pub fn get(&self, key: &str) -> (r: Result<Option<String>, StorageError>)
        ensures
            r matches Ok(v) && (v is Some <==> self.entries().contains_key(key@)),
            r matches Ok(Some(s)) ==> s@ == self.entries()[key@],
    {
        Ok(self.data.get(key))
    }

    /// Stores `value` under `key`; never fails.
    pub fn set(&mut self, key: &str, value: &str) -> (r: Result<(), StorageError>)
        ensures
            r is Ok,
            final(self).holds_lock() == old(self).holds_lock(),
            final(self).entries() == old(self).entries().insert(key@, value@),
    {
        self.data.insert(key, value);
        Ok(())
    }

    /// Deletes `key`; never fails.
    pub fn delete(&mut self, key: &str) -> (r: Result<(), StorageError>)
        ensures
            r is Ok,
            final(self).holds_lock() == old(self).holds_lock(),
            final(self).entries() == old(self).entries().remove(key@),
    {
        self.data.remove(key);
        Ok(())
    }

    /// Every key that begins with `prefix`; never fails.
    pub fn keys(&self, prefix: &str) -> (r: Result<Vec<String>, StorageError>)
        ensures
            r matches Ok(ks) && lists_prefixed_keys(ks@, self.entries(), prefix@),
    {
        Ok(self.data.keys_with_prefix(prefix))
    }

    /// Takes the lock; `true` when it was not held before.  Never fails.
    pub fn try_lock(&mut self) -> (r: Result<bool, StorageError>)
        ensures
            r == Ok::<bool, StorageError>(!old(self).holds_lock()),
            final(self).holds_lock(),
            final(self).entries() == old(self).entries(),
    {
        if self.locked {
            Ok(false)
        } else {
            self.locked = true;
            Ok(true)
        }
    }

    /// Whether the lock is held; never fails.
    pub fn is_locked(&self) -> (r: Result<bool, StorageError>)
        ensures
            r == Ok::<bool, StorageError>(self.holds_lock()),
    {
        Ok(self.locked)
    }

    /// Releases the lock; never fails.
    pub fn unlock(&mut self) -> (r: Result<(), StorageError>)
        ensures
            r is Ok,
            !final(self).holds_lock(),
            final(self).entries() == old(self).entries(),
    {
        self.locked = false;
        Ok(())
    }
}

impl KeyValueStore for MemoryKeyValueStore {
    closed spec fn entries(&self) -> Map<Seq<char>, Seq<char>> {
        self.data@
    }

    closed spec fn holds_lock(&self) -> bool {
        self.locked
    }

    fn get(&self, key: &str) -> (r: Result<Option<String>, StorageError>) {
        MemoryKeyValueStore::get(self, key)
    }

    fn set(&mut self, key: &str, value: &str) -> (r: Result<(), StorageError>) {
        MemoryKeyValueStore::set(self, key, value)
    }

    fn delete(&mut self, key: &str) -> (r: Result<(), StorageError>) {
        MemoryKeyValueStore::delete(self, key)
    }

    fn keys(&self, prefix: &str) -> (r: Result<Vec<String>, StorageError>) {
        MemoryKeyValueStore::keys(self, prefix)
    }

    fn try_lock(&mut self) -> (r: Result<bool, StorageError>) {
        MemoryKeyValueStore::try_lock(self)
    }

    fn is_locked(&self) -> (r: Result<bool, StorageError>) {
        MemoryKeyValueStore::is_locked(self)
    }

    fn unlock(&mut self) -> (r: Result<(), StorageError>) {
        MemoryKeyValueStore::unlock(self)
    }
}

} // verus!
