//! State persistence: text values under text keys, guarded by an advisory
//! write lock, with an in-memory manager and a wrapper over custom backends.
use vstd::prelude::*;

use crate::kv::LockStatus;
use crate::textmap::TextMap;

verus! {

/// What a state manager was doing when it failed.
#[derive(Clone, Copy, Debug, PartialEq, Eq, Structural)]
pub enum Action {
    Loading,
    Storing,
    Locking,
    Unlocking,
}

/// Why a state manager failed.
#[derive(Clone, Debug)]
pub enum ErrorSource {
    /// A write was attempted without holding the lock.
    NoLock,
    /// The storage medium failed; its message is kept as it was.
    Backend(String),
}

/// A failure of a state manager: its cause, the action, and the key involved.
#[derive(Clone, Debug)]
pub struct StateError {
    pub source: ErrorSource,
    pub action: Action,
    pub key: String,
}

impl StateError {
    pub fn new(source: ErrorSource, action: Action, key: &str) -> (r: StateError)
        ensures
            r.source == source,
            r.action == action,
            r.key@ == key@,
    {
        StateError { source, action, key: String::from_str(key) }
    }

    /// Whether this failure means the lock was not held.
    pub fn is_no_lock(&self) -> (r: bool)
        ensures
            r == (self.source is NoLock),
    {
        match self.source {
            ErrorSource::NoLock => true,
            _ => false,
        }
    }
}

/// A storage backend for state that works on JSON text, for callers that
/// bring their own medium.
pub trait CustomStateMgr {
    /// The saved values, by the keys callers use.
    spec fn saved(&self) -> Map<Seq<char>, Seq<char>>;

    /// Whether the write lock is held.
    spec fn lock_held(&self) -> bool;

    /// The text stored under `key`; `Ok(None)` when there is none.
    fn load_json(&self, key: &str) -> (r: Result<Option<String>, StateError>)
        ensures
            r matches Ok(v) ==> (v is Some <==> self.saved().contains_key(key@)),
            r matches Ok(Some(s)) ==> s@ == self.saved()[key@],
    ;

    /// Stores `value` under `key`.
    fn store_json(&mut self, key: &str, value: &str) -> (r: Result<(), StateError>)
        ensures
            final(self).lock_held() == old(self).lock_held(),
            r is Ok ==> final(self).saved() == old(self).saved().insert(key@, value@),
    ;

    /// Whether this backend may be written: true only while the lock is held.
    fn can_store(&self) -> (r: bool)
        ensures
            r ==> self.lock_held(),
    ;

    /// Takes the write lock.
    fn try_lock(&mut self) -> (r: Result<LockStatus, StateError>)
        ensures
            final(self).saved() == old(self).saved(),
            r is Ok ==> final(self).lock_held(),
            r matches Ok(st) ==> (st == LockStatus::NewlyAcquired <==> !old(self).lock_held()),
    ;

    /// Releases the write lock.
    fn unlock(&mut self) -> (r: Result<(), StateError>)
        ensures
            final(self).saved() == old(self).saved(),
            r is Ok ==> !final(self).lock_held(),
    ;
}

/// A state manager that keeps everything in memory; nothing outlives the
/// value.  It starts unlocked unless made with `new_locked`.
pub struct MemoryStateMgr {
    data: TextMap,
    locked: bool,
}

impl Default for MemoryStateMgr {
    /// An empty, unlocked manager.
    fn default() -> (r: MemoryStateMgr)
        ensures
            r.saved() == Map::<Seq<char>, Seq<char>>::empty(),
            !r.lock_held(),
    {
        MemoryStateMgr::new()
    }
}

impl MemoryStateMgr {
    /// An empty, unlocked manager.
    pub fn new() -> (r: MemoryStateMgr)
        ensures
            r.saved() == Map::<Seq<char>, Seq<char>>::empty(),
            !r.lock_held(),
    {
        MemoryStateMgr { data: TextMap::new(), locked: false }
    }

    /// An empty manager that already holds its lock.
    pub fn new_locked() -> (r: MemoryStateMgr)
        ensures
            r.saved() == Map::<Seq<char>, Seq<char>>::empty(),
            r.lock_held(),
    {
        MemoryStateMgr { data: TextMap::new(), locked: true }
    }

    /// The place on disk of this manager: empty, as there is none.
    pub fn path(&self) -> (r: String)
        ensures
            r@.len() == 0,
    {
        String::new()
    }

    fn make_error(&self, source: ErrorSource, action: Action, key: &str) -> (r: StateError)
        ensures
            r.source == source,
            r.action == action,
            r.key@ == key@,
    {
        StateError::new(source, action, key)
    }
}

impl MemoryStateMgr {
    /// The saved values.
    pub closed spec fn saved(&self) -> Map<Seq<char>, Seq<char>> {
        self.data@
    }

    /// Whether the lock is held.
    pub closed spec fn lock_held(&self) -> bool {
        self.locked
    }

    /// The text stored under `key`; loading never fails.
    pub fn load_json(&self, key: &str) -> (r: Result<Option<String>, StateError>)
        ensures
            r matches Ok(v) && (v is Some <==> self.saved().contains_key(key@)),
            r matches Ok(Some(s)) ==> s@ == self.saved()[key@],
    {
        Ok(self.data.get(key))
    }

    /// Stores `value` under `key`; fails with `NoLock` exactly when the lock
    /// is not held.
    pub fn store_json(&mut self, key: &str, value: &str) -> (r: Result<(), StateError>)
        ensures
            r is Ok <==> old(self).lock_held(),
            r is Ok ==> final(self).saved() == old(self).saved().insert(key@, value@),
            r matches Err(e) ==> e.source is NoLock && e.action == Action::Storing && e.key@
                == key@ && final(self).saved() == old(self).saved(),
            final(self).lock_held() == old(self).lock_held(),
    {
        if !self.locked {
            return Err(self.make_error(ErrorSource::NoLock, Action::Storing, key));
        }
        self.data.insert(key, value);
        Ok(())
    }

    /// Whether the manager may be written: exactly while the lock is held.
    pub fn can_store(&self) -> (r: bool)
        ensures
            r == self.lock_held(),
    {
        self.locked
    }

    /// Takes the lock; never fails.
    pub fn try_lock(&mut self) -> (r: Result<LockStatus, StateError>)
        ensures
            final(self).saved() == old(self).saved(),
            final(self).lock_held(),
            r == Ok::<LockStatus, StateError>(
                if old(self).lock_held() {
                    LockStatus::AlreadyHeld
                } else {
                    LockStatus::NewlyAcquired
                },
            ),
    {
        if self.locked {
            Ok(LockStatus::AlreadyHeld)
        } else {
            self.locked = true;
            Ok(LockStatus::NewlyAcquired)
        }
    }

    /// Releases the lock; never fails, also when it was not held.
    pub fn unlock(&mut self) -> (r: Result<(), StateError>)
        ensures
            final(self).saved() == old(self).saved(),
            !final(self).lock_held(),
            r is Ok,
    {
        self.locked = false;
        Ok(())
    }
}

/// A state manager over any custom backend: it refuses writes while the lock
/// is not held and passes everything else through.
pub struct BoxedStateMgr<M: CustomStateMgr> {
    inner: M,
}

impl<M: CustomStateMgr> BoxedStateMgr<M> {
    /// The backend this manager writes to.
    pub closed spec fn backend(&self) -> M {
        self.inner
    }

    /// Wraps a custom backend.
    pub fn new(storage: M) -> (r: BoxedStateMgr<M>)
        ensures
            r.backend() == storage,
    {
        BoxedStateMgr { inner: storage }
    }

    /// Wraps a boxed custom backend.
    pub fn from_box(storage: Box<M>) -> (r: BoxedStateMgr<M>)
        ensures
            r.backend() == *storage,
    {
        BoxedStateMgr { inner: *storage }
    }

    fn make_error(&self, source: ErrorSource, action: Action, key: &str) -> (r: StateError)
        ensures
            r.source == source,
            r.action == action,
            r.key@ == key@,
    {
        StateError::new(source, action, key)
    }

    /// The text stored under `key`, from the backend.
    pub fn load_json(&self, key: &str) -> (r: Result<Option<String>, StateError>)
        ensures
            r matches Ok(v) ==> (v is Some <==> self.backend().saved().contains_key(key@)),
            r matches Ok(Some(s)) ==> s@ == self.backend().saved()[key@],
    {
        self.inner.load_json(key)
    }

    /// Stores `value` under `key`, refusing with `NoLock` when the backend
    /// does not hold its lock.
    pub fn store_json(&mut self, key: &str, value: &str) -> (r: Result<(), StateError>)
        ensures
            final(self).backend().lock_held() == old(self).backend().lock_held(),
            !old(self).backend().lock_held() ==> (r matches Err(e) && e.source is NoLock
                && e.action == Action::Storing && e.key@ == key@),
            !old(self).backend().lock_held() ==> final(self).backend() == old(self).backend(),
            r is Ok ==> final(self).backend().saved() == old(self).backend().saved().insert(
                key@,
                value@,
            ),
    {
        if !self.inner.can_store() {
            return Err(self.make_error(ErrorSource::NoLock, Action::Storing, key));
        }
        self.inner.store_json(key, value)
    }

    /// Whether the backend may be written.
    pub fn can_store(&self) -> (r: bool)
        ensures
            r ==> self.backend().lock_held(),
    {
        self.inner.can_store()
    }

    /// Takes the backend's lock.
    pub fn try_lock(&mut self) -> (r: Result<LockStatus, StateError>)
        ensures
            final(self).backend().saved() == old(self).backend().saved(),
            r is Ok ==> final(self).backend().lock_held(),
            r matches Ok(st) ==> (st == LockStatus::NewlyAcquired <==> !old(
                self,
            ).backend().lock_held()),
    {
        self.inner.try_lock()
    }

    /// Releases the backend's lock.
    pub fn unlock(&mut self) -> (r: Result<(), StateError>)
        ensures
            final(self).backend().saved() == old(self).backend().saved(),
            r is Ok ==> !final(self).backend().lock_held(),
    {
        self.inner.unlock()
    }
}

} // verus!
