//! One key-value backend seen as two stores: state under `state:` keys and
//! the directory cache under its own `dir:` keys, sharing one lock.
use vstd::prelude::*;

use crate::dirstore::{CustomDirStore, DirError};
use crate::kv::{KeyValueStore, LockStatus, StorageError};
use crate::persist::{Action, CustomStateMgr, ErrorSource, StateError};
use crate::textmap::lists_prefixed_keys;

verus! {

/// The prefix that state keys get in the shared backend.
pub open spec fn state_prefix() -> Seq<char> {
    "state:"@
}

/// A backend split into a state view and a directory view.  Both views
/// read and take the one lock of the backend.
pub struct SplitStorage<S: KeyValueStore> {
    store: S,
}

/// Splits one backend into its state view and its directory view.
pub fn split_storage<S: KeyValueStore>(store: S) -> (r: SplitStorage<S>)
    ensures
        r.backend() == store,
{
    SplitStorage { store }
}

/// Prefixing keeps keys apart.
pub proof fn lemma_prefix_injective(p: Seq<char>, a: Seq<char>, b: Seq<char>)
    ensures
        (p + a == p + b) <==> a == b,
{
    if p + a == p + b {
        assert(a =~= (p + a).subrange(p.len() as int, (p + a).len() as int));
        assert(b =~= (p + b).subrange(p.len() as int, (p + b).len() as int));
    }
}

fn backend_error(e: StorageError, action: Action, key: &str) -> (r: StateError)
    ensures
        r.source == ErrorSource::Backend(e.message),
        r.action == action,
        r.key@ == key@,
{
    StateError::new(ErrorSource::Backend(e.message), action, key)
}

impl<S: KeyValueStore> SplitStorage<S> {
    /// The shared backend.
    pub closed spec fn backend(&self) -> S {
        self.store
    }

    /// The backend key of a state key.
    pub fn prefixed(key: &str) -> (r: String)
        ensures
            r@ == state_prefix() + key@,
    {
        let mut s = String::from_str("state:");
        s.append(key);
        s
    }

    /// Whether the backend reports that it holds the lock; a failing query
    /// counts as not held.
    fn lock_reported(&self) -> (r: bool)
        ensures
            r ==> self.backend().holds_lock(),
    {
        match self.store.is_locked() {
            Ok(b) => b,
            Err(_) => false,
        }
    }

    /// Whether the directory view may be written, as the backend answers:
    /// exactly when the shared lock is held.
    pub fn dir_writable(&self) -> (r: Result<bool, DirError>)
        ensures
            r matches Ok(b) ==> b == CustomDirStore::writable(self),
            r matches Ok(b) ==> b == CustomStateMgr::lock_held(self),
    {
        match self.store.is_locked() {
            Ok(b) => Ok(b),
            Err(e) => Err(DirError::from_storage(e)),
        }
    }

    /// Whether the backend holds the lock, as the state view sees it.
    pub fn is_locked(&self) -> (r: Result<bool, StateError>)
        ensures
            r matches Ok(b) ==> b == self.backend().holds_lock(),
    {
        match self.store.is_locked() {
            Ok(b) => Ok(b),
            Err(e) => Err(backend_error(e, Action::Locking, "")),
        }
    }
}

impl<S: KeyValueStore> CustomStateMgr for SplitStorage<S> {
    closed spec fn saved(&self) -> Map<Seq<char>, Seq<char>> {
        Map::new(
            |k: Seq<char>| self.store.entries().contains_key(state_prefix() + k),
            |k: Seq<char>| self.store.entries()[state_prefix() + k],
        )
    }

    closed spec fn lock_held(&self) -> bool {
        self.store.holds_lock()
    }

    fn load_json(&self, key: &str) -> (r: Result<Option<String>, StateError>) {
        let full = Self::prefixed(key);
        match self.store.get(full.as_str()) {
            Ok(v) => Ok(v),
            Err(e) => Err(backend_error(e, Action::Loading, key)),
        }
    }

    fn store_json(&mut self, key: &str, value: &str) -> (r: Result<(), StateError>) {
        let full = Self::prefixed(key);
        let ghost before = self.saved();
        match self.store.set(full.as_str(), value) {
            Ok(()) => {
                assert forall|k: Seq<char>| #[trigger]
                    self.saved().contains_key(k) == before.insert(key@, value@).contains_key(k)
                        && (self.saved().contains_key(k) ==> self.saved()[k] == before.insert(
                        key@,
                        value@,
                    )[k]) by {
                    lemma_prefix_injective(state_prefix(), k, key@);
                }
                assert(self.saved() =~= before.insert(key@, value@));
                Ok(())
            },
            Err(e) => Err(backend_error(e, Action::Storing, key)),
        }
    }

    fn can_store(&self) -> (r: bool) {
        self.lock_reported()
    }

    fn try_lock(&mut self) -> (r: Result<LockStatus, StateError>) {
        let ghost before = self.saved();
        let r = self.store.try_lock();
        assert(self.saved() =~= before);
        match r {
            Ok(true) => Ok(LockStatus::NewlyAcquired),
            Ok(false) => Ok(LockStatus::AlreadyHeld),
            Err(e) => Err(backend_error(e, Action::Locking, "")),
        }
    }

    fn unlock(&mut self) -> (r: Result<(), StateError>) {
        let ghost before = self.saved();
        let r = self.store.unlock();
        assert(self.saved() =~= before);
        match r {
            Ok(()) => Ok(()),
            Err(e) => Err(backend_error(e, Action::Unlocking, "")),
        }
    }
}

impl<S: KeyValueStore> CustomDirStore for SplitStorage<S> {
    closed spec fn documents(&self) -> Map<Seq<char>, Seq<char>> {
        self.store.entries()
    }

    closed spec fn writable(&self) -> bool {
        self.store.holds_lock()
    }

    fn load(&self, key: &str) -> (r: Result<Option<String>, DirError>) {
        match self.store.get(key) {
            Ok(v) => Ok(v),
            Err(e) => Err(DirError::from_storage(e)),
        }
    }

    fn store(&mut self, key: &str, value: &str) -> (r: Result<(), DirError>) {
        if !self.lock_reported() {
            return Err(DirError::ReadOnly);
        }
        match self.store.set(key, value) {
            Ok(()) => Ok(()),
            Err(e) => Err(DirError::from_storage(e)),
        }
    }

    fn delete(&mut self, key: &str) -> (r: Result<(), DirError>) {
        if !self.lock_reported() {
            return Err(DirError::ReadOnly);
        }
        match self.store.delete(key) {
            Ok(()) => Ok(()),
            Err(e) => Err(DirError::from_storage(e)),
        }
    }

    fn keys(&self, prefix: &str) -> (r: Result<Vec<String>, DirError>) {
        match self.store.keys(prefix) {
            Ok(ks) => Ok(ks),
            Err(e) => Err(DirError::from_storage(e)),
        }
    }

    fn is_readonly(&self) -> (r: bool) {
        !self.lock_reported()
    }

    fn upgrade_to_readwrite(&mut self) -> (r: Result<bool, DirError>) {
        match self.store.try_lock() {
            Ok(_) => Ok(true),
            Err(e) => Err(DirError::from_storage(e)),
        }
    }
}

/// The two views share one lock: the directory view may be written exactly
/// when the state view holds the lock.
pub proof fn lemma_views_share_lock<S: KeyValueStore>(s: SplitStorage<S>)
    ensures
        CustomDirStore::writable(&s) == CustomStateMgr::lock_held(&s),
        CustomDirStore::writable(&s) == s.backend().holds_lock(),
        CustomDirStore::documents(&s) == s.backend().entries(),
        forall|k: Seq<char>|
            #[trigger] CustomStateMgr::saved(&s).contains_key(k) <==> s.backend().entries().contains_key(
                state_prefix() + k,
            ),
{
}

} // verus!
