//! The synchronous face of an asynchronous backend: a mirror preloaded with
//! every key under a prefix, answering reads at once, and a queue of
//! write-backs that the caller's runtime performs in the background.
use vstd::prelude::*;

use crate::dirstore::{CustomDirStore, DirError};
use crate::kv::LockStatus;
use crate::persist::{CustomStateMgr, StateError};
use crate::textmap::{lists_prefixed_keys, TextMap};

verus! {

/// A write to perform on the real backend, in the background.
#[derive(Clone, Debug)]
pub enum WriteBack {
    /// Store `value` under `key`.
    Persist { key: String, value: String },
    /// Delete `key`.
    Delete { key: String },
}

/// The map that preloaded entries stand for.
pub open spec fn preload_map(entries: Seq<(String, String)>) -> Map<Seq<char>, Seq<char>>
    decreases entries.len(),
{
    if entries.len() == 0 {
        Map::empty()
    } else {
        preload_map(entries.drop_last()).insert(entries.last().0@, entries.last().1@)
    }
}

/// Fills a mirror from preloaded entries.
fn mirror_of(entries: Vec<(String, String)>) -> (r: TextMap)
    ensures
        r@ == preload_map(entries@),
{
    let mut m = TextMap::new();
    let mut i: usize = 0;
    while i < entries.len()
        invariant
            0 <= i <= entries@.len(),
            m@ == preload_map(entries@.subrange(0, i as int)),
        decreases entries@.len() - i,
    {
        m.insert(entries[i].0.as_str(), entries[i].1.as_str());
        assert(entries@.subrange(0, i + 1).drop_last() =~= entries@.subrange(0, i as int));
        i = i + 1;
    }
    assert(entries@.subrange(0, entries@.len() as int) =~= entries@);
    m
}

/// The spec text of a queued write-back.
pub open spec fn persist_of(key: Seq<char>, value: Seq<char>, w: WriteBack) -> bool {
    w matches WriteBack::Persist { key: k, value: v } && k@ == key && v@ == value
}

/// State kept by a mirror over an asynchronous store: values under
/// `state:` keys, with a lock taken locally.
pub struct MirrorStateMgr {
    cache: TextMap,
    locked: bool,
    pending: Vec<WriteBack>,
}

/// Prefix of state keys in the backend.
pub open spec fn mirror_state_key(key: Seq<char>) -> Seq<char> {
    "state:"@ + key
}

fn state_key(key: &str) -> (r: String)
    ensures
        r@ == mirror_state_key(key@),
{
    let mut s = String::from_str("state:");
    s.append(key);
    s
}

impl MirrorStateMgr {
    /// The prefix whose keys a preload must fetch.
    pub fn key_prefix() -> (r: &'static str)
        ensures
            r@ == "state:"@,
    {
        "state:"
    }

    /// A mirror over the entries a complete preload fetched (full backend
    /// keys, as listed under `key_prefix`); unlocked, with nothing queued.
    pub fn from_preload(entries: Vec<(String, String)>) -> (r: MirrorStateMgr)
        ensures
            r.mirror() == preload_map(entries@),
            !r.lock_held(),
            r.queued().len() == 0,
    {
        MirrorStateMgr { cache: mirror_of(entries), locked: false, pending: Vec::new() }
    }

    /// What the mirror holds, by full backend key.
    pub closed spec fn mirror(&self) -> Map<Seq<char>, Seq<char>> {
        self.cache@
    }

    /// Write-backs not yet handed out, oldest first.
    pub closed spec fn queued(&self) -> Seq<WriteBack> {
        self.pending@
    }

    /// Hands out the queued write-backs, oldest first, for the runtime to perform.
    pub fn take_pending(&mut self) -> (r: Vec<WriteBack>)
        ensures
            r@ == old(self).queued(),
            final(self).queued().len() == 0,
            final(self).mirror() == old(self).mirror(),
            final(self).lock_held() == old(self).lock_held(),
    {
        let mut out: Vec<WriteBack> = Vec::new();
        std::mem::swap(&mut out, &mut self.pending);
        out
    }
}

impl CustomStateMgr for MirrorStateMgr {
    open spec fn saved(&self) -> Map<Seq<char>, Seq<char>> {
        Map::new(
            |k: Seq<char>| self.mirror().contains_key(mirror_state_key(k)),
            |k: Seq<char>| self.mirror()[mirror_state_key(k)],
        )
    }

    closed spec fn lock_held(&self) -> bool {
        self.locked
    }

    fn load_json(&self, key: &str) -> (r: Result<Option<String>, StateError>) {
        Ok(self.load_now(key))
    }

    fn store_json(&mut self, key: &str, value: &str) -> (r: Result<(), StateError>) {
        self.store_now(key, value)
    }

    fn can_store(&self) -> (r: bool) {
        self.locked
    }

    fn try_lock(&mut self) -> (r: Result<LockStatus, StateError>) {
        if self.locked {
            Ok(LockStatus::AlreadyHeld)
        } else {
            self.locked = true;
            Ok(LockStatus::NewlyAcquired)
        }
    }

    fn unlock(&mut self) -> (r: Result<(), StateError>) {
        self.locked = false;
        Ok(())
    }
}

impl MirrorStateMgr {
    /// Reads from the mirror; never waits and never fails.
    pub fn load_now(&self, key: &str) -> (r: Option<String>)
        ensures
            r is Some <==> self.saved().contains_key(key@),
            r matches Some(s) ==> s@ == self.saved()[key@],
    {
        let k = state_key(key);
        self.cache.get(k.as_str())
    }

    /// Stores through the mirror: the value is visible at once, and its
    /// write-back is queued after those already waiting.
    pub fn store_now(&mut self, key: &str, value: &str) -> (r: Result<(), StateError>)
        ensures
            r is Ok <==> old(self).lock_held(),
            final(self).lock_held() == old(self).lock_held(),
            r is Ok ==> final(self).saved() == old(self).saved().insert(key@, value@),
            r is Ok ==> final(self).queued().len() == old(self).queued().len() + 1
                && final(self).queued().drop_last() == old(self).queued()
                && persist_of(mirror_state_key(key@), value@, final(self).queued().last()),
            r is Err ==> final(self).saved() == old(self).saved() && final(self).queued() == old(self).queued(),
    {
        if !self.locked {
            return Err(StateError::new(crate::persist::ErrorSource::NoLock, crate::persist::Action::Storing, key));
        }
        let ghost before = self.saved();
        let ghost q0 = self.pending@;
        let k = state_key(key);
        self.cache.insert(k.as_str(), value);
        self.pending.push(WriteBack::Persist { key: k, value: String::from_str(value) });
        assert forall|q: Seq<char>| #[trigger]
            self.saved().contains_key(q) == before.insert(key@, value@).contains_key(q)
                && (self.saved().contains_key(q) ==> self.saved()[q] == before.insert(key@, value@)[q]) by {
            crate::split::lemma_prefix_injective("state:"@, q, key@);
        }
        assert(self.saved() =~= before.insert(key@, value@));
        assert(self.pending@.drop_last() =~= q0);
        Ok(())
    }
}

/// The directory cache's mirror over an asynchronous store: `dir:` keys
/// passed through, writes refused while read-only.
pub struct MirrorDirStore {
    cache: TextMap,
    readonly: bool,
    pending: Vec<WriteBack>,
}

impl MirrorDirStore {
    /// The prefix whose keys a preload must fetch.
    pub fn key_prefix() -> (r: &'static str)
        ensures
            r@ == "dir:"@,
    {
        "dir:"
    }

    /// A mirror over the entries a complete preload fetched; nothing queued.
    pub fn from_preload(entries: Vec<(String, String)>, readonly: bool) -> (r: MirrorDirStore)
        ensures
            r.documents() == preload_map(entries@),
            r.writable() == !readonly,
            r.queued().len() == 0,
    {
        MirrorDirStore { cache: mirror_of(entries), readonly, pending: Vec::new() }
    }

    /// Write-backs not yet handed out, oldest first.
    pub closed spec fn queued(&self) -> Seq<WriteBack> {
        self.pending@
    }

    /// Hands out the queued write-backs, oldest first.
    pub fn take_pending(&mut self) -> (r: Vec<WriteBack>)
        ensures
            r@ == old(self).queued(),
            final(self).queued().len() == 0,
            final(self).documents() == old(self).documents(),
            final(self).writable() == old(self).writable(),
    {
        let mut out: Vec<WriteBack> = Vec::new();
        std::mem::swap(&mut out, &mut self.pending);
        out
    }

    /// Whether writes are refused, exactly.
    pub fn is_readonly_now(&self) -> (r: bool)
        ensures
            r == !self.writable(),
    {
        self.readonly
    }

    /// Reads from the mirror; never waits and never fails.
    pub fn load_now(&self, key: &str) -> (r: Option<String>)
        ensures
            r is Some <==> self.documents().contains_key(key@),
            r matches Some(s) ==> s@ == self.documents()[key@],
    {
        self.cache.get(key)
    }

    /// Every mirrored key that starts with `prefix`, each once; never fails.
    pub fn keys_now(&self, prefix: &str) -> (r: Vec<String>)
        ensures
            lists_prefixed_keys(r@, self.documents(), prefix@),
    {
        self.cache.keys_with_prefix(prefix)
    }

    /// Stores through the mirror: visible at once, write-back queued;
    /// refused while read-only.
    pub fn store_now(&mut self, key: &str, value: &str) -> (r: Result<(), DirError>)
        ensures
            final(self).writable() == old(self).writable(),
            r is Ok <==> old(self).writable(),
            !old(self).writable() ==> (r matches Err(DirError::ReadOnly)) && final(self).documents()
                == old(self).documents() && final(self).queued() == old(self).queued(),
            r is Ok ==> final(self).documents() == old(self).documents().insert(key@, value@)
                && final(self).queued().drop_last() == old(self).queued()
                && final(self).queued().len() == old(self).queued().len() + 1
                && persist_of(key@, value@, final(self).queued().last()),
    {
        if self.readonly {
            return Err(DirError::ReadOnly);
        }
        let ghost q0 = self.pending@;
        self.cache.insert(key, value);
        self.pending.push(WriteBack::Persist { key: String::from_str(key), value: String::from_str(value) });
        assert(self.pending@.drop_last() =~= q0);
        Ok(())
    }

    /// Deletes through the mirror: gone at once, deletion queued; refused
    /// while read-only.
    pub fn delete_now(&mut self, key: &str) -> (r: Result<(), DirError>)
        ensures
            final(self).writable() == old(self).writable(),
            r is Ok <==> old(self).writable(),
            !old(self).writable() ==> (r matches Err(DirError::ReadOnly)) && final(self).documents()
                == old(self).documents() && final(self).queued() == old(self).queued(),
            r is Ok ==> final(self).documents() == old(self).documents().remove(key@)
                && final(self).queued().drop_last() == old(self).queued()
                && final(self).queued().len() == old(self).queued().len() + 1
                && (final(self).queued().last() matches WriteBack::Delete { key: k } && k@ == key@),
    {
        if self.readonly {
            return Err(DirError::ReadOnly);
        }
        let ghost q0 = self.pending@;
        self.cache.remove(key);
        self.pending.push(WriteBack::Delete { key: String::from_str(key) });
        assert(self.pending@.drop_last() =~= q0);
        Ok(())
    }
}

impl CustomDirStore for MirrorDirStore {
    closed spec fn documents(&self) -> Map<Seq<char>, Seq<char>> {
        self.cache@
    }

    closed spec fn writable(&self) -> bool {
        !self.readonly
    }

    fn load(&self, key: &str) -> (r: Result<Option<String>, DirError>) {
        Ok(self.load_now(key))
    }

    fn store(&mut self, key: &str, value: &str) -> (r: Result<(), DirError>) {
        self.store_now(key, value)
    }

    fn delete(&mut self, key: &str) -> (r: Result<(), DirError>) {
        self.delete_now(key)
    }

    fn keys(&self, prefix: &str) -> (r: Result<Vec<String>, DirError>) {
        Ok(self.keys_now(prefix))
    }

    fn is_readonly(&self) -> (r: bool) {
        self.is_readonly_now()
    }

    fn upgrade_to_readwrite(&mut self) -> (r: Result<bool, DirError>) {
        self.readonly = false;
        Ok(true)
    }
}

/// A value stored through the directory mirror is read back from it at
/// once, while its write-back still waits in the queue.
pub proof fn lemma_dir_write_visible_before_persisted(
    before: MirrorDirStore,
    after: MirrorDirStore,
    key: Seq<char>,
    value: Seq<char>,
)
    requires
        after.documents() == before.documents().insert(key, value),
        after.queued().len() == before.queued().len() + 1,
        persist_of(key, value, after.queued().last()),
    ensures
        after.documents().contains_key(key),
        after.documents()[key] == value,
        exists|i: int| 0 <= i < after.queued().len() && persist_of(key, value, #[trigger] after.queued()[i]),
{
    assert(persist_of(key, value, after.queued()[after.queued().len() - 1]));
}

/// A value stored through the state mirror is read back from it at once,
/// while its write-back still waits in the queue.
pub proof fn lemma_write_visible_before_persisted(
    before: MirrorStateMgr,
    after: MirrorStateMgr,
    key: Seq<char>,
    value: Seq<char>,
)
    requires
        after.saved() == before.saved().insert(key, value),
        after.queued().len() == before.queued().len() + 1,
        persist_of(mirror_state_key(key), value, after.queued().last()),
    ensures
        after.saved().contains_key(key),
        after.saved()[key] == value,
        exists|i: int| 0 <= i < after.queued().len() && persist_of(mirror_state_key(key), value, #[trigger] after.queued()[i]),
{
    assert(persist_of(mirror_state_key(key), value, after.queued()[after.queued().len() - 1]));
}

} // verus!
