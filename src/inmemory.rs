//! The directory cache kept in memory: the same records as the cache over a
//! custom backend, held as values rather than JSON text.
//!
//! Each collection is keyed by the text form of the record's identity (the
//! same `dir:` key a custom backend uses, with digests in hexadecimal).
//! That form is one-to-one with the identity, so lookups, replacement and
//! removal behave as with a map keyed by the identity itself.
use vstd::prelude::*;

use crate::dircache::{listed, pair_up, paired, std_of, system_time_now};
use crate::dirstore::{
    authcert_key, authcert_key_of, consensus_key, consensus_key_of, microdesc_key, microdesc_key_of,
    routerdesc_key, routerdesc_key_of, DirError,
};
use crate::docmeta::{
    expired_at, is_expired, time_duration_to_std, AuthCertKeyIds, AuthCertMeta,
    CachedBridgeDescriptor, ConsensusFlavor, ConsensusMeta, ExpirationConfig, StdDuration,
};
use crate::keyed::KeyedList;

verus! {

/// A consensus held in memory.
#[derive(Clone, Debug)]
pub struct MemConsensus {
    pub flavor: ConsensusFlavor,
    pub meta: ConsensusMeta,
    pub pending: bool,
    pub content: String,
}

/// Whether two digests are equal.
pub fn same_digest(a: &[u8; 32], b: &[u8; 32]) -> (r: bool)
    ensures
        r == (a@ == b@),
{
    let mut i: usize = 0;
    while i < 32
        invariant
            a@.len() == 32,
            b@.len() == 32,
            0 <= i <= 32,
            forall|j: int| 0 <= j < i ==> a@[j] == b@[j],
        decreases 32 - i,
    {
        if a[i] != b[i] {
            return false;
        }
        i = i + 1;
    }
    assert(a@ =~= b@);
    true
}

/// A consensus of `flavor` that passes the pending filter.
pub open spec fn mem_passes(c: MemConsensus, flavor: ConsensusFlavor, want: Option<bool>) -> bool {
    c.flavor == flavor && (want matches Some(w) ==> c.pending == w)
}

/// `k` holds the latest consensus of `flavor` that passes the filter.
pub open spec fn mem_is_latest(
    m: Map<Seq<char>, MemConsensus>,
    flavor: ConsensusFlavor,
    want: Option<bool>,
    k: Seq<char>,
) -> bool {
    &&& m.contains_key(k)
    &&& mem_passes(m[k], flavor, want)
    &&& forall|k2: Seq<char>|
        #[trigger] m.contains_key(k2) && mem_passes(m[k2], flavor, want)
            ==> m[k2].meta.valid_after <= m[k].meta.valid_after
}

/// No consensus of `flavor` passes the filter.
pub open spec fn mem_none_passes(
    m: Map<Seq<char>, MemConsensus>,
    flavor: ConsensusFlavor,
    want: Option<bool>,
) -> bool {
    forall|k: Seq<char>| #[trigger] m.contains_key(k) ==> !mem_passes(m[k], flavor, want)
}

/// `m1` is `m0` with the consensus under `k` set to the given fields.
pub open spec fn stored_as(
    m0: Map<Seq<char>, MemConsensus>,
    m1: Map<Seq<char>, MemConsensus>,
    k: Seq<char>,
    flavor: ConsensusFlavor,
    meta: ConsensusMeta,
    pending: bool,
    content: Seq<char>,
) -> bool {
    &&& m1.contains_key(k)
    &&& m1 == m0.insert(k, m1[k])
    &&& m1[k].flavor == flavor && m1[k].meta == meta && m1[k].pending == pending
    &&& m1[k].content@ == content
}

/// The keys of the consensuses whose whole digest is `d`.
pub open spec fn with_whole(m: Map<Seq<char>, MemConsensus>, d: Seq<u8>) -> Set<Seq<char>> {
    Set::new(|k: Seq<char>| m.contains_key(k) && m[k].meta.sha3_of_whole@ == d)
}

/// The keys whose time, as `time_of` reads it, plus `tolerance` has passed at `now`.
pub open spec fn expired_in<V>(
    m: Map<Seq<char>, V>,
    time_of: spec_fn(V) -> u64,
    tolerance: StdDuration,
    now: u64,
) -> Set<Seq<char>> {
    Set::new(|k: Seq<char>| m.contains_key(k) && expired_at(now, time_of(m[k]), tolerance))
}


/// `m` after storing each certificate in turn.
pub open spec fn mem_with_authcerts(
    m: Map<Seq<char>, (AuthCertMeta, String)>,
    certs: Seq<(AuthCertMeta, String)>,
) -> Map<Seq<char>, (AuthCertMeta, String)>
    decreases certs.len(),
{
    if certs.len() == 0 {
        m
    } else {
        mem_with_authcerts(m, certs.drop_last()).insert(
            authcert_key_of(certs.last().0.key_ids),
            certs.last(),
        )
    }
}

/// `m` after storing each microdescriptor in turn, listed at `when`.
pub open spec fn mem_with_microdescs(
    m: Map<Seq<char>, (String, u64)>,
    docs: Seq<(String, [u8; 32])>,
    when: u64,
) -> Map<Seq<char>, (String, u64)>
    decreases docs.len(),
{
    if docs.len() == 0 {
        m
    } else {
        mem_with_microdescs(m, docs.drop_last(), when).insert(
            microdesc_key_of(docs.last().1@),
            (docs.last().0, when),
        )
    }
}

/// `m` after storing each router descriptor in turn.
pub open spec fn mem_with_routerdescs(
    m: Map<Seq<char>, (String, u64)>,
    docs: Seq<(String, u64, [u8; 20])>,
) -> Map<Seq<char>, (String, u64)>
    decreases docs.len(),
{
    if docs.len() == 0 {
        m
    } else {
        mem_with_routerdescs(m, docs.drop_last()).insert(
            routerdesc_key_of(docs.last().2@),
            (docs.last().0, docs.last().1),
        )
    }
}

/// `m` after raising, for each digest in turn, the last-listed time of a
/// stored microdescriptor to `when` where it was earlier.
pub open spec fn mem_with_listed(
    m: Map<Seq<char>, (String, u64)>,
    ds: Seq<[u8; 32]>,
    when: u64,
) -> Map<Seq<char>, (String, u64)>
    decreases ds.len(),
{
    if ds.len() == 0 {
        m
    } else {
        let m1 = mem_with_listed(m, ds.drop_last(), when);
        let k = microdesc_key_of(ds.last()@);
        if m1.contains_key(k) && m1[k].1 < when {
            m1.insert(k, (m1[k].0, when))
        } else {
            m1
        }
    }
}

/// Every pair is `(id, text)` for an asked-for id present in `m`, with the
/// text `m` holds for it, and every present asked-for id has a pair.
pub open spec fn mem_found_all<T, V>(
    m: Map<Seq<char>, V>,
    asked: Seq<T>,
    out: Seq<(T, String)>,
    key_of: spec_fn(T) -> Seq<char>,
    text_of: spec_fn(V) -> Seq<char>,
) -> bool {
    &&& forall|a: int|
        0 <= a < out.len() ==> mem_found_item(m, asked, key_of, text_of, #[trigger] out[a])
    &&& forall|j: int|
        0 <= j < asked.len() && m.contains_key(key_of(#[trigger] asked[j])) ==> listed(out, asked[j])
}

pub open spec fn mem_found_item<T, V>(
    m: Map<Seq<char>, V>,
    asked: Seq<T>,
    key_of: spec_fn(T) -> Seq<char>,
    text_of: spec_fn(V) -> Seq<char>,
    item: (T, String),
) -> bool {
    exists|j: int|
        0 <= j < asked.len() && #[trigger] asked[j] == item.0 && m.contains_key(key_of(asked[j]))
            && item.1@ == text_of(m[key_of(asked[j])])
}

pub proof fn lemma_mem_found_all<T, V>(
    m: Map<Seq<char>, V>,
    asked: Seq<T>,
    found: Seq<Option<String>>,
    out: Seq<(T, String)>,
    key_of: spec_fn(T) -> Seq<char>,
    text_of: spec_fn(V) -> Seq<char>,
)
    requires
        found.len() == asked.len(),
        forall|b: int|
            0 <= b < asked.len() ==> ((#[trigger] found[b]) is Some <==> m.contains_key(
                key_of(asked[b]),
            )),
        forall|b: int|
            0 <= b < asked.len() ==> (#[trigger] found[b] matches Some(c) ==> c@ == text_of(
                m[key_of(asked[b])],
            )),
        forall|a: int| 0 <= a < out.len() ==> paired(asked, found, #[trigger] out[a]),
        forall|j: int| 0 <= j < asked.len() && (#[trigger] found[j]) is Some ==> listed(out, asked[j]),
    ensures
        mem_found_all(m, asked, out, key_of, text_of),
{
    assert forall|a: int| 0 <= a < out.len() implies mem_found_item(
        m,
        asked,
        key_of,
        text_of,
        #[trigger] out[a],
    ) by {
        assert(paired(asked, found, out[a]));
        let j = choose|j: int|
            0 <= j < asked.len() && #[trigger] asked[j] == out[a].0 && found[j] == Some(out[a].1);
        assert(found[j] is Some);
        assert(found[j] matches Some(c) ==> c@ == text_of(m[key_of(asked[j])]));
    }
    assert forall|j: int|
        0 <= j < asked.len() && m.contains_key(key_of(#[trigger] asked[j])) implies listed(
        out,
        asked[j],
    ) by {
        assert(found[j] is Some);
    }
}

/// Removes from `list` each entry whose time in `times` (one per entry, in
/// storage order) plus `tolerance` has passed at `now`.
fn expire_list<V>(
    list: &mut KeyedList<V>,
    times: &Vec<u64>,
    Ghost(time_of): Ghost<spec_fn(V) -> u64>,
    tolerance: StdDuration,
    now: u64,
)
    requires
        times@.len() == old(list).keys_seq().len(),
        forall|i: int|
            0 <= i < times@.len() ==> #[trigger] times@[i] == time_of(
                old(list)@[old(list).keys_seq()[i]],
            ),
    ensures
        final(list)@ == old(list)@.remove_keys(expired_in(old(list)@, time_of, tolerance, now)),
{
    let ghost m0 = list@;
    let ghost ks = list.keys_seq();
    let n = list.len();
    let mut doomed: Vec<String> = Vec::new();
    let mut i: usize = 0;
    while i < n
        invariant
            n == ks.len(),
            ks == list.keys_seq(),
            m0 == list@,
            times@.len() == n,
            forall|j: int| 0 <= j < ks.len() ==> m0.contains_key(#[trigger] ks[j]),
            forall|j: int| 0 <= j < times@.len() ==> #[trigger] times@[j] == time_of(m0[ks[j]]),
            0 <= i <= n,
            forall|a: int| 0 <= a < doomed@.len() ==> expired_in(m0, time_of, tolerance, now).contains(#[trigger] doomed@[a]@),
            forall|j: int| 0 <= j < i && expired_at(now, #[trigger] times@[j], tolerance) ==> exists|a: int|
                0 <= a < doomed@.len() && doomed@[a]@ == ks[j],
        decreases n - i,
    {
        let ghost d0 = doomed@;
        let (k, _v) = list.entry_at(i);
        if is_expired(now, times[i], tolerance) {
            doomed.push(k.clone());
        }
        assert forall|j: int| 0 <= j < i + 1 && expired_at(now, #[trigger] times@[j], tolerance) implies exists|a: int|
            0 <= a < doomed@.len() && doomed@[a]@ == ks[j] by {
            if j < i {
                let a = choose|a: int| 0 <= a < d0.len() && d0[a]@ == ks[j];
                assert(doomed@[a]@ == ks[j]);
            } else {
                assert(doomed@[doomed@.len() - 1]@ == ks[j]);
            }
        }
        i = i + 1;
    }
    let ghost e = expired_in(m0, time_of, tolerance, now);
    let mut j: usize = 0;
    while j < doomed.len()
        invariant
            0 <= j <= doomed@.len(),
            forall|a: int| 0 <= a < doomed@.len() ==> e.contains(#[trigger] doomed@[a]@),
            list@ == m0.remove_keys(Set::new(|k: Seq<char>| exists|a: int| 0 <= a < j && #[trigger] doomed@[a]@ == k)),
        decreases doomed@.len() - j,
    {
        let ghost before = Set::new(|k: Seq<char>| exists|a: int| 0 <= a < j && #[trigger] doomed@[a]@ == k);
        let ghost after = Set::new(|k: Seq<char>| exists|a: int| 0 <= a < j + 1 && #[trigger] doomed@[a]@ == k);
        list.remove(doomed[j].as_str());
        assert(after =~= before.insert(doomed@[j as int]@)) by {
            assert forall|q: Seq<char>| after.contains(q) implies before.insert(doomed@[j as int]@).contains(q) by {
                let a = choose|a: int| 0 <= a < j + 1 && #[trigger] doomed@[a]@ == q;
                if a < j {
                    assert(before.contains(q));
                }
            }
            assert forall|q: Seq<char>| before.insert(doomed@[j as int]@).contains(q) implies after.contains(q) by {
                if q == doomed@[j as int]@ {
                    assert(doomed@[j as int]@ == q);
                } else {
                    let a = choose|a: int| 0 <= a < j && #[trigger] doomed@[a]@ == q;
                    assert(doomed@[a]@ == q);
                }
            }
        }
        assert(list@ =~= m0.remove_keys(after));
        j = j + 1;
    }
    let ghost all = Set::new(|k: Seq<char>| exists|a: int| 0 <= a < doomed@.len() && #[trigger] doomed@[a]@ == k);
    assert(m0.remove_keys(all) =~= m0.remove_keys(e)) by {
        assert forall|q: Seq<char>| e.contains(q) implies all.contains(q) by {
            let jj = choose|jj: int| 0 <= jj < ks.len() && #[trigger] ks[jj] == q;
            assert(expired_at(now, times@[jj], tolerance));
            let a = choose|a: int| 0 <= a < doomed@.len() && doomed@[a]@ == ks[jj];
            assert(doomed@[a]@ == q);
        }
        assert forall|q: Seq<char>| all.contains(q) implies e.contains(q) by {
            let a = choose|a: int| 0 <= a < doomed@.len() && #[trigger] doomed@[a]@ == q;
        }
    }
}

/// Only the collections marked as changing differ between `a` and `b`.
pub open spec fn unchanged_except(
    a: &InMemoryStore,
    b: &InMemoryStore,
    consensuses: bool,
    authcerts: bool,
    microdescs: bool,
    routerdescs: bool,
    bridges: bool,
    protocols: bool,
) -> bool {
    &&& (!consensuses ==> a.consensus_map() == b.consensus_map())
    &&& (!authcerts ==> a.authcert_map() == b.authcert_map())
    &&& (!microdescs ==> a.microdesc_map() == b.microdesc_map())
    &&& (!routerdescs ==> a.routerdesc_map() == b.routerdesc_map())
    &&& (!bridges ==> a.bridge_map() == b.bridge_map())
    &&& (!protocols ==> a.protocols() == b.protocols())
    &&& a.spec_readonly() == b.spec_readonly()
}

/// `b` is `a` after dropping every document expired at `now`.
pub open spec fn mem_swept(a: &InMemoryStore, b: &InMemoryStore, config: ExpirationConfig, now: u64) -> bool {
    &&& b.consensus_map() == a.consensus_map().remove_keys(
        expired_in(a.consensus_map(), |c: MemConsensus| c.meta.valid_until, std_of(config.consensuses), now),
    )
    &&& b.authcert_map() == a.authcert_map().remove_keys(
        expired_in(a.authcert_map(), |c: (AuthCertMeta, String)| c.0.expires, std_of(config.authcerts), now),
    )
    &&& b.microdesc_map() == a.microdesc_map().remove_keys(
        expired_in(a.microdesc_map(), |c: (String, u64)| c.1, std_of(config.microdescs), now),
    )
    &&& b.routerdesc_map() == a.routerdesc_map().remove_keys(
        expired_in(a.routerdesc_map(), |c: (String, u64)| c.1, std_of(config.router_descs), now),
    )
    &&& b.bridge_map() == a.bridge_map().remove_keys(
        expired_in(a.bridge_map(), |c: (CachedBridgeDescriptor, u64)| c.1, StdDuration { secs: 0, nanos: 0 }, now),
    )
}

/// The directory cache in memory.
pub struct InMemoryStore {
    consensuses: KeyedList<MemConsensus>,
    authcerts: KeyedList<(AuthCertMeta, String)>,
    microdescs: KeyedList<(String, u64)>,
    routerdescs: KeyedList<(String, u64)>,
    bridgedescs: KeyedList<(CachedBridgeDescriptor, u64)>,
    protocol_recs: Option<(u64, String)>,
    readonly: bool,
}

impl InMemoryStore {
    /// Consensuses by `dir:consensus:{flavor}:{whole digest}` key.
    pub closed spec fn consensus_map(&self) -> Map<Seq<char>, MemConsensus> {
        self.consensuses@
    }

    /// Certificates with their text, by certificate key.
    pub closed spec fn authcert_map(&self) -> Map<Seq<char>, (AuthCertMeta, String)> {
        self.authcerts@
    }

    /// Microdescriptors with their last-listed time, by digest key.
    pub closed spec fn microdesc_map(&self) -> Map<Seq<char>, (String, u64)> {
        self.microdescs@
    }

    /// Router descriptors with their publication time, by digest key.
    pub closed spec fn routerdesc_map(&self) -> Map<Seq<char>, (String, u64)> {
        self.routerdescs@
    }

    /// Bridge descriptors with their expiry, by bridge line.
    pub closed spec fn bridge_map(&self) -> Map<Seq<char>, (CachedBridgeDescriptor, u64)> {
        self.bridgedescs@
    }

    /// The protocol recommendations and their valid-after time.
    pub closed spec fn protocols(&self) -> Option<(u64, String)> {
        self.protocol_recs
    }

    /// Whether writes are refused.
    pub closed spec fn spec_readonly(&self) -> bool {
        self.readonly
    }

    /// Every document is as in `other`.
    pub open spec fn same_documents(&self, other: &InMemoryStore) -> bool {
        &&& self.consensus_map() == other.consensus_map()
        &&& self.authcert_map() == other.authcert_map()
        &&& self.microdesc_map() == other.microdesc_map()
        &&& self.routerdesc_map() == other.routerdesc_map()
        &&& self.bridge_map() == other.bridge_map()
        &&& self.protocols() == other.protocols()
    }

    /// An empty store, read-only or not.
    pub fn new(readonly: bool) -> (r: InMemoryStore)
        ensures
            r.consensus_map() == Map::<Seq<char>, MemConsensus>::empty(),
            r.authcert_map() == Map::<Seq<char>, (AuthCertMeta, String)>::empty(),
            r.microdesc_map() == Map::<Seq<char>, (String, u64)>::empty(),
            r.routerdesc_map() == Map::<Seq<char>, (String, u64)>::empty(),
            r.bridge_map() == Map::<Seq<char>, (CachedBridgeDescriptor, u64)>::empty(),
            r.protocols() is None,
            r.spec_readonly() == readonly,
    {
        InMemoryStore {
            consensuses: KeyedList::new(),
            authcerts: KeyedList::new(),
            microdescs: KeyedList::new(),
            routerdescs: KeyedList::new(),
            bridgedescs: KeyedList::new(),
            protocol_recs: None,
            readonly,
        }
    }

    pub fn is_readonly(&self) -> (r: bool)
        ensures
            r == self.spec_readonly(),
    {
        self.readonly
    }

    /// Makes the store writable; always succeeds.
    pub fn upgrade_to_readwrite(&mut self) -> (r: Result<bool, DirError>)
        ensures
            r == Ok::<bool, DirError>(true),
            !final(self).spec_readonly(),
            final(self).same_documents(old(self)),
    {
        self.readonly = false;
        Ok(true)
    }

    /// The position of the latest consensus of `flavor` passing the filter.
    fn latest_position(&self, flavor: ConsensusFlavor, want: Option<bool>) -> (r: Option<usize>)
        ensures
            r is None ==> mem_none_passes(self.consensus_map(), flavor, want),
            r matches Some(i) ==> i < self.consensuses.keys_seq().len() && mem_is_latest(
                self.consensus_map(),
                flavor,
                want,
                self.consensuses.keys_seq()[i as int],
            ),
    {
        let n = self.consensuses.len();
        let ghost ks = self.consensuses.keys_seq();
        let ghost m = self.consensus_map();
        let mut best: Option<usize> = None;
        let mut best_va: u64 = 0;
        let mut i: usize = 0;
        while i < n
            invariant
                n == ks.len(),
                ks == self.consensuses.keys_seq(),
                m == self.consensus_map(),
                forall|j: int| 0 <= j < ks.len() ==> m.contains_key(#[trigger] ks[j]),
                0 <= i <= n,
                best is None ==> forall|j: int|
                    0 <= j < i ==> !mem_passes(#[trigger] m[ks[j]], flavor, want),
                best matches Some(b) ==> {
                    &&& b < i
                    &&& mem_passes(m[ks[b as int]], flavor, want)
                    &&& best_va == m[ks[b as int]].meta.valid_after
                    &&& forall|j: int|
                        0 <= j < i && mem_passes(#[trigger] m[ks[j]], flavor, want)
                            ==> m[ks[j]].meta.valid_after <= best_va
                },
            decreases n - i,
        {
            let (_k, v) = self.consensuses.entry_at(i);
            let ok = v.flavor == flavor && match want {
                Some(w) => v.pending == w,
                None => true,
            };
            if ok {
                match best {
                    None => {
                        best = Some(i);
                        best_va = v.meta.valid_after;
                    },
                    Some(_) => {
                        if v.meta.valid_after > best_va {
                            best = Some(i);
                            best_va = v.meta.valid_after;
                        }
                    },
                }
            }
            i = i + 1;
        }
        match best {
            None => {
                assert forall|k: Seq<char>| #[trigger] m.contains_key(k) implies !mem_passes(
                    m[k],
                    flavor,
                    want,
                ) by {
                    let j = choose|j: int| 0 <= j < ks.len() && #[trigger] ks[j] == k;
                    assert(!mem_passes(m[ks[j]], flavor, want));
                }
            },
            Some(b) => {
                assert forall|k2: Seq<char>| #[trigger]
                    m.contains_key(k2) && mem_passes(m[k2], flavor, want) implies m[k2].meta.valid_after
                    <= m[ks[b as int]].meta.valid_after by {
                    let j = choose|j: int| 0 <= j < ks.len() && #[trigger] ks[j] == k2;
                    assert(mem_passes(m[ks[j]], flavor, want));
                }
            },
        }
        best
    }

    /// The text of the latest consensus of a flavor that passes the filter.
    pub fn latest_consensus(&self, flavor: ConsensusFlavor, pending: Option<bool>) -> (r: Result<
        Option<String>,
        DirError,
    >)
        ensures
            r is Ok,
            r matches Ok(None) ==> mem_none_passes(self.consensus_map(), flavor, pending),
            r matches Ok(Some(c)) ==> exists|k: Seq<char>|
                #[trigger] mem_is_latest(self.consensus_map(), flavor, pending, k)
                    && c@ == self.consensus_map()[k].content@,
    {
        match self.latest_position(flavor, pending) {
            None => Ok(None),
            Some(i) => {
                let (_k, v) = self.consensuses.entry_at(i);
                Ok(Some(v.content.clone()))
            },
        }
    }

    /// The metadata of the latest usable (not pending) consensus of a flavor.
    pub fn latest_consensus_meta(&self, flavor: ConsensusFlavor) -> (r: Result<
        Option<ConsensusMeta>,
        DirError,
    >)
        ensures
            r is Ok,
            r matches Ok(None) ==> mem_none_passes(self.consensus_map(), flavor, Some(false)),
            r matches Ok(Some(m)) ==> exists|k: Seq<char>|
                #[trigger] mem_is_latest(self.consensus_map(), flavor, Some(false), k)
                    && m == self.consensus_map()[k].meta,
    {
        match self.latest_position(flavor, Some(false)) {
            None => Ok(None),
            Some(i) => {
                let (_k, v) = self.consensuses.entry_at(i);
                Ok(Some(v.meta))
            },
        }
    }

    /// The first consensus whose signed part has digest `d`, with its metadata.
    pub fn consensus_by_sha3_digest_of_signed_part(&self, d: &[u8; 32]) -> (r: Result<
        Option<(String, ConsensusMeta)>,
        DirError,
    >)
        ensures
            r is Ok,
            r matches Ok(None) ==> forall|k: Seq<char>|
                #[trigger] self.consensus_map().contains_key(k)
                    ==> self.consensus_map()[k].meta.sha3_of_signed@ != d@,
            r matches Ok(Some(p)) ==> exists|k: Seq<char>|
                #[trigger] self.consensus_map().contains_key(k)
                    && self.consensus_map()[k].meta.sha3_of_signed@ == d@ && p.0@
                    == self.consensus_map()[k].content@ && p.1 == self.consensus_map()[k].meta,
    {
        let n = self.consensuses.len();
        let ghost ks = self.consensuses.keys_seq();
        let ghost m = self.consensus_map();
        let mut i: usize = 0;
        while i < n
            invariant
                n == ks.len(),
                ks == self.consensuses.keys_seq(),
                m == self.consensus_map(),
                forall|j: int| 0 <= j < ks.len() ==> m.contains_key(#[trigger] ks[j]),
                0 <= i <= n,
                forall|j: int| 0 <= j < i ==> (#[trigger] m[ks[j]]).meta.sha3_of_signed@ != d@,
            decreases n - i,
        {
            let (k, v) = self.consensuses.entry_at(i);
            if same_digest(&v.meta.sha3_of_signed, d) {
                assert(m.contains_key(k@));
                return Ok(Some((v.content.clone(), v.meta)));
            }
            i = i + 1;
        }
        assert forall|k: Seq<char>| #[trigger] m.contains_key(k) implies m[k].meta.sha3_of_signed@
            != d@ by {
            let j = choose|j: int| 0 <= j < ks.len() && #[trigger] ks[j] == k;
            assert(m[ks[j]].meta.sha3_of_signed@ != d@);
        }
        Ok(None)
    }

    /// Stores a consensus under its flavor and whole digest, replacing any
    /// earlier copy; refused while read-only.
    pub fn store_consensus(
        &mut self,
        cmeta: &ConsensusMeta,
        flavor: ConsensusFlavor,
        pending: bool,
        contents: &str,
    ) -> (r: Result<(), DirError>)
        ensures
            unchanged_except(final(self), old(self), true, false, false, false, false, false),
            old(self).spec_readonly() ==> (r matches Err(DirError::ReadOnly))
                && final(self).consensus_map() == old(self).consensus_map(),
            !old(self).spec_readonly() ==> r is Ok && stored_as(
                old(self).consensus_map(),
                final(self).consensus_map(),
                consensus_key_of(flavor, cmeta.sha3_of_whole@),
                flavor,
                *cmeta,
                pending,
                contents@,
            ),
    {
        if self.readonly {
            return Err(DirError::ReadOnly);
        }
        let key = consensus_key(flavor, &cmeta.sha3_of_whole);
        let c = MemConsensus { flavor, meta: *cmeta, pending, content: String::from_str(contents) };
        self.consensuses.insert(key.as_str(), c);
        Ok(())
    }
}

impl InMemoryStore {
    /// Clears the pending flag of the first consensus whose whole digest
    /// matches; nothing changes when there is none.  Refused while read-only.
    pub fn mark_consensus_usable(&mut self, cmeta: &ConsensusMeta) -> (r: Result<(), DirError>)
        ensures
            unchanged_except(final(self), old(self), true, false, false, false, false, false),
            old(self).spec_readonly() <==> (r matches Err(DirError::ReadOnly)),
            !old(self).spec_readonly() ==> r is Ok,
            old(self).spec_readonly() ==> final(self).consensus_map() == old(self).consensus_map(),
            !old(self).spec_readonly() ==> r is Ok && {
                ||| (forall|k: Seq<char>|
                    #[trigger] old(self).consensus_map().contains_key(k)
                        ==> old(self).consensus_map()[k].meta.sha3_of_whole@ != cmeta.sha3_of_whole@)
                    && final(self).consensus_map() == old(self).consensus_map()
                ||| exists|k: Seq<char>|
                    #[trigger] old(self).consensus_map().contains_key(k)
                        && old(self).consensus_map()[k].meta.sha3_of_whole@ == cmeta.sha3_of_whole@
                        && final(self).consensus_map() == old(self).consensus_map().insert(
                        k,
                        final(self).consensus_map()[k],
                    ) && final(self).consensus_map()[k].flavor == old(self).consensus_map()[k].flavor
                        && final(self).consensus_map()[k].meta == old(self).consensus_map()[k].meta
                        && !final(self).consensus_map()[k].pending
                        && final(self).consensus_map()[k].content@ == old(self).consensus_map()[k].content@
            },
    {
        if self.readonly {
            return Err(DirError::ReadOnly);
        }
        let n = self.consensuses.len();
        let ghost ks = self.consensuses.keys_seq();
        let ghost m = self.consensus_map();
        let mut i: usize = 0;
        while i < n
            invariant
                n == ks.len(),
                ks == self.consensuses.keys_seq(),
                m == self.consensus_map(),
                *self == *old(self),
                !self.readonly,
                forall|j: int| 0 <= j < ks.len() ==> m.contains_key(#[trigger] ks[j]),
                0 <= i <= n,
                forall|j: int| 0 <= j < i ==> (#[trigger] m[ks[j]]).meta.sha3_of_whole@ != cmeta.sha3_of_whole@,
            decreases n - i,
        {
            let (k, v) = self.consensuses.entry_at(i);
            if same_digest(&v.meta.sha3_of_whole, &cmeta.sha3_of_whole) {
                let key = k.clone();
                let c = MemConsensus {
                    flavor: v.flavor,
                    meta: v.meta,
                    pending: false,
                    content: v.content.clone(),
                };
                assert(m.contains_key(key@));
                self.consensuses.insert(key.as_str(), c);
                return Ok(());
            }
            i = i + 1;
        }
        assert forall|k: Seq<char>| #[trigger] m.contains_key(k) implies m[k].meta.sha3_of_whole@
            != cmeta.sha3_of_whole@ by {
            let j = choose|j: int| 0 <= j < ks.len() && #[trigger] ks[j] == k;
            assert(m[ks[j]].meta.sha3_of_whole@ != cmeta.sha3_of_whole@);
        }
        Ok(())
    }

    /// Deletes every consensus, of any flavor, with the whole digest of `cmeta`.
    pub fn delete_consensus(&mut self, cmeta: &ConsensusMeta) -> (r: Result<(), DirError>)
        ensures
            unchanged_except(final(self), old(self), true, false, false, false, false, false),
            old(self).spec_readonly() <==> (r matches Err(DirError::ReadOnly)),
            !old(self).spec_readonly() ==> r is Ok,
            old(self).spec_readonly() ==> final(self).consensus_map() == old(self).consensus_map(),
            !old(self).spec_readonly() ==> final(self).consensus_map() == old(
                self,
            ).consensus_map().remove_keys(with_whole(old(self).consensus_map(), cmeta.sha3_of_whole@)),
    {
        if self.readonly {
            return Err(DirError::ReadOnly);
        }
        let ghost time_of = |c: MemConsensus| if c.meta.sha3_of_whole@ == cmeta.sha3_of_whole@ { 0u64 } else { 1u64 };
        let n = self.consensuses.len();
        let mut marks: Vec<u64> = Vec::new();
        let mut i: usize = 0;
        while i < n
            invariant
                n == self.consensuses.keys_seq().len(),
                time_of == (|c: MemConsensus| if c.meta.sha3_of_whole@ == cmeta.sha3_of_whole@ { 0u64 } else { 1u64 }),
                0 <= i <= n,
                marks@.len() == i,
                forall|j: int| 0 <= j < i ==> #[trigger] marks@[j] == time_of(
                    self.consensuses@[self.consensuses.keys_seq()[j]],
                ),
            decreases n - i,
        {
            let (_k, v) = self.consensuses.entry_at(i);
            let mark: u64 = if same_digest(&v.meta.sha3_of_whole, &cmeta.sha3_of_whole) { 0 } else { 1 };
            assert(mark == time_of(*v));
            marks.push(mark);
            i = i + 1;
        }
        let ghost m0 = self.consensuses@;
        expire_list(&mut self.consensuses, &marks, Ghost(time_of), StdDuration { secs: 0, nanos: 0 }, 0);
        assert(expired_in(m0, time_of, StdDuration { secs: 0, nanos: 0 }, 0) =~= with_whole(
            m0,
            cmeta.sha3_of_whole@,
        ));
        Ok(())
    }
}

impl InMemoryStore {
    /// The text of each certificate asked for that is stored.
    pub fn authcerts(&self, certs: &Vec<AuthCertKeyIds>) -> (r: Result<
        Vec<(AuthCertKeyIds, String)>,
        DirError,
    >)
        ensures
            r matches Ok(out) && mem_found_all(
                self.authcert_map(),
                certs@,
                out@,
                |i: AuthCertKeyIds| authcert_key_of(i),
                |v: (AuthCertMeta, String)| v.1@,
            ),
    {
        let ghost key_of = |i: AuthCertKeyIds| authcert_key_of(i);
        let ghost text_of = |v: (AuthCertMeta, String)| v.1@;
        let mut found: Vec<Option<String>> = Vec::new();
        let mut j: usize = 0;
        while j < certs.len()
            invariant
                0 <= j <= certs@.len(),
                found@.len() == j,
                key_of == (|i: AuthCertKeyIds| authcert_key_of(i)),
                text_of == (|v: (AuthCertMeta, String)| v.1@),
                forall|b: int|
                    0 <= b < j ==> ((#[trigger] found@[b]) is Some <==> self.authcert_map().contains_key(
                        key_of(certs@[b]),
                    )),
                forall|b: int|
                    0 <= b < j ==> (#[trigger] found@[b] matches Some(c) ==> c@ == text_of(
                        self.authcert_map()[key_of(certs@[b])],
                    )),
            decreases certs@.len() - j,
        {
            let key = authcert_key(&certs[j]);
            match self.authcerts.get(key.as_str()) {
                Some(v) => {
                    found.push(Some(v.1.clone()));
                },
                None => {
                    found.push(None);
                },
            }
            j = j + 1;
        }
        let out = pair_up(certs, &found);
        proof {
            lemma_mem_found_all(self.authcert_map(), certs@, found@, out@, key_of, text_of);
        }
        Ok(out)
    }

    /// Stores each certificate under its fingerprints; refused while read-only.
    pub fn store_authcerts(&mut self, certs: &Vec<(AuthCertMeta, String)>) -> (r: Result<
        (),
        DirError,
    >)
        ensures
            unchanged_except(final(self), old(self), false, true, false, false, false, false),
            old(self).spec_readonly() <==> (r matches Err(DirError::ReadOnly)),
            !old(self).spec_readonly() ==> r is Ok,
            old(self).spec_readonly() ==> final(self).authcert_map() == old(self).authcert_map(),
            !old(self).spec_readonly() ==> final(self).authcert_map() == mem_with_authcerts(
                old(self).authcert_map(),
                certs@,
            ),
    {
        if self.readonly {
            return Err(DirError::ReadOnly);
        }
        let ghost m0 = self.authcert_map();
        let mut i: usize = 0;
        while i < certs.len()
            invariant
                0 <= i <= certs@.len(),
                !self.readonly,
                unchanged_except(self, old(self), false, true, false, false, false, false),
                m0 == old(self).authcert_map(),
                self.authcert_map() == mem_with_authcerts(m0, certs@.subrange(0, i as int)),
            decreases certs@.len() - i,
        {
            let key = authcert_key(&certs[i].0.key_ids);
            let v = (certs[i].0, certs[i].1.clone());
            assert(v == certs@[i as int]);
            self.authcerts.insert(key.as_str(), v);
            assert(certs@.subrange(0, i + 1).drop_last() =~= certs@.subrange(0, i as int));
            i = i + 1;
        }
        assert(certs@.subrange(0, certs@.len() as int) =~= certs@);
        Ok(())
    }

    /// The text of each microdescriptor asked for that is stored.
    pub fn microdescs(&self, digests: &Vec<[u8; 32]>) -> (r: Result<Vec<([u8; 32], String)>, DirError>)
        ensures
            r matches Ok(out) && mem_found_all(
                self.microdesc_map(),
                digests@,
                out@,
                |d: [u8; 32]| microdesc_key_of(d@),
                |v: (String, u64)| v.0@,
            ),
    {
        let ghost key_of = |d: [u8; 32]| microdesc_key_of(d@);
        let ghost text_of = |v: (String, u64)| v.0@;
        let mut found: Vec<Option<String>> = Vec::new();
        let mut j: usize = 0;
        while j < digests.len()
            invariant
                0 <= j <= digests@.len(),
                found@.len() == j,
                key_of == (|d: [u8; 32]| microdesc_key_of(d@)),
                text_of == (|v: (String, u64)| v.0@),
                forall|b: int|
                    0 <= b < j ==> ((#[trigger] found@[b]) is Some <==> self.microdesc_map().contains_key(
                        key_of(digests@[b]),
                    )),
                forall|b: int|
                    0 <= b < j ==> (#[trigger] found@[b] matches Some(c) ==> c@ == text_of(
                        self.microdesc_map()[key_of(digests@[b])],
                    )),
            decreases digests@.len() - j,
        {
            let key = microdesc_key(&digests[j]);
            match self.microdescs.get(key.as_str()) {
                Some(v) => {
                    found.push(Some(v.0.clone()));
                },
                None => {
                    found.push(None);
                },
            }
            j = j + 1;
        }
        let out = pair_up(digests, &found);
        proof {
            lemma_mem_found_all(self.microdesc_map(), digests@, found@, out@, key_of, text_of);
        }
        Ok(out)
    }

    /// Stores each microdescriptor under its digest, listed at `when`;
    /// refused while read-only.
    pub fn store_microdescs(&mut self, docs: &Vec<(String, [u8; 32])>, when: u64) -> (r: Result<
        (),
        DirError,
    >)
        ensures
            unchanged_except(final(self), old(self), false, false, true, false, false, false),
            old(self).spec_readonly() <==> (r matches Err(DirError::ReadOnly)),
            !old(self).spec_readonly() ==> r is Ok,
            old(self).spec_readonly() ==> final(self).microdesc_map() == old(self).microdesc_map(),
            !old(self).spec_readonly() ==> final(self).microdesc_map() == mem_with_microdescs(
                old(self).microdesc_map(),
                docs@,
                when,
            ),
    {
        if self.readonly {
            return Err(DirError::ReadOnly);
        }
        let ghost m0 = self.microdesc_map();
        let mut i: usize = 0;
        while i < docs.len()
            invariant
                0 <= i <= docs@.len(),
                !self.readonly,
                unchanged_except(self, old(self), false, false, true, false, false, false),
                m0 == old(self).microdesc_map(),
                self.microdesc_map() == mem_with_microdescs(m0, docs@.subrange(0, i as int), when),
            decreases docs@.len() - i,
        {
            let key = microdesc_key(&docs[i].1);
            let v = (docs[i].0.clone(), when);
            self.microdescs.insert(key.as_str(), v);
            assert(docs@.subrange(0, i + 1).drop_last() =~= docs@.subrange(0, i as int));
            i = i + 1;
        }
        assert(docs@.subrange(0, docs@.len() as int) =~= docs@);
        Ok(())
    }

    /// Raises the last-listed time of each stored microdescriptor asked for
    /// to `when`; a later time already stored is kept.  Refused while read-only.
    pub fn update_microdescs_listed(&mut self, digests: &Vec<[u8; 32]>, when: u64) -> (r: Result<
        (),
        DirError,
    >)
        ensures
            unchanged_except(final(self), old(self), false, false, true, false, false, false),
            old(self).spec_readonly() <==> (r matches Err(DirError::ReadOnly)),
            !old(self).spec_readonly() ==> r is Ok,
            old(self).spec_readonly() ==> final(self).microdesc_map() == old(self).microdesc_map(),
            !old(self).spec_readonly() ==> final(self).microdesc_map() == mem_with_listed(
                old(self).microdesc_map(),
                digests@,
                when,
            ),
    {
        if self.readonly {
            return Err(DirError::ReadOnly);
        }
        let ghost m0 = self.microdesc_map();
        let mut i: usize = 0;
        while i < digests.len()
            invariant
                0 <= i <= digests@.len(),
                !self.readonly,
                unchanged_except(self, old(self), false, false, true, false, false, false),
                m0 == old(self).microdesc_map(),
                self.microdesc_map() == mem_with_listed(m0, digests@.subrange(0, i as int), when),
            decreases digests@.len() - i,
        {
            assert(digests@.subrange(0, i + 1).drop_last() =~= digests@.subrange(0, i as int));
            let key = microdesc_key(&digests[i]);
            let raise = match self.microdescs.get(key.as_str()) {
                Some(v) => {
                    if v.1 < when {
                        Some(v.0.clone())
                    } else {
                        None
                    }
                },
                None => None,
            };
            match raise {
                Some(text) => {
                    self.microdescs.insert(key.as_str(), (text, when));
                },
                None => {},
            }
            i = i + 1;
        }
        assert(digests@.subrange(0, digests@.len() as int) =~= digests@);
        Ok(())
    }

    /// The text of each router descriptor asked for that is stored.
    pub fn routerdescs(&self, digests: &Vec<[u8; 20]>) -> (r: Result<Vec<([u8; 20], String)>, DirError>)
        ensures
            r matches Ok(out) && mem_found_all(
                self.routerdesc_map(),
                digests@,
                out@,
                |d: [u8; 20]| routerdesc_key_of(d@),
                |v: (String, u64)| v.0@,
            ),
    {
        let ghost key_of = |d: [u8; 20]| routerdesc_key_of(d@);
        let ghost text_of = |v: (String, u64)| v.0@;
        let mut found: Vec<Option<String>> = Vec::new();
        let mut j: usize = 0;
        while j < digests.len()
            invariant
                0 <= j <= digests@.len(),
                found@.len() == j,
                key_of == (|d: [u8; 20]| routerdesc_key_of(d@)),
                text_of == (|v: (String, u64)| v.0@),
                forall|b: int|
                    0 <= b < j ==> ((#[trigger] found@[b]) is Some <==> self.routerdesc_map().contains_key(
                        key_of(digests@[b]),
                    )),
                forall|b: int|
                    0 <= b < j ==> (#[trigger] found@[b] matches Some(c) ==> c@ == text_of(
                        self.routerdesc_map()[key_of(digests@[b])],
                    )),
            decreases digests@.len() - j,
        {
            let key = routerdesc_key(&digests[j]);
            match self.routerdescs.get(key.as_str()) {
                Some(v) => {
                    found.push(Some(v.0.clone()));
                },
                None => {
                    found.push(None);
                },
            }
            j = j + 1;
        }
        let out = pair_up(digests, &found);
        proof {
            lemma_mem_found_all(self.routerdesc_map(), digests@, found@, out@, key_of, text_of);
        }
        Ok(out)
    }

    /// Stores each router descriptor under its digest with its publication
    /// time; refused while read-only.
    pub fn store_routerdescs(&mut self, docs: &Vec<(String, u64, [u8; 20])>) -> (r: Result<
        (),
        DirError,
    >)
        ensures
            unchanged_except(final(self), old(self), false, false, false, true, false, false),
            old(self).spec_readonly() <==> (r matches Err(DirError::ReadOnly)),
            !old(self).spec_readonly() ==> r is Ok,
            old(self).spec_readonly() ==> final(self).routerdesc_map() == old(self).routerdesc_map(),
            !old(self).spec_readonly() ==> final(self).routerdesc_map() == mem_with_routerdescs(
                old(self).routerdesc_map(),
                docs@,
            ),
    {
        if self.readonly {
            return Err(DirError::ReadOnly);
        }
        let ghost m0 = self.routerdesc_map();
        let mut i: usize = 0;
        while i < docs.len()
            invariant
                0 <= i <= docs@.len(),
                !self.readonly,
                unchanged_except(self, old(self), false, false, false, true, false, false),
                m0 == old(self).routerdesc_map(),
                self.routerdesc_map() == mem_with_routerdescs(m0, docs@.subrange(0, i as int)),
            decreases docs@.len() - i,
        {
            let key = routerdesc_key(&docs[i].2);
            let v = (docs[i].0.clone(), docs[i].1);
            self.routerdescs.insert(key.as_str(), v);
            assert(docs@.subrange(0, i + 1).drop_last() =~= docs@.subrange(0, i as int));
            i = i + 1;
        }
        assert(docs@.subrange(0, docs@.len() as int) =~= docs@);
        Ok(())
    }

    /// The stored descriptor of a bridge, named by its configuration line.
    pub fn lookup_bridgedesc(&self, bridge: &str) -> (r: Result<Option<CachedBridgeDescriptor>, DirError>)
        ensures
            r matches Ok(v) && (v is Some <==> self.bridge_map().contains_key(bridge@)),
            r matches Ok(Some(d)) ==> d.fetched == self.bridge_map()[bridge@].0.fetched
                && d.document@ == self.bridge_map()[bridge@].0.document@,
    {
        match self.bridgedescs.get(bridge) {
            None => Ok(None),
            Some(v) => Ok(Some(CachedBridgeDescriptor { fetched: v.0.fetched, document: v.0.document.clone() })),
        }
    }

    /// Stores a bridge's descriptor until `until`; skipped while read-only.
    pub fn store_bridgedesc(&mut self, bridge: &str, entry: CachedBridgeDescriptor, until: u64) -> (r: Result<
        (),
        DirError,
    >)
        ensures
            r is Ok,
            unchanged_except(final(self), old(self), false, false, false, false, true, false),
            old(self).spec_readonly() ==> final(self).bridge_map() == old(self).bridge_map(),
            !old(self).spec_readonly() ==> final(self).bridge_map() == old(self).bridge_map().insert(
                bridge@,
                (entry, until),
            ),
    {
        if self.readonly {
            return Ok(());
        }
        self.bridgedescs.insert(bridge, (entry, until));
        Ok(())
    }

    /// Deletes a bridge's descriptor; skipped while read-only.
    pub fn delete_bridgedesc(&mut self, bridge: &str) -> (r: Result<(), DirError>)
        ensures
            r is Ok,
            unchanged_except(final(self), old(self), false, false, false, false, true, false),
            old(self).spec_readonly() ==> final(self).bridge_map() == old(self).bridge_map(),
            !old(self).spec_readonly() ==> final(self).bridge_map() == old(self).bridge_map().remove(bridge@),
    {
        if self.readonly {
            return Ok(());
        }
        self.bridgedescs.remove(bridge);
        Ok(())
    }

    /// Stores protocol recommendations unless those held are as new or
    /// newer; refused while read-only.
    pub fn update_protocol_recommendations(&mut self, valid_after: u64, protocols: &str) -> (r: Result<
        (),
        DirError,
    >)
        ensures
            unchanged_except(final(self), old(self), false, false, false, false, false, true),
            old(self).spec_readonly() <==> (r matches Err(DirError::ReadOnly)),
            !old(self).spec_readonly() ==> r is Ok,
            old(self).spec_readonly() ==> final(self).protocols() == old(self).protocols(),
            !old(self).spec_readonly() ==> if (old(self).protocols() matches Some(p) && p.0 >= valid_after) {
                final(self).protocols() == old(self).protocols()
            } else {
                final(self).protocols() matches Some(p) && p.0 == valid_after && p.1@ == protocols@
            },
    {
        if self.readonly {
            return Err(DirError::ReadOnly);
        }
        let newer = match &self.protocol_recs {
            Some(p) => p.0 < valid_after,
            None => true,
        };
        if newer {
            self.protocol_recs = Some((valid_after, String::from_str(protocols)));
        }
        Ok(())
    }

    /// The protocol recommendations held and their valid-after time.
    pub fn cached_protocol_recommendations(&self) -> (r: Result<Option<(u64, String)>, DirError>)
        ensures
            r matches Ok(v) && (v is Some <==> self.protocols() is Some),
            r matches Ok(Some(p)) ==> p.0 == self.protocols()->Some_0.0 && p.1@ == self.protocols()->Some_0.1@,
    {
        match &self.protocol_recs {
            None => Ok(None),
            Some(p) => Ok(Some((p.0, p.1.clone()))),
        }
    }

    /// Drops every document whose time plus its kind's tolerance has passed
    /// at `now`: consensuses by valid-until, certificates by expiry,
    /// microdescriptors by last listing, router descriptors by publication,
    /// and bridge descriptors at their own expiry.  Refused while read-only.
    pub fn expire_all_at(&mut self, expiration: &ExpirationConfig, now: u64) -> (r: Result<(), DirError>)
        ensures
            old(self).spec_readonly() <==> (r matches Err(DirError::ReadOnly)),
            !old(self).spec_readonly() ==> r is Ok,
            old(self).spec_readonly() ==> unchanged_except(final(self), old(self), false, false, false, false, false, false),
            !old(self).spec_readonly() ==> {
                &&& unchanged_except(final(self), old(self), true, true, true, true, true, false)
                &&& mem_swept(old(self), final(self), *expiration, now)
            },
    {
        if self.readonly {
            return Err(DirError::ReadOnly);
        }
        let ghost c_time = |c: MemConsensus| c.meta.valid_until;
        let n = self.consensuses.len();
        let mut times: Vec<u64> = Vec::new();
        let mut i: usize = 0;
        while i < n
            invariant
                n == self.consensuses.keys_seq().len(),
                c_time == (|c: MemConsensus| c.meta.valid_until),
                0 <= i <= n,
                times@.len() == i,
                forall|j: int| 0 <= j < i ==> #[trigger] times@[j] == c_time(self.consensuses@[self.consensuses.keys_seq()[j]]),
            decreases n - i,
        {
            let (_k, v) = self.consensuses.entry_at(i);
            times.push(v.meta.valid_until);
            i = i + 1;
        }
        expire_list(&mut self.consensuses, &times, Ghost(c_time), time_duration_to_std(expiration.consensuses), now);

        let ghost a_time = |c: (AuthCertMeta, String)| c.0.expires;
        let n = self.authcerts.len();
        let mut times: Vec<u64> = Vec::new();
        let mut i: usize = 0;
        while i < n
            invariant
                n == self.authcerts.keys_seq().len(),
                a_time == (|c: (AuthCertMeta, String)| c.0.expires),
                0 <= i <= n,
                times@.len() == i,
                forall|j: int| 0 <= j < i ==> #[trigger] times@[j] == a_time(self.authcerts@[self.authcerts.keys_seq()[j]]),
            decreases n - i,
        {
            let (_k, v) = self.authcerts.entry_at(i);
            times.push(v.0.expires);
            i = i + 1;
        }
        expire_list(&mut self.authcerts, &times, Ghost(a_time), time_duration_to_std(expiration.authcerts), now);

        let ghost m_time = |c: (String, u64)| c.1;
        let n = self.microdescs.len();
        let mut times: Vec<u64> = Vec::new();
        let mut i: usize = 0;
        while i < n
            invariant
                n == self.microdescs.keys_seq().len(),
                m_time == (|c: (String, u64)| c.1),
                0 <= i <= n,
                times@.len() == i,
                forall|j: int| 0 <= j < i ==> #[trigger] times@[j] == m_time(self.microdescs@[self.microdescs.keys_seq()[j]]),
            decreases n - i,
        {
            let (_k, v) = self.microdescs.entry_at(i);
            times.push(v.1);
            i = i + 1;
        }
        expire_list(&mut self.microdescs, &times, Ghost(m_time), time_duration_to_std(expiration.microdescs), now);

        let n = self.routerdescs.len();
        let mut times: Vec<u64> = Vec::new();
        let mut i: usize = 0;
        while i < n
            invariant
                n == self.routerdescs.keys_seq().len(),
                m_time == (|c: (String, u64)| c.1),
                0 <= i <= n,
                times@.len() == i,
                forall|j: int| 0 <= j < i ==> #[trigger] times@[j] == m_time(self.routerdescs@[self.routerdescs.keys_seq()[j]]),
            decreases n - i,
        {
            let (_k, v) = self.routerdescs.entry_at(i);
            times.push(v.1);
            i = i + 1;
        }
        expire_list(&mut self.routerdescs, &times, Ghost(m_time), time_duration_to_std(expiration.router_descs), now);

        let ghost b_time = |c: (CachedBridgeDescriptor, u64)| c.1;
        let n = self.bridgedescs.len();
        let mut times: Vec<u64> = Vec::new();
        let mut i: usize = 0;
        while i < n
            invariant
                n == self.bridgedescs.keys_seq().len(),
                b_time == (|c: (CachedBridgeDescriptor, u64)| c.1),
                0 <= i <= n,
                times@.len() == i,
                forall|j: int| 0 <= j < i ==> #[trigger] times@[j] == b_time(self.bridgedescs@[self.bridgedescs.keys_seq()[j]]),
            decreases n - i,
        {
            let (_k, v) = self.bridgedescs.entry_at(i);
            times.push(v.1);
            i = i + 1;
        }
        expire_list(&mut self.bridgedescs, &times, Ghost(b_time), StdDuration { secs: 0, nanos: 0 }, now);
        Ok(())
    }

    /// Drops every expired document, as of the wall-clock time now.
    pub fn expire_all(&mut self, expiration: &ExpirationConfig) -> (r: Result<(), DirError>)
        ensures
            old(self).spec_readonly() <==> (r matches Err(DirError::ReadOnly)),
            !old(self).spec_readonly() ==> r is Ok,
            !old(self).spec_readonly() ==> exists|now: u64| #[trigger] mem_swept(old(self), final(self), *expiration, now),
    {
        let now = system_time_now();
        self.expire_all_at(expiration, now)
    }
}

} // verus!
