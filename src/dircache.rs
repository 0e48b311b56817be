//! The directory cache over a custom backend: typed records kept as JSON
//! text, "latest" selection and expiry.
use vstd::prelude::*;

use crate::dirstore::{
    consensus_in, consensus_frame_of, consensus_key, consensus_key_of, decode_record, fields_json,
    flavor_prefix, flavor_prefix_string, frame_of_consensus, kind_prefix, kind_prefix_str,
    meta_of_frame, meta_readable, record_in, record_time, record_time_of, texts_of, authcert_key,
    authcert_key_of, bridge_key, bridge_key_of, microdesc_key, microdesc_key_of, protocols_key,
    protocols_key_of, routerdesc_key, routerdesc_key_of, frame_to_json, fields_of_json,
    frame_from_json, timed_in, reads_back,
    CustomDirStore, DirError, Frame, RecordKind, StoredConsensus,
};
use crate::docmeta::{
    expired_at, is_expired, time_duration_to_std, AuthCertKeyIds, AuthCertMeta,
    CachedBridgeDescriptor, ConsensusFlavor, ConsensusMeta, ExpirationConfig, SignedDuration,
    StdDuration,
};
use crate::hexcode::{encode_hex, hex_of};
use crate::textmap::{has_suffix, lists_prefixed_keys};

verus! {

/// Whether a consensus passes a pending filter (`None` passes all).
pub open spec fn passes(c: StoredConsensus, want: Option<bool>) -> bool {
    want matches Some(w) ==> c.pending == w
}

/// The position of the latest record that passes the filter: the one with
/// the greatest valid-after time, the first of those when several tie.
pub fn pick_latest(records: &Vec<StoredConsensus>, want: Option<bool>) -> (r: Option<usize>)
    ensures
        r is None <==> forall|j: int| 0 <= j < records@.len() ==> !passes(#[trigger] records@[j], want),
        r matches Some(i) ==> {
            &&& i < records@.len()
            &&& passes(records@[i as int], want)
            &&& forall|j: int|
                0 <= j < records@.len() && passes(#[trigger] records@[j], want)
                    ==> records@[j].valid_after_secs <= records@[i as int].valid_after_secs
            &&& forall|j: int|
                0 <= j < i && passes(#[trigger] records@[j], want)
                    ==> records@[j].valid_after_secs < records@[i as int].valid_after_secs
        },
{
    let mut best: Option<usize> = None;
    let mut i: usize = 0;
    while i < records.len()
        invariant
            0 <= i <= records@.len(),
            best is None ==> forall|j: int| 0 <= j < i ==> !passes(#[trigger] records@[j], want),
            best matches Some(b) ==> {
                &&& b < i
                &&& passes(records@[b as int], want)
                &&& forall|j: int|
                    0 <= j < i && passes(#[trigger] records@[j], want)
                        ==> records@[j].valid_after_secs <= records@[b as int].valid_after_secs
                &&& forall|j: int|
                    0 <= j < b && passes(#[trigger] records@[j], want)
                        ==> records@[j].valid_after_secs < records@[b as int].valid_after_secs
            },
        decreases records@.len() - i,
    {
        let ok = match want {
            Some(w) => records[i].pending == w,
            None => true,
        };
        if ok {
            match best {
                None => {
                    best = Some(i);
                },
                Some(b) => {
                    if records[i].valid_after_secs > records[b].valid_after_secs {
                        best = Some(i);
                    }
                },
            }
        }
        i = i + 1;
    }
    best
}

/// A key of `m` under prefix `p`.
pub open spec fn under(m: Map<Seq<char>, Seq<char>>, p: Seq<char>, k: Seq<char>) -> bool {
    m.contains_key(k) && p.is_prefix_of(k)
}

/// Every value of `m` under `p` holds a record of `kind`.
pub open spec fn all_readable(m: Map<Seq<char>, Seq<char>>, p: Seq<char>, kind: RecordKind) -> bool {
    forall|k: Seq<char>| #[trigger] under(m, p, k) ==> record_in(kind, m[k]) is Some
}

/// The record of `kind` stored under `k`.
pub open spec fn record_at(m: Map<Seq<char>, Seq<char>>, kind: RecordKind, k: Seq<char>) -> Frame {
    record_in(kind, m[k])->Some_0
}

/// Whether a consensus record passes a pending filter.
pub open spec fn frame_passes(f: Frame, want: Option<bool>) -> bool {
    want matches Some(w) ==> (f.0[3] == 1) == w
}

/// `k` holds the latest consensus under `p` that passes the filter.
pub open spec fn is_latest(
    m: Map<Seq<char>, Seq<char>>,
    p: Seq<char>,
    want: Option<bool>,
    k: Seq<char>,
) -> bool {
    &&& under(m, p, k)
    &&& frame_passes(record_at(m, RecordKind::Consensus, k), want)
    &&& forall|k2: Seq<char>|
        #[trigger] under(m, p, k2) && frame_passes(record_at(m, RecordKind::Consensus, k2), want)
            ==> record_at(m, RecordKind::Consensus, k2).0[0] <= record_at(
            m,
            RecordKind::Consensus,
            k,
        ).0[0]
}

/// No consensus under `p` passes the filter.
pub open spec fn none_passes(m: Map<Seq<char>, Seq<char>>, p: Seq<char>, want: Option<bool>) -> bool {
    forall|k: Seq<char>| #[trigger]
        under(m, p, k) ==> !frame_passes(record_at(m, RecordKind::Consensus, k), want)
}

/// Decodes stored texts as consensus records, failing on the first that
/// does not read back.
pub fn decode_consensuses(vs: &Vec<String>) -> (r: Result<Vec<StoredConsensus>, DirError>)
    ensures
        r is Ok <==> forall|a: int| 0 <= a < vs@.len() ==> #[trigger] consensus_in(vs@[a]@) is Some,
        r matches Ok(rs) ==> rs@.len() == vs@.len() && forall|a: int|
            0 <= a < vs@.len() ==> #[trigger] consensus_in(vs@[a]@) == Some(
                frame_of_consensus(rs@[a]),
            ),
        r matches Err(e) ==> e is CacheCorruption,
{
    let mut rs: Vec<StoredConsensus> = Vec::new();
    let mut i: usize = 0;
    while i < vs.len()
        invariant
            0 <= i <= vs@.len(),
            rs@.len() == i,
            forall|a: int|
                0 <= a < i ==> #[trigger] consensus_in(vs@[a]@) == Some(frame_of_consensus(rs@[a])),
        decreases vs@.len() - i,
    {
        let c = StoredConsensus::from_json(vs[i].as_str())?;
        rs.push(c);
        i = i + 1;
    }
    Ok(rs)
}

/// The directory cache over a custom backend.
pub struct BoxedDirStore<D: CustomDirStore> {
    inner: D,
}

/// The keys under `kind`'s prefix whose record has expired at `now`.
pub open spec fn expired_keys(
    m: Map<Seq<char>, Seq<char>>,
    kind: RecordKind,
    tolerance: StdDuration,
    now: u64,
) -> Set<Seq<char>> {
    Set::new(
        |k: Seq<char>|
            under(m, kind_prefix(kind), k) && record_in(kind, m[k]) is Some && expired_at(
                now,
                record_time(kind, record_at(m, kind, k)),
                tolerance,
            ),
    )
}

/// The keys among the first `i` listed whose record has expired at `now`.
pub open spec fn expired_among(
    m: Map<Seq<char>, Seq<char>>,
    ks: Seq<String>,
    i: int,
    kind: RecordKind,
    tolerance: StdDuration,
    now: u64,
) -> Set<Seq<char>> {
    Set::new(
        |k: Seq<char>|
            exists|a: int|
                0 <= a < i && #[trigger] ks[a]@ == k && record_in(kind, m[k]) is Some && expired_at(
                    now,
                    record_time(kind, record_at(m, kind, k)),
                    tolerance,
                ),
    )
}

/// What a sweep at `now` leaves: every record of each kind whose time plus
/// that kind's tolerance has passed is gone (a bridge descriptor's time is
/// its own expiry, with no tolerance).
pub open spec fn swept(m: Map<Seq<char>, Seq<char>>, config: ExpirationConfig, now: u64) -> Map<
    Seq<char>,
    Seq<char>,
> {
    let m1 = m.remove_keys(
        expired_keys(m, RecordKind::Consensus, std_of(config.consensuses), now),
    );
    let m2 = m1.remove_keys(expired_keys(m1, RecordKind::Authcert, std_of(config.authcerts), now));
    let m3 = m2.remove_keys(
        expired_keys(m2, RecordKind::Microdesc, std_of(config.microdescs), now),
    );
    let m4 = m3.remove_keys(
        expired_keys(m3, RecordKind::Routerdesc, std_of(config.router_descs), now),
    );
    m4.remove_keys(expired_keys(m4, RecordKind::Bridge, StdDuration { secs: 0, nanos: 0 }, now))
}

/// A signed tolerance as an unsigned one; a negative one counts as zero.
pub open spec fn std_of(d: SignedDuration) -> StdDuration {
    if d.spec_is_negative() {
        StdDuration { secs: 0, nanos: 0 }
    } else {
        StdDuration { secs: d.seconds as u64, nanos: d.nanoseconds as u32 }
    }
}

/// Every record of every kind reads back.
pub open spec fn sweep_readable(m: Map<Seq<char>, Seq<char>>) -> bool {
    &&& all_readable(m, kind_prefix(RecordKind::Consensus), RecordKind::Consensus)
    &&& all_readable(m, kind_prefix(RecordKind::Authcert), RecordKind::Authcert)
    &&& all_readable(m, kind_prefix(RecordKind::Microdesc), RecordKind::Microdesc)
    &&& all_readable(m, kind_prefix(RecordKind::Routerdesc), RecordKind::Routerdesc)
    &&& all_readable(m, kind_prefix(RecordKind::Bridge), RecordKind::Bridge)
}

/// Relies on `std::time::SystemTime::now`: the wall-clock time in whole
/// seconds since the UNIX epoch (zero before the epoch).  Nothing is known
/// of the value.
#[verifier::external_body]
pub fn system_time_now() -> (r: u64) {
    std::time::SystemTime::now().duration_since(std::time::UNIX_EPOCH).map(|d| d.as_secs()).unwrap_or(0)
}

impl<D: CustomDirStore> BoxedDirStore<D> {
    /// The backend the cache is kept in.
    pub closed spec fn backend(&self) -> D {
        self.inner
    }

    /// What the backend holds.
    pub open spec fn documents(&self) -> Map<Seq<char>, Seq<char>> {
        self.backend().documents()
    }

    /// The backend the cache is kept in.
    pub fn backend_store(&self) -> (r: &D)
        ensures
            *r == self.backend(),
    {
        &self.inner
    }

    /// A cache over a custom backend.
    pub fn new(storage: D) -> (r: BoxedDirStore<D>)
        ensures
            r.backend() == storage,
    {
        BoxedDirStore { inner: storage }
    }

    /// A cache over a boxed custom backend.
    pub fn from_box(storage: Box<D>) -> (r: BoxedDirStore<D>)
        ensures
            r.backend() == *storage,
    {
        BoxedDirStore { inner: *storage }
    }

    /// Every key under `prefix` with its stored text.
    fn collect_values(&self, prefix: &str) -> (r: Result<(Vec<String>, Vec<String>), DirError>)
        ensures
            r matches Ok(p) ==> {
                &&& lists_prefixed_keys(p.0@, self.documents(), prefix@)
                &&& p.1@.len() == p.0@.len()
                &&& forall|a: int|
                    0 <= a < p.0@.len() ==> #[trigger] p.1@[a]@ == self.documents()[p.0@[a]@]
            },
            r matches Err(e) ==> !e.spec_is_corruption(),
    {
        let ks = self.inner.keys(prefix)?;
        let mut vs: Vec<String> = Vec::new();
        let mut i: usize = 0;
        while i < ks.len()
            invariant
                lists_prefixed_keys(ks@, self.documents(), prefix@),
                0 <= i <= ks@.len(),
                vs@.len() == i,
                forall|a: int| 0 <= a < i ==> #[trigger] vs@[a]@ == self.documents()[ks@[a]@],
            decreases ks@.len() - i,
        {
            let v = self.inner.load(ks[i].as_str())?;
            assert(self.documents().contains_key(ks@[i as int]@));
            match v {
                Some(v) => {
                    vs.push(v);
                },
                None => {
                    // Every listed key is present, so the load found it.
                    assert(false);
                    return Err(DirError::ReadOnly);
                },
            }
            i = i + 1;
        }
        Ok((ks, vs))
    }

    /// Every stored consensus of one flavor, with its key.
    fn consensuses_of(&self, prefix: &str) -> (r: Result<(Vec<String>, Vec<StoredConsensus>), DirError>)
        ensures
            r matches Ok(p) ==> {
                &&& lists_prefixed_keys(p.0@, self.documents(), prefix@)
                &&& p.1@.len() == p.0@.len()
                &&& forall|a: int|
                    0 <= a < p.0@.len() ==> #[trigger] record_in(
                        RecordKind::Consensus,
                        self.documents()[p.0@[a]@],
                    ) == Some(frame_of_consensus(p.1@[a]))
            },
            r is Ok ==> all_readable(self.documents(), prefix@, RecordKind::Consensus),
            all_readable(self.documents(), prefix@, RecordKind::Consensus) ==> !(r matches Err(
                DirError::CacheCorruption(_),
            )),
    {
        let m = Ghost(self.documents());
        let (ks, vs) = self.collect_values(prefix)?;
        let rs = decode_consensuses(&vs);
        match rs {
            Ok(rs) => {
                assert forall|a: int| 0 <= a < ks@.len() implies #[trigger] record_in(
                    RecordKind::Consensus,
                    m@[ks@[a]@],
                ) == Some(frame_of_consensus(rs@[a])) by {
                    assert(consensus_in(vs@[a]@) == Some(frame_of_consensus(rs@[a])));
                }
                assert forall|k: Seq<char>| #[trigger] under(m@, prefix@, k) implies record_in(
                    RecordKind::Consensus,
                    m@[k],
                ) is Some by {
                    assert(m@.contains_key(k) && prefix@.is_prefix_of(k));
                    let a = choose|a: int| 0 <= a < ks@.len() && ks@[a]@ == k;
                    assert(consensus_in(vs@[a]@) is Some);
                }
                Ok((ks, rs))
            },
            Err(e) => {
                proof {
                    if all_readable(m@, prefix@, RecordKind::Consensus) {
                        let a = choose|a: int|
                            0 <= a < vs@.len() && !(#[trigger] consensus_in(vs@[a]@) is Some);
                        assert(under(m@, prefix@, ks@[a]@));
                        assert(false);
                    }
                }
                Err(e)
            },
        }
    }

    /// The text of the latest consensus of a flavor that passes the pending
    /// filter (`None` passes all).
    pub fn latest_consensus(&self, flavor: ConsensusFlavor, pending: Option<bool>) -> (r: Result<
        Option<String>,
        DirError,
    >)
        ensures
            r is Ok ==> all_readable(self.documents(), flavor_prefix(flavor), RecordKind::Consensus),
            all_readable(self.documents(), flavor_prefix(flavor), RecordKind::Consensus) ==> !(r matches Err(
                DirError::CacheCorruption(_),
            )),
            r matches Ok(None) ==> none_passes(self.documents(), flavor_prefix(flavor), pending),
            r matches Ok(Some(c)) ==> exists|k: Seq<char>|
                #[trigger] is_latest(self.documents(), flavor_prefix(flavor), pending, k)
                    && c@ == record_at(self.documents(), RecordKind::Consensus, k).1[2],
    {
        match self.find_latest(flavor, pending)? {
            Some(c) => Ok(Some(c.content)),
            None => Ok(None),
        }
    }

    fn find_latest(&self, flavor: ConsensusFlavor, pending: Option<bool>) -> (r: Result<
        Option<StoredConsensus>,
        DirError,
    >)
        ensures
            r is Ok ==> all_readable(self.documents(), flavor_prefix(flavor), RecordKind::Consensus),
            all_readable(self.documents(), flavor_prefix(flavor), RecordKind::Consensus) ==> !(r matches Err(
                DirError::CacheCorruption(_),
            )),
            r matches Ok(None) ==> none_passes(self.documents(), flavor_prefix(flavor), pending),
            r matches Ok(Some(c)) ==> exists|k: Seq<char>|
                #[trigger] is_latest(self.documents(), flavor_prefix(flavor), pending, k)
                    && frame_of_consensus(c) == record_at(self.documents(), RecordKind::Consensus, k),
    {
        let m = Ghost(self.documents());
        let prefix = flavor_prefix_string(flavor);
        let (ks, mut rs) = self.consensuses_of(prefix.as_str())?;
        let ghost p = prefix@;
        proof {
            assert forall|a: int| 0 <= a < ks@.len() implies #[trigger] frame_passes(
                record_at(m@, RecordKind::Consensus, ks@[a]@),
                pending,
            ) == passes(rs@[a], pending) && record_at(m@, RecordKind::Consensus, ks@[a]@).0[0]
                == rs@[a].valid_after_secs by {
                assert(record_in(RecordKind::Consensus, m@[ks@[a]@]) == Some(frame_of_consensus(rs@[a])));
            }
        }
        match pick_latest(&rs, pending) {
            None => {
                assert forall|k: Seq<char>| #[trigger] under(m@, p, k) implies !frame_passes(
                    record_at(m@, RecordKind::Consensus, k),
                    pending,
                ) by {
                    let a = choose|a: int| 0 <= a < ks@.len() && ks@[a]@ == k;
                    assert(!passes(rs@[a], pending));
                    assert(frame_passes(record_at(m@, RecordKind::Consensus, ks@[a]@), pending)
                        == passes(rs@[a], pending));
                }
                Ok(None)
            },
            Some(i) => {
                let ghost k = ks@[i as int]@;
                assert(frame_passes(record_at(m@, RecordKind::Consensus, ks@[i as int]@), pending)
                    == passes(rs@[i as int], pending));
                assert forall|k2: Seq<char>|
                    #[trigger] under(m@, p, k2) && frame_passes(
                        record_at(m@, RecordKind::Consensus, k2),
                        pending,
                    ) implies record_at(m@, RecordKind::Consensus, k2).0[0] <= record_at(
                    m@,
                    RecordKind::Consensus,
                    k,
                ).0[0] by {
                    let a = choose|a: int| 0 <= a < ks@.len() && ks@[a]@ == k2;
                    assert(frame_passes(record_at(m@, RecordKind::Consensus, ks@[a]@), pending)
                        == passes(rs@[a], pending));
                    assert(passes(rs@[a], pending));
                }
                assert(is_latest(m@, p, pending, k));
                assert(record_in(RecordKind::Consensus, m@[ks@[i as int]@]) == Some(
                    frame_of_consensus(rs@[i as int]),
                ));
                Ok(Some(rs.remove(i)))
            },
        }
    }
}

impl<D: CustomDirStore> BoxedDirStore<D> {
    /// Deletes every record of `kind` that has expired at `now`.
    fn expire_kind(&mut self, kind: RecordKind, tolerance: StdDuration, now: u64) -> (r: Result<
        (),
        DirError,
    >)
        ensures
            final(self).backend().writable() == old(self).backend().writable(),
            r is Ok ==> all_readable(old(self).documents(), kind_prefix(kind), kind),
            r is Ok ==> final(self).documents() == old(self).documents().remove_keys(
                expired_keys(old(self).documents(), kind, tolerance, now),
            ),
            all_readable(old(self).documents(), kind_prefix(kind), kind) ==> !(r matches Err(
                DirError::CacheCorruption(_),
            )),
    {
        let ghost m0 = self.documents();
        let prefix = kind_prefix_str(kind);
        let (ks, vs) = self.collect_values(prefix)?;
        let mut i: usize = 0;
        while i < ks.len()
            invariant
                lists_prefixed_keys(ks@, m0, prefix@),
                vs@.len() == ks@.len(),
                forall|a: int| 0 <= a < ks@.len() ==> #[trigger] vs@[a]@ == m0[ks@[a]@],
                prefix@ == kind_prefix(kind),
                0 <= i <= ks@.len(),
                self.backend().writable() == old(self).backend().writable(),
                m0 == old(self).documents(),
                forall|a: int| 0 <= a < i ==> #[trigger] record_in(kind, m0[ks@[a]@]) is Some,
                self.documents() == m0.remove_keys(
                    expired_among(m0, ks@, i as int, kind, tolerance, now),
                ),
            decreases ks@.len() - i,
        {
            let ghost cur = self.documents();
            let rec = decode_record(kind, vs[i].as_str());
            let (numbers, texts) = match rec {
                Ok(p) => p,
                Err(e) => {
                    proof {
                        if all_readable(m0, prefix@, kind) {
                            assert(under(m0, prefix@, ks@[i as int]@));
                        }
                    }
                    return Err(e);
                },
            };
            let t = record_time_of(kind, &numbers);
            let ghost k = ks@[i as int]@;
            assert(record_at(m0, kind, k) == (numbers@, texts_of(texts@)));
            assert(t == record_time(kind, record_at(m0, kind, k)));
            let ghost before = expired_among(m0, ks@, i as int, kind, tolerance, now);
            let ghost after = expired_among(m0, ks@, i + 1, kind, tolerance, now);
            assert(!before.contains(k)) by {
                if before.contains(k) {
                    let a = choose|a: int| 0 <= a < i && #[trigger] ks@[a]@ == k;
                    assert(ks@[a]@ == ks@[i as int]@);
                }
            }
            if is_expired(now, t, tolerance) {
                self.inner.delete(ks[i].as_str())?;
                assert(after =~= before.insert(k)) by {
                    assert forall|q: Seq<char>| after.contains(q) implies before.insert(k).contains(q) by {
                        let a = choose|a: int| 0 <= a < i + 1 && #[trigger] ks@[a]@ == q
                            && record_in(kind, m0[q]) is Some && expired_at(
                            now,
                            record_time(kind, record_at(m0, kind, q)),
                            tolerance,
                        );
                        if a < i {
                            assert(before.contains(q));
                        }
                    }
                    assert forall|q: Seq<char>| before.insert(k).contains(q) implies after.contains(q) by {
                        if q == k {
                            assert(ks@[i as int]@ == q);
                        } else {
                            let a = choose|a: int| 0 <= a < i && #[trigger] ks@[a]@ == q
                                && record_in(kind, m0[q]) is Some && expired_at(
                                now,
                                record_time(kind, record_at(m0, kind, q)),
                                tolerance,
                            );
                            assert(ks@[a]@ == q);
                        }
                    }
                }
                assert(self.documents() =~= m0.remove_keys(after));
            } else {
                assert(after =~= before) by {
                    assert forall|q: Seq<char>| after.contains(q) implies before.contains(q) by {
                        let a = choose|a: int| 0 <= a < i + 1 && #[trigger] ks@[a]@ == q
                            && record_in(kind, m0[q]) is Some && expired_at(
                            now,
                            record_time(kind, record_at(m0, kind, q)),
                            tolerance,
                        );
                        if a == i {
                            assert(q == k);
                        }
                        assert(a < i);
                    }
                    assert forall|q: Seq<char>| before.contains(q) implies after.contains(q) by {
                        let a = choose|a: int| 0 <= a < i && #[trigger] ks@[a]@ == q
                            && record_in(kind, m0[q]) is Some && expired_at(
                            now,
                            record_time(kind, record_at(m0, kind, q)),
                            tolerance,
                        );
                        assert(ks@[a]@ == q);
                    }
                }
            }
            i = i + 1;
        }
        let ghost n = ks@.len() as int;
        assert(expired_among(m0, ks@, n, kind, tolerance, now) =~= expired_keys(
            m0,
            kind,
            tolerance,
            now,
        )) by {
            let e1 = expired_among(m0, ks@, n, kind, tolerance, now);
            let e2 = expired_keys(m0, kind, tolerance, now);
            assert forall|q: Seq<char>| e1.contains(q) implies e2.contains(q) by {
                let a = choose|a: int| 0 <= a < n && #[trigger] ks@[a]@ == q
                    && record_in(kind, m0[q]) is Some && expired_at(
                    now,
                    record_time(kind, record_at(m0, kind, q)),
                    tolerance,
                );
                assert(m0.contains_key(ks@[a]@));
            }
            assert forall|q: Seq<char>| e2.contains(q) implies e1.contains(q) by {
                assert(under(m0, kind_prefix(kind), q));
                assert(m0.contains_key(q));
                let a = choose|a: int| 0 <= a < ks@.len() && ks@[a]@ == q;
                assert(ks@[a]@ == q);
            }
        }
        assert forall|k: Seq<char>| #[trigger] under(m0, kind_prefix(kind), k) implies record_in(
            kind,
            m0[k],
        ) is Some by {
            assert(m0.contains_key(k));
            let a = choose|a: int| 0 <= a < ks@.len() && ks@[a]@ == k;
            assert(record_in(kind, m0[ks@[a]@]) is Some);
        }
        Ok(())
    }
}

impl<D: CustomDirStore> BoxedDirStore<D> {
    /// Deletes every record whose time plus its kind's tolerance has passed
    /// at `now` (seconds since the UNIX epoch).  A record that does not read
    /// back stops the sweep as cache corruption.
    pub fn expire_all_at(&mut self, expiration: &ExpirationConfig, now: u64) -> (r: Result<
        (),
        DirError,
    >)
        ensures
            final(self).backend().writable() == old(self).backend().writable(),
            r is Ok ==> final(self).documents() == swept(old(self).documents(), *expiration, now),
            sweep_readable(old(self).documents()) ==> !(r matches Err(DirError::CacheCorruption(_))),
    {
        let ghost m0 = self.documents();
        let ghost m1 = m0.remove_keys(
            expired_keys(m0, RecordKind::Consensus, std_of(expiration.consensuses), now),
        );
        let ghost m2 = m1.remove_keys(
            expired_keys(m1, RecordKind::Authcert, std_of(expiration.authcerts), now),
        );
        let ghost m3 = m2.remove_keys(
            expired_keys(m2, RecordKind::Microdesc, std_of(expiration.microdescs), now),
        );
        let ghost m4 = m3.remove_keys(
            expired_keys(m3, RecordKind::Routerdesc, std_of(expiration.router_descs), now),
        );
        proof {
            if sweep_readable(m0) {
                lemma_readable_after_removal(m0, expired_keys(m0, RecordKind::Consensus, std_of(expiration.consensuses), now));
                lemma_readable_after_removal(m1, expired_keys(m1, RecordKind::Authcert, std_of(expiration.authcerts), now));
                lemma_readable_after_removal(m2, expired_keys(m2, RecordKind::Microdesc, std_of(expiration.microdescs), now));
                lemma_readable_after_removal(m3, expired_keys(m3, RecordKind::Routerdesc, std_of(expiration.router_descs), now));
            }
        }
        self.expire_kind(RecordKind::Consensus, time_duration_to_std(expiration.consensuses), now)?;
        self.expire_kind(RecordKind::Authcert, time_duration_to_std(expiration.authcerts), now)?;
        self.expire_kind(RecordKind::Microdesc, time_duration_to_std(expiration.microdescs), now)?;
        self.expire_kind(
            RecordKind::Routerdesc,
            time_duration_to_std(expiration.router_descs),
            now,
        )?;
        self.expire_kind(RecordKind::Bridge, StdDuration { secs: 0, nanos: 0 }, now)
    }

    /// Deletes every expired record, as of the wall-clock time now.  The
    /// clock is read in whole seconds, as every stored time is, so with a
    /// tolerance that has a fraction of a second a record may go up to
    /// that fraction later than its exact expiry.
    pub fn expire_all(&mut self, expiration: &ExpirationConfig) -> (r: Result<(), DirError>)
        ensures
            final(self).backend().writable() == old(self).backend().writable(),
            r is Ok ==> exists|now: u64|
                final(self).documents() == swept(old(self).documents(), *expiration, now),
            sweep_readable(old(self).documents()) ==> !(r matches Err(DirError::CacheCorruption(_))),
    {
        let now = system_time_now();
        self.expire_all_at(expiration, now)
    }
}

/// The pending flag of a consensus record cleared.
pub open spec fn made_usable(f: Frame) -> Frame {
    (f.0.update(3, 0u64), f.1)
}

/// `m1` is `m0` after clearing the pending flag of the first consensus
/// whose whole digest is `whole`, or `m0` itself when there is none; the
/// rewritten record reads back.
pub open spec fn marked(m0: Map<Seq<char>, Seq<char>>, m1: Map<Seq<char>, Seq<char>>, whole: Seq<u8>) -> bool {
    ||| (forall|k: Seq<char>|
        #[trigger] under(m0, kind_prefix(RecordKind::Consensus), k) ==> record_at(
            m0,
            RecordKind::Consensus,
            k,
        ).1[1] != hex_of(whole)) && m1 == m0
    ||| exists|k: Seq<char>|
        #[trigger] under(m0, kind_prefix(RecordKind::Consensus), k) && record_at(
            m0,
            RecordKind::Consensus,
            k,
        ).1[1] == hex_of(whole) && m1 == m0.insert(
            k,
            fields_json(
                made_usable(record_at(m0, RecordKind::Consensus, k)).0,
                made_usable(record_at(m0, RecordKind::Consensus, k)).1,
            ),
        ) && record_in(RecordKind::Consensus, m1[k]) == Some(
            made_usable(record_at(m0, RecordKind::Consensus, k)),
        )
}

/// The keys under `p` that end with `suffix`.
pub open spec fn keys_ending(m: Map<Seq<char>, Seq<char>>, p: Seq<char>, suffix: Seq<char>) -> Set<
    Seq<char>,
> {
    Set::new(
        |k: Seq<char>|
            under(m, p, k) && suffix.len() <= k.len() && k.subrange(
                k.len() - suffix.len(),
                k.len() as int,
            ) == suffix,
    )
}

impl<D: CustomDirStore> BoxedDirStore<D> {
    /// Whether the cache refuses writes; `false` only when it may be written.
    pub fn is_readonly(&self) -> (r: bool)
        ensures
            !r ==> self.backend().writable(),
    {
        self.inner.is_readonly()
    }

    /// Tries to gain write access; `Ok(true)` when it is now held.
    pub fn upgrade_to_readwrite(&mut self) -> (r: Result<bool, DirError>)
        ensures
            final(self).documents() == old(self).documents(),
            r matches Ok(true) ==> final(self).backend().writable(),
    {
        self.inner.upgrade_to_readwrite()
    }

    /// Stores a record's fields as JSON under `key`.
    fn put(&mut self, key: &str, numbers: &Vec<u64>, texts: &Vec<String>) -> (r: Result<(), DirError>)
        ensures
            final(self).backend().writable() == old(self).backend().writable(),
            r is Ok ==> final(self).documents() == old(self).documents().insert(
                key@,
                fields_json(numbers@, texts_of(texts@)),
            ),
            !old(self).backend().writable() ==> (r matches Err(DirError::ReadOnly))
                && final(self).documents() == old(self).documents(),
            r matches Err(e) ==> !e.spec_is_corruption(),
            reads_back(numbers@, texts_of(texts@)),
    {
        let json = frame_to_json(numbers, texts)?;
        self.inner.store(key, json.as_str())
    }

    /// The record of `kind` under `key`, if there is one.
    fn get_record(&self, key: &str, kind: RecordKind) -> (r: Result<
        Option<(Vec<u64>, Vec<String>)>,
        DirError,
    >)
        ensures
            r matches Ok(v) ==> (v is Some <==> self.documents().contains_key(key@)),
            r matches Ok(Some(p)) ==> record_in(kind, self.documents()[key@]) == Some(
                (p.0@, texts_of(p.1@)),
            ),
            r matches Err(DirError::CacheCorruption(_)) ==> self.documents().contains_key(key@)
                && record_in(kind, self.documents()[key@]) is None,
    {
        match self.inner.load(key)? {
            None => Ok(None),
            Some(v) => {
                let p = decode_record(kind, v.as_str())?;
                Ok(Some(p))
            },
        }
    }

    /// Stores a consensus under its flavor and whole-document digest,
    /// replacing any earlier copy.
    pub fn store_consensus(
        &mut self,
        cmeta: &ConsensusMeta,
        flavor: ConsensusFlavor,
        pending: bool,
        contents: &str,
    ) -> (r: Result<(), DirError>)
        ensures
            final(self).backend().writable() == old(self).backend().writable(),
            r is Ok ==> final(self).documents() == old(self).documents().insert(
                consensus_key_of(flavor, cmeta.sha3_of_whole@),
                fields_json(
                    consensus_frame_of(*cmeta, pending, contents@).0,
                    consensus_frame_of(*cmeta, pending, contents@).1,
                ),
            ),
            !old(self).backend().writable() ==> (r matches Err(DirError::ReadOnly))
                && final(self).documents() == old(self).documents(),
            r matches Err(e) ==> !e.spec_is_corruption(),
            r is Ok ==> record_in(
                RecordKind::Consensus,
                final(self).documents()[consensus_key_of(flavor, cmeta.sha3_of_whole@)],
            ) == Some(consensus_frame_of(*cmeta, pending, contents@)),
    {
        let key = consensus_key(flavor, &cmeta.sha3_of_whole);
        let stored = StoredConsensus::from_meta_and_content(cmeta, pending, contents);
        let json = stored.to_json()?;
        self.inner.store(key.as_str(), json.as_str())
    }

    /// The metadata of the latest usable (not pending) consensus of a flavor.
    pub fn latest_consensus_meta(&self, flavor: ConsensusFlavor) -> (r: Result<
        Option<ConsensusMeta>,
        DirError,
    >)
        ensures
            r is Ok ==> all_readable(self.documents(), flavor_prefix(flavor), RecordKind::Consensus),
            r matches Ok(None) ==> none_passes(self.documents(), flavor_prefix(flavor), Some(false)),
            r matches Ok(Some(m)) ==> exists|k: Seq<char>|
                #[trigger] is_latest(self.documents(), flavor_prefix(flavor), Some(false), k)
                    && meta_of_frame(m, record_at(self.documents(), RecordKind::Consensus, k)),
            r matches Err(DirError::CacheCorruption(_)) ==> !all_readable(
                self.documents(),
                flavor_prefix(flavor),
                RecordKind::Consensus,
            ) || exists|k: Seq<char>|
                #[trigger] is_latest(self.documents(), flavor_prefix(flavor), Some(false), k)
                    && !meta_readable(record_at(self.documents(), RecordKind::Consensus, k)),
    {
        match self.find_latest(flavor, Some(false))? {
            None => Ok(None),
            Some(c) => {
                let m = c.to_meta()?;
                Ok(Some(m))
            },
        }
    }

    /// The first stored consensus (of any flavor) whose signed part has
    /// digest `d`, with its metadata.
    pub fn consensus_by_sha3_digest_of_signed_part(&self, d: &[u8; 32]) -> (r: Result<
        Option<(String, ConsensusMeta)>,
        DirError,
    >)
        ensures
            r is Ok ==> all_readable(
                self.documents(),
                kind_prefix(RecordKind::Consensus),
                RecordKind::Consensus,
            ),
            r matches Ok(None) ==> forall|k: Seq<char>|
                #[trigger] under(self.documents(), kind_prefix(RecordKind::Consensus), k)
                    ==> record_at(self.documents(), RecordKind::Consensus, k).1[0] != hex_of(d@),
            r matches Ok(Some(p)) ==> exists|k: Seq<char>|
                #[trigger] under(self.documents(), kind_prefix(RecordKind::Consensus), k)
                    && record_at(self.documents(), RecordKind::Consensus, k).1[0] == hex_of(d@)
                    && p.0@ == record_at(self.documents(), RecordKind::Consensus, k).1[2]
                    && meta_of_frame(p.1, record_at(self.documents(), RecordKind::Consensus, k)),
    {
        let ghost m = self.documents();
        let target = encode_hex(d);
        let (ks, mut rs) = self.consensuses_of(kind_prefix_str(RecordKind::Consensus))?;
        let mut i: usize = 0;
        while i < rs.len()
            invariant
                lists_prefixed_keys(ks@, m, kind_prefix(RecordKind::Consensus)),
                rs@.len() == ks@.len(),
                m == self.documents(),
                target@ == hex_of(d@),
                forall|a: int|
                    0 <= a < ks@.len() ==> #[trigger] record_in(RecordKind::Consensus, m[ks@[a]@])
                        == Some(frame_of_consensus(rs@[a])),
                0 <= i <= rs@.len(),
                forall|a: int| 0 <= a < i ==> #[trigger] rs@[a].sha3_of_signed_hex@ != hex_of(d@),
            decreases rs@.len() - i,
        {
            if rs[i].sha3_of_signed_hex == target {
                let meta = rs[i].to_meta()?;
                let c = rs.remove(i);
                assert(under(m, kind_prefix(RecordKind::Consensus), ks@[i as int]@));
                assert(record_in(RecordKind::Consensus, m[ks@[i as int]@]) == Some(
                    frame_of_consensus(c),
                ));
                return Ok(Some((c.content, meta)));
            }
            i = i + 1;
        }
        assert forall|k: Seq<char>|
            #[trigger] under(m, kind_prefix(RecordKind::Consensus), k) implies record_at(
            m,
            RecordKind::Consensus,
            k,
        ).1[0] != hex_of(d@) by {
            let a = choose|a: int| 0 <= a < ks@.len() && ks@[a]@ == k;
            assert(record_in(RecordKind::Consensus, m[ks@[a]@]) == Some(frame_of_consensus(rs@[a])));
        }
        Ok(None)
    }

    /// Clears the pending flag of the first stored consensus whose whole
    /// digest matches; nothing changes when there is none.
    pub fn mark_consensus_usable(&mut self, cmeta: &ConsensusMeta) -> (r: Result<(), DirError>)
        ensures
            final(self).backend().writable() == old(self).backend().writable(),
            r is Ok ==> all_readable(
                old(self).documents(),
                kind_prefix(RecordKind::Consensus),
                RecordKind::Consensus,
            ),
            r is Ok ==> marked(old(self).documents(), final(self).documents(), cmeta.sha3_of_whole@),
    {
        let ghost m = self.documents();
        let target = encode_hex(&cmeta.sha3_of_whole);
        let (ks, mut rs) = self.consensuses_of(kind_prefix_str(RecordKind::Consensus))?;
        let mut i: usize = 0;
        while i < rs.len()
            invariant
                lists_prefixed_keys(ks@, m, kind_prefix(RecordKind::Consensus)),
                rs@.len() == ks@.len(),
                m == self.documents(),
                self.backend().writable() == old(self).backend().writable(),
                m == old(self).documents(),
                target@ == hex_of(cmeta.sha3_of_whole@),
                forall|a: int|
                    0 <= a < ks@.len() ==> #[trigger] record_in(RecordKind::Consensus, m[ks@[a]@])
                        == Some(frame_of_consensus(rs@[a])),
                all_readable(m, kind_prefix(RecordKind::Consensus), RecordKind::Consensus),
                0 <= i <= rs@.len(),
                forall|a: int| 0 <= a < i ==> #[trigger] rs@[a].sha3_of_whole_hex@ != target@,
            decreases rs@.len() - i,
        {
            if rs[i].sha3_of_whole_hex == target {
                let ghost f = frame_of_consensus(rs@[i as int]);
                let mut c = rs.remove(i);
                c.pending = false;
                let json = c.to_json()?;
                let ghost k = ks@[i as int]@;
                assert(under(m, kind_prefix(RecordKind::Consensus), k));
                assert(record_in(RecordKind::Consensus, m[k]) == Some(f));
                assert(frame_of_consensus(c).0 =~= made_usable(f).0);
                assert(frame_of_consensus(c).1 =~= made_usable(f).1);
                return self.inner.store(ks[i].as_str(), json.as_str());
            }
            i = i + 1;
        }
        assert forall|k: Seq<char>|
            #[trigger] under(m, kind_prefix(RecordKind::Consensus), k) implies record_at(
            m,
            RecordKind::Consensus,
            k,
        ).1[1] != hex_of(cmeta.sha3_of_whole@) by {
            let a = choose|a: int| 0 <= a < ks@.len() && ks@[a]@ == k;
            assert(record_in(RecordKind::Consensus, m[ks@[a]@]) == Some(frame_of_consensus(rs@[a])));
        }
        Ok(())
    }

    /// Deletes every stored consensus whose key ends with the whole-document
    /// digest, whatever its flavor.
    pub fn delete_consensus(&mut self, cmeta: &ConsensusMeta) -> (r: Result<(), DirError>)
        ensures
            final(self).backend().writable() == old(self).backend().writable(),
            r is Ok ==> final(self).documents() == old(self).documents().remove_keys(
                keys_ending(
                    old(self).documents(),
                    kind_prefix(RecordKind::Consensus),
                    hex_of(cmeta.sha3_of_whole@),
                ),
            ),
    {
        let ghost m0 = self.documents();
        let target = encode_hex(&cmeta.sha3_of_whole);
        let ghost t = target@;
        let ghost p = kind_prefix(RecordKind::Consensus);
        let ks = self.inner.keys(kind_prefix_str(RecordKind::Consensus))?;
        let mut i: usize = 0;
        while i < ks.len()
            invariant
                lists_prefixed_keys(ks@, m0, p),
                m0 == old(self).documents(),
                t == hex_of(cmeta.sha3_of_whole@),
                target@ == t,
                self.backend().writable() == old(self).backend().writable(),
                0 <= i <= ks@.len(),
                self.documents() == m0.remove_keys(
                    Set::new(
                        |k: Seq<char>|
                            exists|a: int|
                                0 <= a < i && #[trigger] ks@[a]@ == k && keys_ending(m0, p, t).contains(
                                    k,
                                ),
                    ),
                ),
            decreases ks@.len() - i,
        {
            let ghost before = Set::new(
                |k: Seq<char>|
                    exists|a: int|
                        0 <= a < i && #[trigger] ks@[a]@ == k && keys_ending(m0, p, t).contains(k),
            );
            let ghost after = Set::new(
                |k: Seq<char>|
                    exists|a: int|
                        0 <= a < i + 1 && #[trigger] ks@[a]@ == k && keys_ending(m0, p, t).contains(
                            k,
                        ),
            );
            let ghost k = ks@[i as int]@;
            if has_suffix(ks[i].as_str(), target.as_str()) {
                self.inner.delete(ks[i].as_str())?;
                assert(keys_ending(m0, p, t).contains(k));
                assert(after =~= before.insert(k)) by {
                    assert forall|q: Seq<char>| after.contains(q) implies before.insert(k).contains(q) by {
                        let a = choose|a: int|
                            0 <= a < i + 1 && #[trigger] ks@[a]@ == q && keys_ending(m0, p, t).contains(q);
                        if a < i {
                            assert(before.contains(q));
                        }
                    }
                    assert forall|q: Seq<char>| before.insert(k).contains(q) implies after.contains(q) by {
                        if q == k {
                            assert(ks@[i as int]@ == q);
                        } else {
                            let a = choose|a: int|
                                0 <= a < i && #[trigger] ks@[a]@ == q && keys_ending(m0, p, t).contains(q);
                            assert(ks@[a]@ == q);
                        }
                    }
                }
                assert(self.documents() =~= m0.remove_keys(after));
            } else {
                assert(!keys_ending(m0, p, t).contains(k));
                assert(after =~= before) by {
                    assert forall|q: Seq<char>| after.contains(q) implies before.contains(q) by {
                        let a = choose|a: int|
                            0 <= a < i + 1 && #[trigger] ks@[a]@ == q && keys_ending(m0, p, t).contains(q);
                        assert(a < i);
                    }
                    assert forall|q: Seq<char>| before.contains(q) implies after.contains(q) by {
                        let a = choose|a: int|
                            0 <= a < i && #[trigger] ks@[a]@ == q && keys_ending(m0, p, t).contains(q);
                        assert(ks@[a]@ == q);
                    }
                }
            }
            i = i + 1;
        }
        let ghost done = Set::new(
            |k: Seq<char>|
                exists|a: int|
                    0 <= a < ks@.len() && #[trigger] ks@[a]@ == k && keys_ending(m0, p, t).contains(k),
        );
        assert(done =~= keys_ending(m0, p, t)) by {
            assert forall|q: Seq<char>| keys_ending(m0, p, t).contains(q) implies done.contains(q) by {
                assert(m0.contains_key(q));
                let a = choose|a: int| 0 <= a < ks@.len() && ks@[a]@ == q;
                assert(ks@[a]@ == q);
            }
        }
        Ok(())
    }
}

/// The record that stores an authority certificate.
pub open spec fn authcert_frame_of(meta: AuthCertMeta, content: Seq<char>) -> Frame {
    (
        seq![meta.published, meta.expires],
        seq![hex_of(meta.key_ids.id_fingerprint@), hex_of(meta.key_ids.sk_fingerprint@), content],
    )
}

/// `m` after storing each certificate in turn.
pub open spec fn with_authcerts(m: Map<Seq<char>, Seq<char>>, certs: Seq<(AuthCertMeta, String)>) -> Map<
    Seq<char>,
    Seq<char>,
>
    decreases certs.len(),
{
    if certs.len() == 0 {
        m
    } else {
        let c = certs.last();
        with_authcerts(m, certs.drop_last()).insert(
            authcert_key_of(c.0.key_ids),
            fields_json(authcert_frame_of(c.0, c.1@).0, authcert_frame_of(c.0, c.1@).1),
        )
    }
}

/// `m` after storing each microdescriptor in turn, listed at `when`.
pub open spec fn with_microdescs(
    m: Map<Seq<char>, Seq<char>>,
    docs: Seq<(String, [u8; 32])>,
    when: u64,
) -> Map<Seq<char>, Seq<char>>
    decreases docs.len(),
{
    if docs.len() == 0 {
        m
    } else {
        let d = docs.last();
        with_microdescs(m, docs.drop_last(), when).insert(
            microdesc_key_of(d.1@),
            fields_json(seq![when], seq![d.0@]),
        )
    }
}

/// `m` after storing each router descriptor in turn with its publication time.
pub open spec fn with_routerdescs(
    m: Map<Seq<char>, Seq<char>>,
    docs: Seq<(String, u64, [u8; 20])>,
) -> Map<Seq<char>, Seq<char>>
    decreases docs.len(),
{
    if docs.len() == 0 {
        m
    } else {
        let d = docs.last();
        with_routerdescs(m, docs.drop_last()).insert(
            routerdesc_key_of(d.2@),
            fields_json(seq![d.1], seq![d.0@]),
        )
    }
}

/// `m` after raising, for each digest in turn, the last-listed time of a
/// stored microdescriptor to `when` where it was earlier.
pub open spec fn with_listed(m: Map<Seq<char>, Seq<char>>, ds: Seq<[u8; 32]>, when: u64) -> Map<
    Seq<char>,
    Seq<char>,
>
    decreases ds.len(),
{
    if ds.len() == 0 {
        m
    } else {
        let m1 = with_listed(m, ds.drop_last(), when);
        let k = microdesc_key_of(ds.last()@);
        if m1.contains_key(k) && record_in(RecordKind::Microdesc, m1[k]) is Some && record_at(
            m1,
            RecordKind::Microdesc,
            k,
        ).0[0] < when {
            m1.insert(k, fields_json(seq![when], record_at(m1, RecordKind::Microdesc, k).1))
        } else {
            m1
        }
    }
}

/// `item` pairs an asked-for id whose record is stored with that record's text.
pub open spec fn found_item<T>(
    m: Map<Seq<char>, Seq<char>>,
    asked: Seq<T>,
    key_of: spec_fn(T) -> Seq<char>,
    kind: RecordKind,
    pos: int,
    item: (T, String),
) -> bool {
    exists|j: int|
        0 <= j < asked.len() && #[trigger] asked[j] == item.0 && m.contains_key(key_of(asked[j]))
            && item.1@ == record_at(m, kind, key_of(asked[j])).1[pos]
}

/// Some pair in `out` is for `x`.
pub open spec fn listed<T>(out: Seq<(T, String)>, x: T) -> bool {
    exists|a: int| 0 <= a < out.len() && #[trigger] out[a].0 == x
}

/// If raising the listed time of `d` in `m` to `when` rewrites its record,
/// the rewritten record reads back.
pub open spec fn listed_write_ok(m: Map<Seq<char>, Seq<char>>, d: [u8; 32], when: u64) -> bool {
    let k = microdesc_key_of(d@);
    (m.contains_key(k) && record_in(RecordKind::Microdesc, m[k]) is Some && record_at(
        m,
        RecordKind::Microdesc,
        k,
    ).0[0] < when) ==> reads_back(seq![when], record_at(m, RecordKind::Microdesc, k).1)
}

/// Each rewrite made by raising listed times of `ds` in turn reads back.
pub open spec fn listed_writes_read_back(m: Map<Seq<char>, Seq<char>>, ds: Seq<[u8; 32]>, when: u64) -> bool {
    forall|i: int|
        0 <= i < ds.len() ==> #[trigger] listed_write_ok(with_listed(m, ds.subrange(0, i), when), ds[i], when)
}

/// Every pair is `(id, text)` for an `id` asked for whose record is stored,
/// and every asked-for `id` whose key is present has a pair.
pub open spec fn found_all<T>(
    m: Map<Seq<char>, Seq<char>>,
    asked: Seq<T>,
    out: Seq<(T, String)>,
    key_of: spec_fn(T) -> Seq<char>,
    kind: RecordKind,
    pos: int,
) -> bool {
    &&& forall|a: int| 0 <= a < out.len() ==> found_item(m, asked, key_of, kind, pos, #[trigger] out[a])
    &&& forall|j: int|
        0 <= j < asked.len() && m.contains_key(key_of(#[trigger] asked[j])) ==> listed(out, asked[j])
            && record_in(kind, m[key_of(asked[j])]) is Some
}

/// `item` pairs an asked-for id with the text found for it.
pub open spec fn paired<T>(asked: Seq<T>, found: Seq<Option<String>>, item: (T, String)) -> bool {
    exists|j: int| 0 <= j < asked.len() && #[trigger] asked[j] == item.0 && found[j] == Some(item.1)
}

/// How many texts a record of `kind` holds.
pub open spec fn kind_texts(kind: RecordKind) -> int {
    match kind {
        RecordKind::Consensus => 3,
        RecordKind::Authcert => 3,
        RecordKind::Microdesc => 1,
        RecordKind::Routerdesc => 1,
        RecordKind::Bridge => 1,
    }
}

/// Pairs each asked-for item with its found text, skipping those not found.
pub fn pair_up<T: Copy>(asked: &Vec<T>, found: &Vec<Option<String>>) -> (r: Vec<(T, String)>)
    requires
        asked@.len() == found@.len(),
    ensures
        forall|a: int| 0 <= a < r@.len() ==> paired(asked@, found@, #[trigger] r@[a]),
        forall|j: int| 0 <= j < asked@.len() && (#[trigger] found@[j]) is Some ==> listed(r@, asked@[j]),
{
    let mut out: Vec<(T, String)> = Vec::new();
    let ghost mut src: Seq<int> = Seq::empty();
    let mut j: usize = 0;
    while j < asked.len()
        invariant
            asked@.len() == found@.len(),
            0 <= j <= asked@.len(),
            src.len() == out@.len(),
            forall|a: int|
                0 <= a < out@.len() ==> 0 <= #[trigger] src[a] < j && asked@[src[a]] == out@[a].0
                    && found@[src[a]] == Some(out@[a].1),
            forall|b: int|
                0 <= b < j && (#[trigger] found@[b]) is Some ==> exists|a: int|
                    0 <= a < out@.len() && src[a] == b,
        decreases asked@.len() - j,
    {
        let ghost src0 = src;
        match &found[j] {
            Some(t) => {
                out.push((asked[j], t.clone()));
                proof {
                    src = src.push(j as int);
                }
            },
            None => {},
        }
        assert forall|b: int|
            0 <= b < j + 1 && (#[trigger] found@[b]) is Some implies exists|a: int|
            0 <= a < out@.len() && src[a] == b by {
            if b < j {
                let a = choose|a: int| 0 <= a < src0.len() && src0[a] == b;
                assert(src[a] == b);
            } else {
                assert(src[src.len() - 1] == b);
            }
        }
        j = j + 1;
    }
    assert forall|a: int| 0 <= a < out@.len() implies paired(asked@, found@, #[trigger] out@[a]) by {
        let j = src[a];
        assert(0 <= j < asked@.len() && asked@[j] == out@[a].0 && found@[j] == Some(out@[a].1));
    }
    assert forall|b: int| 0 <= b < asked@.len() && (#[trigger] found@[b]) is Some implies listed(
        out@,
        asked@[b],
    ) by {
        let a = choose|a: int| 0 <= a < out@.len() && src[a] == b;
        assert(out@[a].0 == asked@[b]);
    }
    out
}

pub proof fn lemma_found_all<T>(
    m: Map<Seq<char>, Seq<char>>,
    asked: Seq<T>,
    keys: Seq<String>,
    found: Seq<Option<String>>,
    out: Seq<(T, String)>,
    key_of: spec_fn(T) -> Seq<char>,
    kind: RecordKind,
    pos: int,
)
    requires
        keys.len() == asked.len(),
        found.len() == asked.len(),
        forall|b: int| 0 <= b < asked.len() ==> #[trigger] keys[b]@ == key_of(asked[b]),
        forall|b: int|
            0 <= b < asked.len() ==> ((#[trigger] found[b]) is Some <==> m.contains_key(keys[b]@)),
        forall|b: int|
            0 <= b < asked.len() ==> (#[trigger] found[b] matches Some(c) ==> c@ == record_at(
                m,
                kind,
                keys[b]@,
            ).1[pos]),
        forall|b: int|
            0 <= b < asked.len() ==> ((#[trigger] found[b]) is Some ==> record_in(kind, m[keys[b]@])
                is Some),
        forall|a: int| 0 <= a < out.len() ==> paired(asked, found, #[trigger] out[a]),
        forall|j: int| 0 <= j < asked.len() && (#[trigger] found[j]) is Some ==> listed(out, asked[j]),
    ensures
        found_all(m, asked, out, key_of, kind, pos),
{
    assert forall|a: int| 0 <= a < out.len() implies found_item(
        m,
        asked,
        key_of,
        kind,
        pos,
        #[trigger] out[a],
    ) by {
        assert(paired(asked, found, out[a]));
        let j = choose|j: int|
            0 <= j < asked.len() && #[trigger] asked[j] == out[a].0 && found[j] == Some(out[a].1);
        assert(keys[j]@ == key_of(asked[j]));
        assert(found[j] is Some);
        assert(found[j] matches Some(c) ==> c@ == record_at(m, kind, keys[j]@).1[pos]);
        assert(out[a].1@ == record_at(m, kind, key_of(asked[j])).1[pos]);
    }
    assert forall|j: int|
        0 <= j < asked.len() && m.contains_key(key_of(#[trigger] asked[j])) implies listed(
        out,
        asked[j],
    ) && record_in(kind, m[key_of(asked[j])]) is Some by {
        assert(keys[j]@ == key_of(asked[j]));
        assert(found[j] is Some);
    }
}

impl<D: CustomDirStore> BoxedDirStore<D> {
    /// The content text of the record of `kind` under each key, where present.
    fn lookup_each(&self, keys: &Vec<String>, kind: RecordKind, pos: usize) -> (r: Result<
        Vec<Option<String>>,
        DirError,
    >)
        requires
            pos < kind_texts(kind),
        ensures
            r matches Ok(v) ==> v@.len() == keys@.len() && (forall|b: int|
                0 <= b < keys@.len() ==> ((#[trigger] v@[b]) is Some <==> self.documents().contains_key(
                    keys@[b]@,
                ))) && (forall|b: int|
                0 <= b < keys@.len() ==> (#[trigger] v@[b] matches Some(c) ==> c@ == record_at(
                    self.documents(),
                    kind,
                    keys@[b]@,
                ).1[pos as int])) && (forall|b: int|
                0 <= b < keys@.len() ==> ((#[trigger] v@[b]) is Some ==> record_in(
                    kind,
                    self.documents()[keys@[b]@],
                ) is Some)),
    {
        let mut v: Vec<Option<String>> = Vec::new();
        let mut j: usize = 0;
        while j < keys.len()
            invariant
                pos < kind_texts(kind),
                0 <= j <= keys@.len(),
                v@.len() == j,
                forall|b: int|
                    0 <= b < j ==> ((#[trigger] v@[b]) is Some <==> self.documents().contains_key(
                        keys@[b]@,
                    )),
                forall|b: int|
                    0 <= b < j ==> (#[trigger] v@[b] matches Some(c) ==> c@ == record_at(
                        self.documents(),
                        kind,
                        keys@[b]@,
                    ).1[pos as int]),
                forall|b: int|
                    0 <= b < j ==> ((#[trigger] v@[b]) is Some ==> record_in(
                        kind,
                        self.documents()[keys@[b]@],
                    ) is Some),
            decreases keys@.len() - j,
        {
            match self.get_record(keys[j].as_str(), kind)? {
                None => {
                    v.push(None);
                },
                Some(p) => {
                    assert(texts_of(p.1@).len() == p.1@.len());
                    v.push(Some(p.1[pos].clone()));
                },
            }
            j = j + 1;
        }
        Ok(v)
    }

    /// The stored text of each certificate asked for that is present.
    pub fn authcerts(&self, certs: &Vec<AuthCertKeyIds>) -> (r: Result<
        Vec<(AuthCertKeyIds, String)>,
        DirError,
    >)
        ensures
            r matches Ok(out) ==> found_all(
                self.documents(),
                certs@,
                out@,
                |i: AuthCertKeyIds| authcert_key_of(i),
                RecordKind::Authcert,
                2,
            ),
    {
        let ghost m = self.documents();
        let mut keys: Vec<String> = Vec::new();
        let mut j: usize = 0;
        while j < certs.len()
            invariant
                0 <= j <= certs@.len(),
                keys@.len() == j,
                forall|b: int| 0 <= b < j ==> #[trigger] keys@[b]@ == authcert_key_of(certs@[b]),
            decreases certs@.len() - j,
        {
            keys.push(authcert_key(&certs[j]));
            j = j + 1;
        }
        let found = self.lookup_each(&keys, RecordKind::Authcert, 2)?;
        let out = pair_up(certs, &found);
        proof {
            lemma_found_all(m, certs@, keys@, found@, out@, |i: AuthCertKeyIds| authcert_key_of(i), RecordKind::Authcert, 2);
        }
        Ok(out)
    }


    /// Stores each certificate under its fingerprints, replacing earlier copies.
    pub fn store_authcerts(&mut self, certs: &Vec<(AuthCertMeta, String)>) -> (r: Result<
        (),
        DirError,
    >)
        ensures
            final(self).backend().writable() == old(self).backend().writable(),
            r is Ok ==> final(self).documents() == with_authcerts(old(self).documents(), certs@),
            r is Ok ==> forall|i: int|
                0 <= i < certs@.len() ==> #[trigger] record_in(
                    RecordKind::Authcert,
                    fields_json(
                        authcert_frame_of(certs@[i].0, certs@[i].1@).0,
                        authcert_frame_of(certs@[i].0, certs@[i].1@).1,
                    ),
                ) == Some(authcert_frame_of(certs@[i].0, certs@[i].1@)),
    {
        let ghost m0 = self.documents();
        let mut i: usize = 0;
        while i < certs.len()
            invariant
                0 <= i <= certs@.len(),
                self.backend().writable() == old(self).backend().writable(),
                m0 == old(self).documents(),
                self.documents() == with_authcerts(m0, certs@.subrange(0, i as int)),
                forall|j: int|
                    0 <= j < i ==> #[trigger] record_in(
                        RecordKind::Authcert,
                        fields_json(
                            authcert_frame_of(certs@[j].0, certs@[j].1@).0,
                            authcert_frame_of(certs@[j].0, certs@[j].1@).1,
                        ),
                    ) == Some(authcert_frame_of(certs@[j].0, certs@[j].1@)),
            decreases certs@.len() - i,
        {
            let meta = certs[i].0;
            let key = authcert_key(&meta.key_ids);
            let mut numbers: Vec<u64> = Vec::new();
            numbers.push(meta.published);
            numbers.push(meta.expires);
            let mut texts: Vec<String> = Vec::new();
            texts.push(encode_hex(&meta.key_ids.id_fingerprint));
            texts.push(encode_hex(&meta.key_ids.sk_fingerprint));
            texts.push(certs[i].1.clone());
            assert(numbers@ =~= authcert_frame_of(meta, certs@[i as int].1@).0);
            assert(texts_of(texts@) =~= authcert_frame_of(meta, certs@[i as int].1@).1);
            self.put(key.as_str(), &numbers, &texts)?;
            assert(certs@.subrange(0, i + 1).drop_last() =~= certs@.subrange(0, i as int));
            i = i + 1;
        }
        assert(certs@.subrange(0, certs@.len() as int) =~= certs@);
        Ok(())
    }

    /// The stored text of each microdescriptor asked for that is present.
    pub fn microdescs(&self, digests: &Vec<[u8; 32]>) -> (r: Result<Vec<([u8; 32], String)>, DirError>)
        ensures
            r matches Ok(out) ==> found_all(
                self.documents(),
                digests@,
                out@,
                |d: [u8; 32]| microdesc_key_of(d@),
                RecordKind::Microdesc,
                0,
            ),
    {
        let ghost m = self.documents();
        let mut keys: Vec<String> = Vec::new();
        let mut j: usize = 0;
        while j < digests.len()
            invariant
                0 <= j <= digests@.len(),
                keys@.len() == j,
                forall|b: int| 0 <= b < j ==> #[trigger] keys@[b]@ == microdesc_key_of(digests@[b]@),
            decreases digests@.len() - j,
        {
            keys.push(microdesc_key(&digests[j]));
            j = j + 1;
        }
        let found = self.lookup_each(&keys, RecordKind::Microdesc, 0)?;
        let out = pair_up(digests, &found);
        proof {
            lemma_found_all(m, digests@, keys@, found@, out@, |d: [u8; 32]| microdesc_key_of(d@), RecordKind::Microdesc, 0);
        }
        Ok(out)
    }


    /// Stores each microdescriptor under its digest, listed at `when`.
    pub fn store_microdescs(&mut self, docs: &Vec<(String, [u8; 32])>, when: u64) -> (r: Result<
        (),
        DirError,
    >)
        ensures
            final(self).backend().writable() == old(self).backend().writable(),
            r is Ok ==> final(self).documents() == with_microdescs(old(self).documents(), docs@, when),
            r is Ok ==> forall|i: int|
                0 <= i < docs@.len() ==> #[trigger] record_in(
                    RecordKind::Microdesc,
                    fields_json(seq![when], seq![docs@[i].0@]),
                ) == Some((seq![when], seq![docs@[i].0@])),
    {
        let ghost m0 = self.documents();
        let mut i: usize = 0;
        while i < docs.len()
            invariant
                0 <= i <= docs@.len(),
                self.backend().writable() == old(self).backend().writable(),
                m0 == old(self).documents(),
                self.documents() == with_microdescs(m0, docs@.subrange(0, i as int), when),
                forall|j: int|
                    0 <= j < i ==> #[trigger] record_in(
                        RecordKind::Microdesc,
                        fields_json(seq![when], seq![docs@[j].0@]),
                    ) == Some((seq![when], seq![docs@[j].0@])),
            decreases docs@.len() - i,
        {
            let key = microdesc_key(&docs[i].1);
            let mut numbers: Vec<u64> = Vec::new();
            numbers.push(when);
            let mut texts: Vec<String> = Vec::new();
            texts.push(docs[i].0.clone());
            assert(numbers@ =~= seq![when]);
            assert(texts_of(texts@) =~= seq![docs@[i as int].0@]);
            self.put(key.as_str(), &numbers, &texts)?;
            assert(docs@.subrange(0, i + 1).drop_last() =~= docs@.subrange(0, i as int));
            i = i + 1;
        }
        assert(docs@.subrange(0, docs@.len() as int) =~= docs@);
        Ok(())
    }

    /// Raises the last-listed time of each stored microdescriptor asked for
    /// to `when`; a later time already stored is kept.
    pub fn update_microdescs_listed(&mut self, digests: &Vec<[u8; 32]>, when: u64) -> (r: Result<
        (),
        DirError,
    >)
        ensures
            final(self).backend().writable() == old(self).backend().writable(),
            r is Ok ==> final(self).documents() == with_listed(old(self).documents(), digests@, when),
            r is Ok ==> listed_writes_read_back(old(self).documents(), digests@, when),
    {
        let ghost m0 = self.documents();
        let mut i: usize = 0;
        while i < digests.len()
            invariant
                0 <= i <= digests@.len(),
                self.backend().writable() == old(self).backend().writable(),
                m0 == old(self).documents(),
                self.documents() == with_listed(m0, digests@.subrange(0, i as int), when),
                forall|j: int|
                    0 <= j < i ==> #[trigger] listed_write_ok(
                        with_listed(m0, digests@.subrange(0, j), when),
                        digests@[j],
                        when,
                    ),
            decreases digests@.len() - i,
        {
            assert(digests@.subrange(0, i + 1).drop_last() =~= digests@.subrange(0, i as int));
            let key = microdesc_key(&digests[i]);
            let ghost cur = self.documents();
            let rec = self.get_record(key.as_str(), RecordKind::Microdesc)?;
            match rec {
                Some(p) => {
                    if p.0[0] < when {
                        let mut numbers: Vec<u64> = Vec::new();
                        numbers.push(when);
                        assert(numbers@ =~= seq![when]);
                        self.put(key.as_str(), &numbers, &p.1)?;
                    }
                },
                None => {},
            }
            assert(listed_write_ok(cur, digests@[i as int], when));
            i = i + 1;
        }
        assert(digests@.subrange(0, digests@.len() as int) =~= digests@);
        Ok(())
    }

    /// The stored text of each router descriptor asked for that is present.
    pub fn routerdescs(&self, digests: &Vec<[u8; 20]>) -> (r: Result<Vec<([u8; 20], String)>, DirError>)
        ensures
            r matches Ok(out) ==> found_all(
                self.documents(),
                digests@,
                out@,
                |d: [u8; 20]| routerdesc_key_of(d@),
                RecordKind::Routerdesc,
                0,
            ),
    {
        let ghost m = self.documents();
        let mut keys: Vec<String> = Vec::new();
        let mut j: usize = 0;
        while j < digests.len()
            invariant
                0 <= j <= digests@.len(),
                keys@.len() == j,
                forall|b: int| 0 <= b < j ==> #[trigger] keys@[b]@ == routerdesc_key_of(digests@[b]@),
            decreases digests@.len() - j,
        {
            keys.push(routerdesc_key(&digests[j]));
            j = j + 1;
        }
        let found = self.lookup_each(&keys, RecordKind::Routerdesc, 0)?;
        let out = pair_up(digests, &found);
        proof {
            lemma_found_all(m, digests@, keys@, found@, out@, |d: [u8; 20]| routerdesc_key_of(d@), RecordKind::Routerdesc, 0);
        }
        Ok(out)
    }


    /// Stores each router descriptor under its digest with its publication time.
    pub fn store_routerdescs(&mut self, docs: &Vec<(String, u64, [u8; 20])>) -> (r: Result<
        (),
        DirError,
    >)
        ensures
            final(self).backend().writable() == old(self).backend().writable(),
            r is Ok ==> final(self).documents() == with_routerdescs(old(self).documents(), docs@),
            r is Ok ==> forall|i: int|
                0 <= i < docs@.len() ==> #[trigger] record_in(
                    RecordKind::Routerdesc,
                    fields_json(seq![docs@[i].1], seq![docs@[i].0@]),
                ) == Some((seq![docs@[i].1], seq![docs@[i].0@])),
    {
        let ghost m0 = self.documents();
        let mut i: usize = 0;
        while i < docs.len()
            invariant
                0 <= i <= docs@.len(),
                self.backend().writable() == old(self).backend().writable(),
                m0 == old(self).documents(),
                self.documents() == with_routerdescs(m0, docs@.subrange(0, i as int)),
                forall|j: int|
                    0 <= j < i ==> #[trigger] record_in(
                        RecordKind::Routerdesc,
                        fields_json(seq![docs@[j].1], seq![docs@[j].0@]),
                    ) == Some((seq![docs@[j].1], seq![docs@[j].0@])),
            decreases docs@.len() - i,
        {
            let key = routerdesc_key(&docs[i].2);
            let mut numbers: Vec<u64> = Vec::new();
            numbers.push(docs[i].1);
            let mut texts: Vec<String> = Vec::new();
            texts.push(docs[i].0.clone());
            assert(numbers@ =~= seq![docs@[i as int].1]);
            assert(texts_of(texts@) =~= seq![docs@[i as int].0@]);
            self.put(key.as_str(), &numbers, &texts)?;
            assert(docs@.subrange(0, i + 1).drop_last() =~= docs@.subrange(0, i as int));
            i = i + 1;
        }
        assert(docs@.subrange(0, docs@.len() as int) =~= docs@);
        Ok(())
    }

    /// The stored descriptor of a bridge, named by its configuration line.
    pub fn lookup_bridgedesc(&self, bridge: &str) -> (r: Result<Option<CachedBridgeDescriptor>, DirError>)
        ensures
            r matches Ok(v) ==> (v is Some <==> self.documents().contains_key(bridge_key_of(bridge@))),
            r matches Ok(Some(_)) ==> record_in(
                RecordKind::Bridge,
                self.documents()[bridge_key_of(bridge@)],
            ) is Some,
            r matches Ok(Some(d)) ==> d.fetched == record_at(
                self.documents(),
                RecordKind::Bridge,
                bridge_key_of(bridge@),
            ).0[0] && d.document@ == record_at(
                self.documents(),
                RecordKind::Bridge,
                bridge_key_of(bridge@),
            ).1[0],
    {
        let key = bridge_key(bridge);
        match self.get_record(key.as_str(), RecordKind::Bridge)? {
            None => Ok(None),
            Some(p) => Ok(Some(CachedBridgeDescriptor { fetched: p.0[0], document: p.1[0].clone() })),
        }
    }

    /// Stores a bridge's descriptor, to be dropped once `until` has passed.
    pub fn store_bridgedesc(&mut self, bridge: &str, entry: CachedBridgeDescriptor, until: u64) -> (r: Result<
        (),
        DirError,
    >)
        ensures
            final(self).backend().writable() == old(self).backend().writable(),
            r is Ok ==> final(self).documents() == old(self).documents().insert(
                bridge_key_of(bridge@),
                fields_json(seq![entry.fetched, until], seq![entry.document@]),
            ),
            r is Ok ==> record_in(RecordKind::Bridge, final(self).documents()[bridge_key_of(bridge@)])
                == Some((seq![entry.fetched, until], seq![entry.document@])),
            !old(self).backend().writable() ==> (r matches Err(DirError::ReadOnly)),
            r matches Err(e) ==> !e.spec_is_corruption(),
    {
        let key = bridge_key(bridge);
        let mut numbers: Vec<u64> = Vec::new();
        numbers.push(entry.fetched);
        numbers.push(until);
        let ghost doc = entry.document@;
        let mut texts: Vec<String> = Vec::new();
        texts.push(entry.document);
        assert(numbers@ =~= seq![entry.fetched, until]);
        assert(texts_of(texts@) =~= seq![doc]);
        self.put(key.as_str(), &numbers, &texts)
    }

    /// Deletes a bridge's descriptor.
    pub fn delete_bridgedesc(&mut self, bridge: &str) -> (r: Result<(), DirError>)
        ensures
            final(self).backend().writable() == old(self).backend().writable(),
            !old(self).backend().writable() ==> (r matches Err(DirError::ReadOnly)),
            r is Ok ==> final(self).documents() == old(self).documents().remove(bridge_key_of(bridge@)),
    {
        let key = bridge_key(bridge);
        self.inner.delete(key.as_str())
    }

    /// Stores protocol recommendations unless those stored are as new or newer.
    pub fn update_protocol_recommendations(&mut self, valid_after: u64, protocols: &str) -> (r: Result<
        (),
        DirError,
    >)
        ensures
            final(self).backend().writable() == old(self).backend().writable(),
            r is Ok ==> {
                let m = old(self).documents();
                if m.contains_key(protocols_key_of()) && timed_in(m[protocols_key_of()])->Some_0.0[0]
                    >= valid_after {
                    final(self).documents() == m
                } else {
                    final(self).documents() == m.insert(
                        protocols_key_of(),
                        fields_json(seq![valid_after], seq![protocols@]),
                    ) && timed_in(final(self).documents()[protocols_key_of()]) == Some(
                        (seq![valid_after], seq![protocols@]),
                    )
                }
            },
            r is Ok && old(self).documents().contains_key(protocols_key_of()) ==> timed_in(
                old(self).documents()[protocols_key_of()],
            ) is Some,
    {
        let key = protocols_key();
        match self.inner.load(key)? {
            Some(v) => {
                let p = frame_from_json(v.as_str(), 1, 1)?;
                if p.0[0] >= valid_after {
                    return Ok(());
                }
            },
            None => {},
        }
        let mut numbers: Vec<u64> = Vec::new();
        numbers.push(valid_after);
        let mut texts: Vec<String> = Vec::new();
        texts.push(String::from_str(protocols));
        assert(numbers@ =~= seq![valid_after]);
        assert(texts_of(texts@) =~= seq![protocols@]);
        self.put(key, &numbers, &texts)
    }

    /// The stored protocol recommendations and their valid-after time.
    pub fn cached_protocol_recommendations(&self) -> (r: Result<Option<(u64, String)>, DirError>)
        ensures
            r matches Ok(v) ==> (v is Some <==> self.documents().contains_key(protocols_key_of())),
            r matches Ok(Some(p)) ==> timed_in(self.documents()[protocols_key_of()]) == Some(
                (seq![p.0], seq![p.1@]),
            ),
    {
        match self.inner.load(protocols_key())? {
            None => Ok(None),
            Some(v) => {
                let p = frame_from_json(v.as_str(), 1, 1)?;
                let t = p.0[0];
                let text = p.1[0].clone();
                assert(p.0@ =~= seq![t]);
                assert(texts_of(p.1@) =~= seq![text@]);
                Ok(Some((t, text)))
            },
        }
    }
}

/// Removing keys keeps every remaining record readable.
pub proof fn lemma_readable_after_removal(m: Map<Seq<char>, Seq<char>>, s: Set<Seq<char>>)
    requires
        sweep_readable(m),
    ensures
        sweep_readable(m.remove_keys(s)),
{
    let m2 = m.remove_keys(s);
    assert forall|kind: RecordKind, k: Seq<char>| #[trigger] under(m2, kind_prefix(kind), k) implies under(
        m,
        kind_prefix(kind),
        k,
    ) && m2[k] == m[k] by {}
}

} // verus!
