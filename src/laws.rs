//! Properties that relate several operations of the caches.
use vstd::prelude::*;

use crate::dircache::{
    expired_keys, found_all, frame_passes, is_latest, listed, listed_writes_read_back, made_usable,
    marked, none_passes, record_at, std_of, swept, under, with_authcerts, with_listed,
    with_microdescs, with_routerdescs,
};
use crate::dirstore::{
    consensus_frame_of, consensus_key_of, fields_json, flavor_prefix,
    kind_prefix, lemma_kind_prefixes_disjoint, meta_of_frame, meta_readable, microdesc_key_of,
    record_in, record_time, reads_back, RecordKind,
};
use crate::docmeta::lifetime_ok;
use crate::hexcode::{hex_of, lemma_hex_round_trip};
use crate::dircache::authcert_frame_of;
use crate::docmeta::{
    expired_at, AuthCertKeyIds, AuthCertMeta, CachedBridgeDescriptor, ConsensusFlavor,
    ConsensusMeta, ExpirationConfig, SignedDuration, StdDuration,
};
use crate::inmemory::{
    mem_found_all, mem_found_item, mem_passes, mem_swept, mem_with_authcerts, mem_with_listed,
    mem_with_microdescs, mem_with_routerdescs, stored_as, InMemoryStore, MemConsensus,
};
use crate::dirstore::{authcert_key_of, routerdesc_key_of};

verus! {

/// A certificate stored in memory is what a lookup of its fingerprints
/// returns.
pub proof fn lemma_authcert_store_then_lookup(
    m: Map<Seq<char>, (AuthCertMeta, String)>,
    cert: (AuthCertMeta, String),
    out: Seq<(AuthCertKeyIds, String)>,
)
    requires
        mem_found_all(
            mem_with_authcerts(m, seq![cert]),
            seq![cert.0.key_ids],
            out,
            |i: AuthCertKeyIds| authcert_key_of(i),
            |v: (AuthCertMeta, String)| v.1@,
        ),
    ensures
        exists|a: int| 0 <= a < out.len() && out[a].0 == cert.0.key_ids && #[trigger] out[a].1@ == cert.1@,
{
    let m1 = mem_with_authcerts(m, seq![cert]);
    assert(seq![cert].drop_last() =~= Seq::<(AuthCertMeta, String)>::empty());
    assert(mem_with_authcerts(m, Seq::<(AuthCertMeta, String)>::empty()) == m);
    assert(seq![cert].last() == cert);
    assert(m1 == m.insert(authcert_key_of(cert.0.key_ids), cert));
    let asked = seq![cert.0.key_ids];
    assert(m1.contains_key(authcert_key_of(asked[0])));
    let a = choose|a: int| 0 <= a < out.len() && #[trigger] out[a].0 == asked[0];
    assert(mem_found_item(m1, asked, |i: AuthCertKeyIds| authcert_key_of(i), |v: (AuthCertMeta, String)| v.1@, out[a]));
    let j = choose|j: int|
        0 <= j < asked.len() && #[trigger] asked[j] == out[a].0 && m1.contains_key(authcert_key_of(asked[j]))
            && out[a].1@ == m1[authcert_key_of(asked[j])].1@;
    assert(j == 0);
}

/// A microdescriptor stored in memory is what a lookup of its digest returns.
pub proof fn lemma_microdesc_store_then_lookup(
    m: Map<Seq<char>, (String, u64)>,
    doc: (String, [u8; 32]),
    when: u64,
    out: Seq<([u8; 32], String)>,
)
    requires
        mem_found_all(
            mem_with_microdescs(m, seq![doc], when),
            seq![doc.1],
            out,
            |d: [u8; 32]| microdesc_key_of(d@),
            |v: (String, u64)| v.0@,
        ),
    ensures
        exists|a: int| 0 <= a < out.len() && out[a].0 == doc.1 && #[trigger] out[a].1@ == doc.0@,
{
    let m1 = mem_with_microdescs(m, seq![doc], when);
    assert(seq![doc].drop_last() =~= Seq::<(String, [u8; 32])>::empty());
    assert(mem_with_microdescs(m, Seq::<(String, [u8; 32])>::empty(), when) == m);
    assert(seq![doc].last() == doc);
    assert(m1 == m.insert(microdesc_key_of(doc.1@), (doc.0, when)));
    let asked = seq![doc.1];
    assert(m1.contains_key(microdesc_key_of(asked[0]@)));
    let a = choose|a: int| 0 <= a < out.len() && #[trigger] out[a].0 == asked[0];
    assert(mem_found_item(m1, asked, |d: [u8; 32]| microdesc_key_of(d@), |v: (String, u64)| v.0@, out[a]));
    let j = choose|j: int|
        0 <= j < asked.len() && #[trigger] asked[j] == out[a].0 && m1.contains_key(microdesc_key_of(asked[j]@))
            && out[a].1@ == m1[microdesc_key_of(asked[j]@)].0@;
    assert(j == 0);
}

/// A router descriptor stored in memory is what a lookup of its digest
/// returns.
pub proof fn lemma_routerdesc_store_then_lookup(
    m: Map<Seq<char>, (String, u64)>,
    doc: (String, u64, [u8; 20]),
    out: Seq<([u8; 20], String)>,
)
    requires
        mem_found_all(
            mem_with_routerdescs(m, seq![doc]),
            seq![doc.2],
            out,
            |d: [u8; 20]| routerdesc_key_of(d@),
            |v: (String, u64)| v.0@,
        ),
    ensures
        exists|a: int| 0 <= a < out.len() && out[a].0 == doc.2 && #[trigger] out[a].1@ == doc.0@,
{
    let m1 = mem_with_routerdescs(m, seq![doc]);
    assert(seq![doc].drop_last() =~= Seq::<(String, u64, [u8; 20])>::empty());
    assert(mem_with_routerdescs(m, Seq::<(String, u64, [u8; 20])>::empty()) == m);
    assert(seq![doc].last() == doc);
    assert(m1 == m.insert(routerdesc_key_of(doc.2@), (doc.0, doc.1)));
    let asked = seq![doc.2];
    assert(m1.contains_key(routerdesc_key_of(asked[0]@)));
    let a = choose|a: int| 0 <= a < out.len() && #[trigger] out[a].0 == asked[0];
    assert(mem_found_item(m1, asked, |d: [u8; 20]| routerdesc_key_of(d@), |v: (String, u64)| v.0@, out[a]));
    let j = choose|j: int|
        0 <= j < asked.len() && #[trigger] asked[j] == out[a].0 && m1.contains_key(routerdesc_key_of(asked[j]@))
            && out[a].1@ == m1[routerdesc_key_of(asked[j]@)].0@;
    assert(j == 0);
}

/// A consensus stored in memory holds the flavor, metadata, pending flag and
/// text it was stored with.
pub proof fn lemma_consensus_store_then_lookup(
    m0: Map<Seq<char>, MemConsensus>,
    m1: Map<Seq<char>, MemConsensus>,
    k: Seq<char>,
    flavor: ConsensusFlavor,
    meta: ConsensusMeta,
    pending: bool,
    content: Seq<char>,
)
    requires
        stored_as(m0, m1, k, flavor, meta, pending, content),
    ensures
        m1.contains_key(k),
        m1[k].flavor == flavor && m1[k].meta == meta && m1[k].pending == pending && m1[k].content@ == content,
{
}

/// Raising a microdescriptor's last-listed time to `t2` and then to an
/// earlier `t1` leaves it at `t2`.
pub proof fn lemma_listed_never_decreases(
    m: Map<Seq<char>, (String, u64)>,
    d: [u8; 32],
    t1: u64,
    t2: u64,
)
    requires
        t1 < t2,
        m.contains_key(microdesc_key_of(d@)),
        m[microdesc_key_of(d@)].1 <= t2,
    ensures
        mem_with_listed(mem_with_listed(m, seq![d], t2), seq![d], t1)[microdesc_key_of(d@)].1 == t2,
{
    assert(seq![d].drop_last() =~= Seq::<[u8; 32]>::empty());
    let m1 = mem_with_listed(m, seq![d], t2);
    assert(mem_with_listed(m, Seq::<[u8; 32]>::empty(), t2) == m);
    assert(m1.contains_key(microdesc_key_of(d@)) && m1[microdesc_key_of(d@)].1 == t2);
    assert(mem_with_listed(m1, Seq::<[u8; 32]>::empty(), t1) == m1);
}

/// A consensus stored as pending is passed over by a query for usable
/// consensuses and found by a query for pending ones; once it is the only
/// one with its whole digest and is marked usable, usable queries find it.
pub proof fn lemma_pending_until_marked(
    m0: Map<Seq<char>, MemConsensus>,
    m1: Map<Seq<char>, MemConsensus>,
    m2: Map<Seq<char>, MemConsensus>,
    k: Seq<char>,
    flavor: ConsensusFlavor,
    meta: ConsensusMeta,
    content: Seq<char>,
)
    requires
        stored_as(m0, m1, k, flavor, meta, true, content),
        forall|k2: Seq<char>|
            #[trigger] m1.contains_key(k2) && k2 != k ==> m1[k2].meta.sha3_of_whole@ != meta.sha3_of_whole@,
        exists|k2: Seq<char>|
            #[trigger] m1.contains_key(k2) && m1[k2].meta.sha3_of_whole@ == meta.sha3_of_whole@
                && m2 == m1.insert(k2, m2[k2]) && m2[k2].flavor == m1[k2].flavor && m2[k2].meta
                == m1[k2].meta && !m2[k2].pending && m2[k2].content@ == m1[k2].content@,
    ensures
        !mem_passes(m1[k], flavor, Some(false)),
        mem_passes(m1[k], flavor, Some(true)),
        m2.contains_key(k),
        mem_passes(m2[k], flavor, Some(false)),
        m2[k].meta == meta,
{
    let k2 = choose|k2: Seq<char>|
        #[trigger] m1.contains_key(k2) && m1[k2].meta.sha3_of_whole@ == meta.sha3_of_whole@
            && m2 == m1.insert(k2, m2[k2]) && m2[k2].flavor == m1[k2].flavor && m2[k2].meta
            == m1[k2].meta && !m2[k2].pending && m2[k2].content@ == m1[k2].content@;
    assert(k2 == k);
}

/// A consensus held in memory is dropped by a sweep once its valid-until
/// time plus the tolerance (whole seconds) has come, and kept by a sweep one
/// second before.
pub proof fn lemma_consensus_expiry_in_memory(
    a: InMemoryStore,
    b_at: InMemoryStore,
    b_before: InMemoryStore,
    config: ExpirationConfig,
    k: Seq<char>,
    tolerance: i64,
    at: u64,
)
    requires
        a.consensus_map().contains_key(k),
        config.consensuses == (SignedDuration { seconds: tolerance, nanoseconds: 0 }),
        tolerance >= 0,
        at == a.consensus_map()[k].meta.valid_until + tolerance,
        at >= 1,
        mem_swept(&a, &b_at, config, at),
        mem_swept(&a, &b_before, config, (at - 1) as u64),
    ensures
        !b_at.consensus_map().contains_key(k),
        b_before.consensus_map().contains_key(k),
{
    let t = std_of(config.consensuses);
    assert(t == StdDuration { secs: tolerance as u64, nanos: 0 });
    let vu = a.consensus_map()[k].meta.valid_until;
    assert(expired_at(at, vu, t)) by (nonlinear_arith)
        requires
            at == vu + tolerance,
            t.secs == tolerance,
            t.nanos == 0,
    ;
    assert(!expired_at((at - 1) as u64, vu, t)) by (nonlinear_arith)
        requires
            at == vu + tolerance,
            at >= 1,
            t.secs == tolerance,
            t.nanos == 0,
    ;
}

/// A consensus kept by a custom backend is dropped by a sweep once its
/// valid-until time plus the tolerance (whole seconds) has come, and kept by
/// a sweep one second before.
pub proof fn lemma_consensus_expiry_in_backend(
    m: Map<Seq<char>, Seq<char>>,
    config: ExpirationConfig,
    k: Seq<char>,
    tolerance: i64,
    at: u64,
)
    requires
        under(m, kind_prefix(RecordKind::Consensus), k),
        record_in(RecordKind::Consensus, m[k]) is Some,
        config.consensuses == (SignedDuration { seconds: tolerance, nanoseconds: 0 }),
        tolerance >= 0,
        at == record_at(m, RecordKind::Consensus, k).0[2] + tolerance,
        at >= 1,
    ensures
        !swept(m, config, at).contains_key(k),
        swept(m, config, (at - 1) as u64).contains_key(k),
{
    let t = std_of(config.consensuses);
    let vu = record_at(m, RecordKind::Consensus, k).0[2];
    assert(record_time(RecordKind::Consensus, record_at(m, RecordKind::Consensus, k)) == vu);
    assert(expired_at(at, vu, t)) by (nonlinear_arith)
        requires
            at == vu + tolerance,
            t.secs == tolerance,
            t.nanos == 0,
    ;
    assert(!expired_at((at - 1) as u64, vu, t)) by (nonlinear_arith)
        requires
            at == vu + tolerance,
            at >= 1,
            t.secs == tolerance,
            t.nanos == 0,
    ;
    assert(expired_keys(m, RecordKind::Consensus, t, at).contains(k));
    let now = (at - 1) as u64;
    assert(!expired_keys(m, RecordKind::Consensus, t, now).contains(k));
    lemma_kind_prefixes_disjoint(RecordKind::Consensus, RecordKind::Authcert, k);
    lemma_kind_prefixes_disjoint(RecordKind::Consensus, RecordKind::Microdesc, k);
    lemma_kind_prefixes_disjoint(RecordKind::Consensus, RecordKind::Routerdesc, k);
    lemma_kind_prefixes_disjoint(RecordKind::Consensus, RecordKind::Bridge, k);
}

/// A consensus key lies under its flavor's prefix, and that under the
/// prefix of all consensuses.
pub proof fn lemma_consensus_key_prefixes(flavor: ConsensusFlavor, whole: Seq<u8>, k: Seq<char>)
    ensures
        flavor_prefix(flavor).is_prefix_of(consensus_key_of(flavor, whole)),
        flavor_prefix(flavor).is_prefix_of(k) ==> kind_prefix(RecordKind::Consensus).is_prefix_of(k),
{
    let p = flavor_prefix(flavor);
    assert(p =~= consensus_key_of(flavor, whole).subrange(0, p.len() as int));
    let c = kind_prefix(RecordKind::Consensus);
    if p.is_prefix_of(k) {
        assert(c =~= p.subrange(0, c.len() as int));
        assert(c =~= k.subrange(0, c.len() as int));
    }
}

/// A consensus record stored for metadata, a pending flag and a text reads
/// back as them: its metadata is readable and equal to what was stored.
pub proof fn lemma_stored_consensus_reads_back(
    meta: ConsensusMeta,
    pending: bool,
    content: Seq<char>,
    m: ConsensusMeta,
)
    requires
        lifetime_ok(meta.valid_after, meta.fresh_until, meta.valid_until),
    ensures
        meta_readable(consensus_frame_of(meta, pending, content)),
        meta_readable(made_usable(consensus_frame_of(meta, pending, content))),
        frame_passes(consensus_frame_of(meta, pending, content), Some(pending)),
        !frame_passes(consensus_frame_of(meta, pending, content), Some(!pending)),
        consensus_frame_of(meta, pending, content).1[0] == hex_of(meta.sha3_of_signed@),
        consensus_frame_of(meta, pending, content).1[1] == hex_of(meta.sha3_of_whole@),
        consensus_frame_of(meta, pending, content).1[2] == content,
        meta_of_frame(m, consensus_frame_of(meta, pending, content)) ==> m == meta,
        meta_of_frame(m, made_usable(consensus_frame_of(meta, pending, content))) ==> m == meta,
{
    broadcast use vstd::array::group_array_axioms;
    lemma_hex_round_trip(meta.sha3_of_signed@);
    lemma_hex_round_trip(meta.sha3_of_whole@);
    let f = consensus_frame_of(meta, pending, content);
    assert(made_usable(f).1 == f.1);
    assert(made_usable(f).0[0] == f.0[0] && made_usable(f).0[1] == f.0[1] && made_usable(f).0[2] == f.0[2]);
    if meta_of_frame(m, f) || meta_of_frame(m, made_usable(f)) {
        assert(m.sha3_of_signed@ == meta.sha3_of_signed@);
        assert(m.sha3_of_whole@ == meta.sha3_of_whole@);
        assert(m.sha3_of_signed == meta.sha3_of_signed);
        assert(m.sha3_of_whole == meta.sha3_of_whole);
    }
}

/// On a cache with no consensus, storing a pending consensus and then
/// marking it usable: before the mark it is the latest pending consensus of
/// its flavor and no usable one exists; after it, it is the latest usable
/// one, and its metadata reads back as stored.
pub proof fn lemma_backend_pending_until_marked(
    m0: Map<Seq<char>, Seq<char>>,
    m1: Map<Seq<char>, Seq<char>>,
    m2: Map<Seq<char>, Seq<char>>,
    meta: ConsensusMeta,
    flavor: ConsensusFlavor,
    content: Seq<char>,
    m: ConsensusMeta,
)
    requires
        lifetime_ok(meta.valid_after, meta.fresh_until, meta.valid_until),
        forall|k: Seq<char>| !#[trigger] under(m0, kind_prefix(RecordKind::Consensus), k),
        m1 == m0.insert(consensus_key_of(flavor, meta.sha3_of_whole@), m1[consensus_key_of(flavor, meta.sha3_of_whole@)]),
        record_in(RecordKind::Consensus, m1[consensus_key_of(flavor, meta.sha3_of_whole@)]) == Some(
            consensus_frame_of(meta, true, content),
        ),
        marked(m1, m2, meta.sha3_of_whole@),
    ensures
        forall|k: Seq<char>| #[trigger] under(m1, flavor_prefix(flavor), k) ==> k == consensus_key_of(flavor, meta.sha3_of_whole@),
        is_latest(m1, flavor_prefix(flavor), Some(true), consensus_key_of(flavor, meta.sha3_of_whole@)),
        record_at(m1, RecordKind::Consensus, consensus_key_of(flavor, meta.sha3_of_whole@)).1[2] == content,
        none_passes(m1, flavor_prefix(flavor), Some(false)),
        forall|k: Seq<char>| #[trigger] under(m2, flavor_prefix(flavor), k) ==> k == consensus_key_of(flavor, meta.sha3_of_whole@),
        is_latest(m2, flavor_prefix(flavor), Some(false), consensus_key_of(flavor, meta.sha3_of_whole@)),
        meta_readable(record_at(m2, RecordKind::Consensus, consensus_key_of(flavor, meta.sha3_of_whole@))),
        meta_of_frame(m, record_at(m2, RecordKind::Consensus, consensus_key_of(flavor, meta.sha3_of_whole@))) ==> m == meta,
{
    let key = consensus_key_of(flavor, meta.sha3_of_whole@);
    let p = flavor_prefix(flavor);
    let c = kind_prefix(RecordKind::Consensus);
    let f = consensus_frame_of(meta, true, content);
    lemma_consensus_key_prefixes(flavor, meta.sha3_of_whole@, key);
    lemma_stored_consensus_reads_back(meta, true, content, m);
    assert(record_at(m1, RecordKind::Consensus, key) == f);
    assert forall|k: Seq<char>| #[trigger] under(m1, p, k) implies k == key by {
        lemma_consensus_key_prefixes(flavor, meta.sha3_of_whole@, k);
        if k != key {
            assert(under(m0, c, k));
        }
    }
    assert forall|k: Seq<char>| #[trigger] under(m1, c, k) implies k == key by {
        if k != key {
            assert(under(m0, c, k));
        }
    }
    assert(under(m1, p, key));
    assert(under(m1, c, key));
    assert forall|k: Seq<char>| #[trigger] under(m1, p, k) implies !frame_passes(
        record_at(m1, RecordKind::Consensus, k),
        Some(false),
    ) by {}
    // The mark rewrote this consensus: no other has its whole digest.
    let g = made_usable(f);
    assert(m2 == m1.insert(key, m2[key]) && record_in(RecordKind::Consensus, m2[key]) == Some(g)) by {
        if (forall|k: Seq<char>|
            #[trigger] under(m1, c, k) ==> record_at(m1, RecordKind::Consensus, k).1[1] != hex_of(meta.sha3_of_whole@)) {
            assert(record_at(m1, RecordKind::Consensus, key).1[1] == hex_of(meta.sha3_of_whole@));
            assert(false);
        }
        let k2 = choose|k2: Seq<char>|
            #[trigger] under(m1, c, k2) && record_at(m1, RecordKind::Consensus, k2).1[1]
                == hex_of(meta.sha3_of_whole@) && m2 == m1.insert(
                k2,
                fields_json(
                    made_usable(record_at(m1, RecordKind::Consensus, k2)).0,
                    made_usable(record_at(m1, RecordKind::Consensus, k2)).1,
                ),
            ) && record_in(RecordKind::Consensus, m2[k2]) == Some(
                made_usable(record_at(m1, RecordKind::Consensus, k2)),
            );
        assert(k2 == key);
    }
    assert(record_at(m2, RecordKind::Consensus, key) == g);
    assert(g.0[3] == 0);
    assert forall|k: Seq<char>| #[trigger] under(m2, p, k) implies k == key by {
        if k != key {
            assert(under(m1, p, k));
        }
    }
    assert(under(m2, p, key));
}

/// Raising a stored microdescriptor's listed time to `t2` and then to an
/// earlier `t1` leaves it at `t2`, with its text, when it was not already
/// listed after `t2`.
pub proof fn lemma_backend_listed_never_decreases(
    m0: Map<Seq<char>, Seq<char>>,
    m1: Map<Seq<char>, Seq<char>>,
    m2: Map<Seq<char>, Seq<char>>,
    d: [u8; 32],
    t1: u64,
    t2: u64,
)
    requires
        t1 < t2,
        m0.contains_key(microdesc_key_of(d@)),
        record_in(RecordKind::Microdesc, m0[microdesc_key_of(d@)]) is Some,
        record_at(m0, RecordKind::Microdesc, microdesc_key_of(d@)).0[0] <= t2,
        m1 == with_listed(m0, seq![d], t2),
        listed_writes_read_back(m0, seq![d], t2),
        m2 == with_listed(m1, seq![d], t1),
    ensures
        m2 == m1,
        record_in(RecordKind::Microdesc, m2[microdesc_key_of(d@)]) is Some,
        record_at(m2, RecordKind::Microdesc, microdesc_key_of(d@)).0[0] == t2,
        record_at(m2, RecordKind::Microdesc, microdesc_key_of(d@)).1 == record_at(
            m0,
            RecordKind::Microdesc,
            microdesc_key_of(d@),
        ).1,
{
    let k = microdesc_key_of(d@);
    assert(seq![d].drop_last() =~= Seq::<[u8; 32]>::empty());
    assert(seq![d].subrange(0, 0) =~= Seq::<[u8; 32]>::empty());
    assert(seq![d].last() == d);
    assert(with_listed(m0, Seq::<[u8; 32]>::empty(), t2) == m0);
    assert(with_listed(m1, Seq::<[u8; 32]>::empty(), t1) == m1);
    let f = record_at(m0, RecordKind::Microdesc, k);
    assert(crate::dircache::listed_write_ok(m0, d, t2));
    if f.0[0] < t2 {
        assert(reads_back(seq![t2], f.1));
        assert(m1[k] == fields_json(seq![t2], f.1));
        assert(f.1.len() == 1);
        assert(record_in(RecordKind::Microdesc, m1[k]) == Some((seq![t2], f.1)));
    } else {
        assert(m1 == m0);
    }
}

/// A microdescriptor stored through a custom backend is what a lookup of
/// its digest returns.
pub proof fn lemma_backend_microdesc_store_then_lookup(
    m0: Map<Seq<char>, Seq<char>>,
    doc: (String, [u8; 32]),
    when: u64,
    out: Seq<([u8; 32], String)>,
)
    requires
        record_in(RecordKind::Microdesc, fields_json(seq![when], seq![doc.0@])) == Some(
            (seq![when], seq![doc.0@]),
        ),
        found_all(
            with_microdescs(m0, seq![doc], when),
            seq![doc.1],
            out,
            |d: [u8; 32]| microdesc_key_of(d@),
            RecordKind::Microdesc,
            0,
        ),
    ensures
        exists|a: int| 0 <= a < out.len() && out[a].0 == doc.1 && #[trigger] out[a].1@ == doc.0@,
{
    let m1 = with_microdescs(m0, seq![doc], when);
    assert(seq![doc].drop_last() =~= Seq::<(String, [u8; 32])>::empty());
    assert(with_microdescs(m0, Seq::<(String, [u8; 32])>::empty(), when) == m0);
    assert(seq![doc].last() == doc);
    let k = microdesc_key_of(doc.1@);
    assert(m1 == m0.insert(k, fields_json(seq![when], seq![doc.0@])));
    let asked = seq![doc.1];
    assert(m1.contains_key(microdesc_key_of(asked[0]@)));
    assert(listed(out, asked[0]));
    let a = choose|a: int| 0 <= a < out.len() && #[trigger] out[a].0 == asked[0];
    assert(crate::dircache::found_item(m1, asked, |d: [u8; 32]| microdesc_key_of(d@), RecordKind::Microdesc, 0, out[a]));
    let j = choose|j: int|
        0 <= j < asked.len() && #[trigger] asked[j] == out[a].0 && m1.contains_key(microdesc_key_of(asked[j]@))
            && out[a].1@ == record_at(m1, RecordKind::Microdesc, microdesc_key_of(asked[j]@)).1[0];
    assert(j == 0);
}

/// A router descriptor stored through a custom backend is what a lookup of
/// its digest returns.
pub proof fn lemma_backend_routerdesc_store_then_lookup(
    m0: Map<Seq<char>, Seq<char>>,
    doc: (String, u64, [u8; 20]),
    out: Seq<([u8; 20], String)>,
)
    requires
        record_in(RecordKind::Routerdesc, fields_json(seq![doc.1], seq![doc.0@])) == Some(
            (seq![doc.1], seq![doc.0@]),
        ),
        found_all(
            with_routerdescs(m0, seq![doc]),
            seq![doc.2],
            out,
            |d: [u8; 20]| routerdesc_key_of(d@),
            RecordKind::Routerdesc,
            0,
        ),
    ensures
        exists|a: int| 0 <= a < out.len() && out[a].0 == doc.2 && #[trigger] out[a].1@ == doc.0@,
{
    let m1 = with_routerdescs(m0, seq![doc]);
    assert(seq![doc].drop_last() =~= Seq::<(String, u64, [u8; 20])>::empty());
    assert(with_routerdescs(m0, Seq::<(String, u64, [u8; 20])>::empty()) == m0);
    assert(seq![doc].last() == doc);
    let k = routerdesc_key_of(doc.2@);
    assert(m1 == m0.insert(k, fields_json(seq![doc.1], seq![doc.0@])));
    let asked = seq![doc.2];
    assert(m1.contains_key(routerdesc_key_of(asked[0]@)));
    assert(listed(out, asked[0]));
    let a = choose|a: int| 0 <= a < out.len() && #[trigger] out[a].0 == asked[0];
    assert(crate::dircache::found_item(m1, asked, |d: [u8; 20]| routerdesc_key_of(d@), RecordKind::Routerdesc, 0, out[a]));
    let j = choose|j: int|
        0 <= j < asked.len() && #[trigger] asked[j] == out[a].0 && m1.contains_key(routerdesc_key_of(asked[j]@))
            && out[a].1@ == record_at(m1, RecordKind::Routerdesc, routerdesc_key_of(asked[j]@)).1[0];
    assert(j == 0);
}

/// A certificate stored through a custom backend is what a lookup of its
/// fingerprints returns.
pub proof fn lemma_backend_authcert_store_then_lookup(
    m0: Map<Seq<char>, Seq<char>>,
    cert: (AuthCertMeta, String),
    out: Seq<(AuthCertKeyIds, String)>,
)
    requires
        record_in(
            RecordKind::Authcert,
            fields_json(authcert_frame_of(cert.0, cert.1@).0, authcert_frame_of(cert.0, cert.1@).1),
        ) == Some(authcert_frame_of(cert.0, cert.1@)),
        found_all(
            with_authcerts(m0, seq![cert]),
            seq![cert.0.key_ids],
            out,
            |i: AuthCertKeyIds| authcert_key_of(i),
            RecordKind::Authcert,
            2,
        ),
    ensures
        exists|a: int| 0 <= a < out.len() && out[a].0 == cert.0.key_ids && #[trigger] out[a].1@ == cert.1@,
{
    let m1 = with_authcerts(m0, seq![cert]);
    assert(seq![cert].drop_last() =~= Seq::<(AuthCertMeta, String)>::empty());
    assert(with_authcerts(m0, Seq::<(AuthCertMeta, String)>::empty()) == m0);
    assert(seq![cert].last() == cert);
    let f = authcert_frame_of(cert.0, cert.1@);
    let k = authcert_key_of(cert.0.key_ids);
    assert(m1 == m0.insert(k, fields_json(f.0, f.1)));
    let asked = seq![cert.0.key_ids];
    assert(m1.contains_key(authcert_key_of(asked[0])));
    assert(listed(out, asked[0]));
    let a = choose|a: int| 0 <= a < out.len() && #[trigger] out[a].0 == asked[0];
    assert(crate::dircache::found_item(m1, asked, |i: AuthCertKeyIds| authcert_key_of(i), RecordKind::Authcert, 2, out[a]));
    let j = choose|j: int|
        0 <= j < asked.len() && #[trigger] asked[j] == out[a].0 && m1.contains_key(authcert_key_of(asked[j]))
            && out[a].1@ == record_at(m1, RecordKind::Authcert, authcert_key_of(asked[j])).1[2];
    assert(j == 0);
}

} // verus!
