//! The typed directory cache over a flat text store: record layouts, key
//! naming, and the custom-backend capability it is built on.
//!
//! Each record is stored as the JSON of a pair: an array of its numbers and
//! an array of its texts, in a fixed order per kind of record (for a
//! consensus, `[[valid_after, fresh_until, valid_until, pending], [sha3 of
//! the signed part, sha3 of the whole, document]]`, with pending as 0 or 1).
//! This positional layout is not the field-named layout of other caches of
//! these documents; a cache written in that layout reads back here as
//! corruption.
use vstd::prelude::*;

use crate::docmeta::{lifetime_ok, AuthCertKeyIds, ConsensusFlavor, ConsensusMeta};
use crate::hexcode::{bytes_of_hex, decode_hex, encode_hex, hex_of, is_hex_text};
use crate::kv::StorageError;
use crate::textmap::lists_prefixed_keys;

verus! {

/// How a cached value failed to read back.
#[derive(Clone, Copy, Debug, PartialEq, Eq, Structural)]
pub enum Corruption {
    /// The stored text is not the JSON of a record.
    InvalidJson,
    /// The JSON holds the wrong number or kind of fields for its record.
    MalformedRecord,
    /// A stored digest is not hexadecimal.
    InvalidHex,
    /// A stored digest has the wrong length.
    WrongDigestLength,
    /// A stored consensus lifetime is out of order.
    InvalidLifetime,
}

/// A failure of the directory cache.
#[derive(Clone, Debug)]
pub enum DirError {
    /// A write was attempted without write access; retry after taking it.
    ReadOnly,
    /// The storage medium failed; its message is kept as it was.
    Backend(String),
    /// What the cache holds does not read back.
    CacheCorruption(Corruption),
}

impl DirError {
    pub fn from_storage(e: StorageError) -> (r: DirError)
        ensures
            r == DirError::Backend(e.message),
    {
        DirError::Backend(e.message)
    }

    pub open spec fn spec_is_corruption(&self) -> bool {
        self is CacheCorruption
    }
}

/// A custom directory storage backend: JSON text under `dir:` keys.
pub trait CustomDirStore {
    /// What the backend holds.
    spec fn documents(&self) -> Map<Seq<char>, Seq<char>>;

    /// Whether the backend may be written.
    spec fn writable(&self) -> bool;

    /// The text under `key`; `Ok(None)` when there is none.
    fn load(&self, key: &str) -> (r: Result<Option<String>, DirError>)
        ensures
            r matches Ok(v) ==> (v is Some <==> self.documents().contains_key(key@)),
            r matches Ok(Some(s)) ==> s@ == self.documents()[key@],
            r matches Err(e) ==> !e.spec_is_corruption(),
    ;

    /// Stores `value` under `key`; refused with `ReadOnly` without write access.
    fn store(&mut self, key: &str, value: &str) -> (r: Result<(), DirError>)
        ensures
            final(self).writable() == old(self).writable(),
            !old(self).writable() ==> r matches Err(DirError::ReadOnly),
            r matches Err(DirError::ReadOnly) ==> final(self).documents() == old(self).documents(),
            r matches Err(e) ==> !e.spec_is_corruption(),
            r is Ok ==> final(self).documents() == old(self).documents().insert(key@, value@),
    ;

    /// Deletes `key`; refused with `ReadOnly` without write access.
    fn delete(&mut self, key: &str) -> (r: Result<(), DirError>)
        ensures
            final(self).writable() == old(self).writable(),
            !old(self).writable() ==> r matches Err(DirError::ReadOnly),
            r matches Err(DirError::ReadOnly) ==> final(self).documents() == old(self).documents(),
            r matches Err(e) ==> !e.spec_is_corruption(),
            r is Ok ==> final(self).documents() == old(self).documents().remove(key@),
    ;

    /// Every key that starts with `prefix`, each once.
    fn keys(&self, prefix: &str) -> (r: Result<Vec<String>, DirError>)
        ensures
            r matches Ok(ks) ==> lists_prefixed_keys(ks@, self.documents(), prefix@),
            r matches Err(e) ==> !e.spec_is_corruption(),
    ;

    /// Whether the backend refuses writes.  `false` is only answered when it
    /// may be written.
    fn is_readonly(&self) -> (r: bool)
        ensures
            !r ==> self.writable(),
    ;

    /// Tries to gain write access: `Ok(true)` when it is now held.
    fn upgrade_to_readwrite(&mut self) -> (r: Result<bool, DirError>)
        ensures
            final(self).documents() == old(self).documents(),
            r matches Ok(true) ==> final(self).writable(),
            r matches Err(e) ==> !e.spec_is_corruption(),
    ;
}

/// The JSON text of a record given as its numbers and its texts, in order.
pub uninterp spec fn fields_json(numbers: Seq<u64>, texts: Seq<Seq<char>>) -> Seq<char>;

/// The numbers and texts that a JSON text holds, when it is a pair of a
/// number array and a string array.
pub uninterp spec fn fields_of_json(s: Seq<char>) -> Option<(Seq<u64>, Seq<Seq<char>>)>;

/// The texts of a vector of strings.
pub open spec fn texts_of(v: Seq<String>) -> Seq<Seq<char>> {
    v.map_values(|t: String| t@)
}

/// Relies on `serde_json::to_string` on a pair of a number vector and a
/// string vector: the text depends on the values alone, and it cannot fail,
/// as it fails only on a failing `Serialize` impl or a map with non-string
/// keys, and a pair of such vectors has neither.  What it writes,
/// `serde_json::from_str` reads back as the same pair: numbers are written
/// in full as integers and strings with JSON escapes.
#[verifier::external_body]
fn fields_to_json(numbers: &Vec<u64>, texts: &Vec<String>) -> (r: Option<String>)
    ensures
        r is Some,
        r matches Some(s) ==> s@ == fields_json(numbers@, texts_of(texts@)),
        r matches Some(s) ==> fields_of_json(s@) == Some((numbers@, texts_of(texts@))),
{
    serde_json::to_string(&(numbers, texts)).ok()
}

/// Relies on `serde_json::from_str` into a pair of a number vector and a
/// string vector: it succeeds exactly on the texts that hold one.
#[verifier::external_body]
fn fields_from_json(s: &str) -> (r: Option<(Vec<u64>, Vec<String>)>)
    ensures
        r is Some <==> fields_of_json(s@) is Some,
        r matches Some(p) ==> fields_of_json(s@) == Some((p.0@, texts_of(p.1@))),
{
    serde_json::from_str::<(Vec<u64>, Vec<String>)>(s).ok()
}

/// The JSON text written for a record's fields reads back as those fields.
pub open spec fn reads_back(numbers: Seq<u64>, texts: Seq<Seq<char>>) -> bool {
    fields_of_json(fields_json(numbers, texts)) == Some((numbers, texts))
}

/// The frame of a record: its numbers and its texts.
pub type Frame = (Seq<u64>, Seq<Seq<char>>);

/// A stored consensus: its lifetime, digests as hexadecimal, the pending
/// flag and the document text.
#[derive(Clone, Debug)]
pub struct StoredConsensus {
    pub valid_after_secs: u64,
    pub fresh_until_secs: u64,
    pub valid_until_secs: u64,
    pub sha3_of_signed_hex: String,
    pub sha3_of_whole_hex: String,
    pub pending: bool,
    pub content: String,
}

/// A consensus record is four numbers (the lifetime, then the pending flag
/// as 0 or 1) and three texts (the two digests, then the document).
pub open spec fn consensus_frame_ok(f: Frame) -> bool {
    f.0.len() == 4 && f.1.len() == 3 && f.0[3] <= 1
}

pub open spec fn frame_of_consensus(c: StoredConsensus) -> Frame {
    (
        seq![c.valid_after_secs, c.fresh_until_secs, c.valid_until_secs, if c.pending { 1u64 } else { 0u64 }],
        seq![c.sha3_of_signed_hex@, c.sha3_of_whole_hex@, c.content@],
    )
}

/// The consensus frame that a stored text holds, if it holds one.
pub open spec fn consensus_in(s: Seq<char>) -> Option<Frame> {
    match fields_of_json(s) {
        Some(f) => if consensus_frame_ok(f) { Some(f) } else { None },
        None => None,
    }
}

/// An authority certificate record: two numbers (published, expires) and
/// three texts (identity and signing-key fingerprints, then the document).
pub open spec fn authcert_frame_ok(f: Frame) -> bool {
    f.0.len() == 2 && f.1.len() == 3
}


/// A record of one time and one text: a microdescriptor (last listed) or a
/// router descriptor (published).
pub open spec fn timed_frame_ok(f: Frame) -> bool {
    f.0.len() == 1 && f.1.len() == 1
}

pub open spec fn timed_in(s: Seq<char>) -> Option<Frame> {
    match fields_of_json(s) {
        Some(f) => if timed_frame_ok(f) { Some(f) } else { None },
        None => None,
    }
}

/// A bridge descriptor record: two numbers (fetched, until) and the document.
pub open spec fn bridge_frame_ok(f: Frame) -> bool {
    f.0.len() == 2 && f.1.len() == 1
}


fn corrupt(c: Corruption) -> (r: DirError)
    ensures
        r == DirError::CacheCorruption(c),
{
    DirError::CacheCorruption(c)
}

/// Turns a record's fields into JSON text.
pub fn frame_to_json(numbers: &Vec<u64>, texts: &Vec<String>) -> (r: Result<String, DirError>)
    ensures
        r matches Ok(s) && s@ == fields_json(numbers@, texts_of(texts@)),
        reads_back(numbers@, texts_of(texts@)),
{
    match fields_to_json(numbers, texts) {
        Some(s) => Ok(s),
        None => {
            assert(false);
            Err(corrupt(Corruption::MalformedRecord))
        },
    }
}

/// Reads a record's fields from JSON text, checking their counts.
pub fn frame_from_json(s: &str, n_numbers: usize, n_texts: usize) -> (r: Result<
    (Vec<u64>, Vec<String>),
    DirError,
>)
    ensures
        r is Ok <==> (fields_of_json(s@) matches Some(f) && f.0.len() == n_numbers && f.1.len()
            == n_texts),
        r matches Ok(p) ==> fields_of_json(s@) == Some((p.0@, texts_of(p.1@))),
        r matches Err(e) ==> e is CacheCorruption,
{
    match fields_from_json(s) {
        None => Err(corrupt(Corruption::InvalidJson)),
        Some(p) => {
            if p.0.len() != n_numbers || p.1.len() != n_texts {
                return Err(corrupt(Corruption::MalformedRecord));
            }
            Ok(p)
        },
    }
}

impl StoredConsensus {
    pub fn to_json(&self) -> (r: Result<String, DirError>)
        ensures
            r matches Ok(s) && s@ == fields_json(
                frame_of_consensus(*self).0,
                frame_of_consensus(*self).1,
            ),
            reads_back(frame_of_consensus(*self).0, frame_of_consensus(*self).1),
    {
        let mut numbers: Vec<u64> = Vec::new();
        numbers.push(self.valid_after_secs);
        numbers.push(self.fresh_until_secs);
        numbers.push(self.valid_until_secs);
        numbers.push(if self.pending { 1 } else { 0 });
        let mut texts: Vec<String> = Vec::new();
        texts.push(self.sha3_of_signed_hex.clone());
        texts.push(self.sha3_of_whole_hex.clone());
        texts.push(self.content.clone());
        assert(numbers@ =~= frame_of_consensus(*self).0);
        assert(texts_of(texts@) =~= frame_of_consensus(*self).1);
        frame_to_json(&numbers, &texts)
    }

    pub fn from_json(s: &str) -> (r: Result<StoredConsensus, DirError>)
        ensures
            r is Ok <==> consensus_in(s@) is Some,
            r matches Ok(c) ==> consensus_in(s@) == Some(frame_of_consensus(c)),
            r matches Err(e) ==> e is CacheCorruption,
    {
        let (numbers, texts) = frame_from_json(s, 4, 3)?;
        if numbers[3] > 1 {
            return Err(corrupt(Corruption::MalformedRecord));
        }
        let c = StoredConsensus {
            valid_after_secs: numbers[0],
            fresh_until_secs: numbers[1],
            valid_until_secs: numbers[2],
            sha3_of_signed_hex: texts[0].clone(),
            sha3_of_whole_hex: texts[1].clone(),
            pending: numbers[3] == 1,
            content: texts[2].clone(),
        };
        assert(frame_of_consensus(c).0 =~= numbers@);
        assert(frame_of_consensus(c).1 =~= texts_of(texts@));
        Ok(c)
    }
}

/// The kinds of cached document, each under its own key prefix.
#[derive(Clone, Copy, Debug, PartialEq, Eq, Structural)]
pub enum RecordKind {
    Consensus,
    Authcert,
    Microdesc,
    Routerdesc,
    Bridge,
}

/// The key prefix of a kind of document.
pub open spec fn kind_prefix(kind: RecordKind) -> Seq<char> {
    match kind {
        RecordKind::Consensus => "dir:consensus:"@,
        RecordKind::Authcert => "dir:authcert:"@,
        RecordKind::Microdesc => "dir:microdesc:"@,
        RecordKind::Routerdesc => "dir:routerdesc:"@,
        RecordKind::Bridge => "dir:bridge:"@,
    }
}

pub fn kind_prefix_str(kind: RecordKind) -> (r: &'static str)
    ensures
        r@ == kind_prefix(kind),
{
    match kind {
        RecordKind::Consensus => "dir:consensus:",
        RecordKind::Authcert => "dir:authcert:",
        RecordKind::Microdesc => "dir:microdesc:",
        RecordKind::Routerdesc => "dir:routerdesc:",
        RecordKind::Bridge => "dir:bridge:",
    }
}

/// No key lies under the prefixes of two different kinds.
pub proof fn lemma_kind_prefixes_disjoint(a: RecordKind, b: RecordKind, k: Seq<char>)
    requires
        a != b,
        kind_prefix(a).is_prefix_of(k),
    ensures
        !kind_prefix(b).is_prefix_of(k),
{
    reveal_strlit("dir:consensus:");
    reveal_strlit("dir:authcert:");
    reveal_strlit("dir:microdesc:");
    reveal_strlit("dir:routerdesc:");
    reveal_strlit("dir:bridge:");
    assert(kind_prefix(a)[4] == k[4]);
    if kind_prefix(b).is_prefix_of(k) {
        assert(kind_prefix(b)[4] == k[4]);
    }
}

/// Whether a frame has the shape of a record of `kind`.
pub open spec fn kind_frame_ok(kind: RecordKind, f: Frame) -> bool {
    match kind {
        RecordKind::Consensus => consensus_frame_ok(f),
        RecordKind::Authcert => authcert_frame_ok(f),
        RecordKind::Microdesc => timed_frame_ok(f),
        RecordKind::Routerdesc => timed_frame_ok(f),
        RecordKind::Bridge => bridge_frame_ok(f),
    }
}

/// The record of `kind` that a stored text holds, if it holds one.
pub open spec fn record_in(kind: RecordKind, s: Seq<char>) -> Option<Frame> {
    match fields_of_json(s) {
        Some(f) => if kind_frame_ok(kind, f) { Some(f) } else { None },
        None => None,
    }
}

/// The time that a record's expiry counts from: a consensus's valid-until,
/// a certificate's expiry, a microdescriptor's last listing, a router
/// descriptor's publication, a bridge descriptor's own expiry.
pub open spec fn record_time(kind: RecordKind, f: Frame) -> u64 {
    match kind {
        RecordKind::Consensus => f.0[2],
        RecordKind::Authcert => f.0[1],
        RecordKind::Microdesc => f.0[0],
        RecordKind::Routerdesc => f.0[0],
        RecordKind::Bridge => f.0[1],
    }
}

/// How many numbers a record of `kind` holds.
pub open spec fn kind_numbers(kind: RecordKind) -> int {
    match kind {
        RecordKind::Consensus => 4,
        RecordKind::Authcert => 2,
        RecordKind::Microdesc => 1,
        RecordKind::Routerdesc => 1,
        RecordKind::Bridge => 2,
    }
}

/// Reads a stored text as a record of `kind`.
pub fn decode_record(kind: RecordKind, s: &str) -> (r: Result<(Vec<u64>, Vec<String>), DirError>)
    ensures
        r is Ok <==> record_in(kind, s@) is Some,
        r matches Ok(p) ==> record_in(kind, s@) == Some((p.0@, texts_of(p.1@))),
        r matches Err(e) ==> e is CacheCorruption,
{
    let (nn, nt): (usize, usize) = match kind {
        RecordKind::Consensus => (4, 3),
        RecordKind::Authcert => (2, 3),
        RecordKind::Microdesc => (1, 1),
        RecordKind::Routerdesc => (1, 1),
        RecordKind::Bridge => (2, 1),
    };
    let p = frame_from_json(s, nn, nt)?;
    match kind {
        RecordKind::Consensus => {
            if p.0[3] > 1 {
                return Err(corrupt(Corruption::MalformedRecord));
            }
        },
        _ => {},
    }
    Ok(p)
}

/// The time a record's expiry counts from.
pub fn record_time_of(kind: RecordKind, numbers: &Vec<u64>) -> (r: u64)
    requires
        numbers@.len() == kind_numbers(kind),
    ensures
        forall|t: Seq<Seq<char>>| r == #[trigger] record_time(kind, (numbers@, t)),
{
    match kind {
        RecordKind::Consensus => numbers[2],
        RecordKind::Authcert => numbers[1],
        RecordKind::Microdesc => numbers[0],
        RecordKind::Routerdesc => numbers[0],
        RecordKind::Bridge => numbers[1],
    }
}

/// The name of a consensus flavor in keys.
pub open spec fn flavor_name(f: ConsensusFlavor) -> Seq<char> {
    match f {
        ConsensusFlavor::Microdesc => "microdesc"@,
        ConsensusFlavor::Plain => "plain"@,
    }
}

pub fn flavor_to_str(f: ConsensusFlavor) -> (r: &'static str)
    ensures
        r@ == flavor_name(f),
{
    match f {
        ConsensusFlavor::Microdesc => "microdesc",
        ConsensusFlavor::Plain => "plain",
    }
}

/// The flavor that a name in keys stands for.
pub fn str_to_flavor(s: &str) -> (r: Option<ConsensusFlavor>)
    ensures
        r == Some(ConsensusFlavor::Microdesc) <==> s@ == flavor_name(ConsensusFlavor::Microdesc),
        r == Some(ConsensusFlavor::Plain) <==> s@ == flavor_name(ConsensusFlavor::Plain),
{
    proof {
        reveal_strlit("microdesc");
        reveal_strlit("plain");
        assert("microdesc"@.len() != "plain"@.len());
    }
    let name = String::from_str(s);
    if name == String::from_str("microdesc") {
        Some(ConsensusFlavor::Microdesc)
    } else if name == String::from_str("plain") {
        Some(ConsensusFlavor::Plain)
    } else {
        None
    }
}

/// Reading back a flavor's name gives the flavor.
pub proof fn lemma_flavor_name_round_trip(f: ConsensusFlavor)
    ensures
        f == ConsensusFlavor::Microdesc <==> flavor_name(f) == flavor_name(ConsensusFlavor::Microdesc),
        f == ConsensusFlavor::Plain <==> flavor_name(f) == flavor_name(ConsensusFlavor::Plain),
{
    reveal_strlit("microdesc");
    reveal_strlit("plain");
    assert(flavor_name(ConsensusFlavor::Microdesc).len() != flavor_name(ConsensusFlavor::Plain).len());
}

/// The prefix of the keys of consensuses of one flavor.
pub open spec fn flavor_prefix(f: ConsensusFlavor) -> Seq<char> {
    kind_prefix(RecordKind::Consensus) + flavor_name(f) + ":"@
}

/// `dir:consensus:{flavor}:{sha3-of-whole hex}`
pub open spec fn consensus_key_of(f: ConsensusFlavor, whole: Seq<u8>) -> Seq<char> {
    flavor_prefix(f) + hex_of(whole)
}

pub fn flavor_prefix_string(f: ConsensusFlavor) -> (r: String)
    ensures
        r@ == flavor_prefix(f),
{
    let mut s = String::from_str(kind_prefix_str(RecordKind::Consensus));
    s.append(flavor_to_str(f));
    s.append(":");
    s
}

pub fn consensus_key(f: ConsensusFlavor, sha3_of_whole: &[u8; 32]) -> (r: String)
    ensures
        r@ == consensus_key_of(f, sha3_of_whole@),
{
    let mut s = flavor_prefix_string(f);
    let h = encode_hex(sha3_of_whole);
    s.append(h.as_str());
    s
}

/// Reads a 32-byte digest stored as hexadecimal.
pub fn hex_to_32_bytes(s: &str) -> (r: Result<[u8; 32], DirError>)
    ensures
        r is Ok <==> is_hex_text(s@) && s@.len() == 64,
        r matches Ok(d) ==> d@ == bytes_of_hex(s@),
        r matches Err(e) ==> e is CacheCorruption,
{
    match decode_hex(s) {
        None => Err(corrupt(Corruption::InvalidHex)),
        Some(v) => {
            if v.len() != 32 {
                return Err(corrupt(Corruption::WrongDigestLength));
            }
            let mut arr = [0u8; 32];
            let mut i: usize = 0;
            while i < 32
                invariant
                    v@.len() == 32,
                    0 <= i <= 32,
                    forall|j: int| 0 <= j < i ==> arr@[j] == v@[j],
                decreases 32 - i,
            {
                arr[i] = v[i];
                i = i + 1;
            }
            assert(arr@ =~= v@);
            Ok(arr)
        },
    }
}

/// A consensus record reads back as metadata when its lifetime is in order
/// and both digests are 64 hexadecimal digits.
pub open spec fn meta_readable(f: Frame) -> bool {
    &&& lifetime_ok(f.0[0], f.0[1], f.0[2])
    &&& is_hex_text(f.1[0]) && f.1[0].len() == 64
    &&& is_hex_text(f.1[1]) && f.1[1].len() == 64
}

/// `m` is the metadata that a consensus record holds.
pub open spec fn meta_of_frame(m: ConsensusMeta, f: Frame) -> bool {
    &&& m.valid_after == f.0[0] && m.fresh_until == f.0[1] && m.valid_until == f.0[2]
    &&& m.sha3_of_signed@ == bytes_of_hex(f.1[0])
    &&& m.sha3_of_whole@ == bytes_of_hex(f.1[1])
}

/// The record that stores a consensus's metadata, pending flag and text.
pub open spec fn consensus_frame_of(meta: ConsensusMeta, pending: bool, content: Seq<char>) -> Frame {
    (
        seq![meta.valid_after, meta.fresh_until, meta.valid_until, if pending { 1u64 } else { 0u64 }],
        seq![hex_of(meta.sha3_of_signed@), hex_of(meta.sha3_of_whole@), content],
    )
}

impl StoredConsensus {
    pub fn from_meta_and_content(meta: &ConsensusMeta, pending: bool, content: &str) -> (r: StoredConsensus)
        ensures
            frame_of_consensus(r) == consensus_frame_of(*meta, pending, content@),
    {
        let r = StoredConsensus {
            valid_after_secs: meta.valid_after,
            fresh_until_secs: meta.fresh_until,
            valid_until_secs: meta.valid_until,
            sha3_of_signed_hex: encode_hex(&meta.sha3_of_signed),
            sha3_of_whole_hex: encode_hex(&meta.sha3_of_whole),
            pending,
            content: String::from_str(content),
        };
        assert(frame_of_consensus(r).0 =~= consensus_frame_of(*meta, pending, content@).0);
        assert(frame_of_consensus(r).1 =~= consensus_frame_of(*meta, pending, content@).1);
        r
    }

    pub fn to_meta(&self) -> (r: Result<ConsensusMeta, DirError>)
        ensures
            r is Ok <==> meta_readable(frame_of_consensus(*self)),
            r matches Ok(m) ==> meta_of_frame(m, frame_of_consensus(*self)),
            r matches Err(e) ==> e is CacheCorruption,
    {
        if !(self.valid_after_secs < self.fresh_until_secs && self.fresh_until_secs
            <= self.valid_until_secs) {
            return Err(corrupt(Corruption::InvalidLifetime));
        }
        let signed = hex_to_32_bytes(self.sha3_of_signed_hex.as_str())?;
        let whole = hex_to_32_bytes(self.sha3_of_whole_hex.as_str())?;
        Ok(
            ConsensusMeta {
                valid_after: self.valid_after_secs,
                fresh_until: self.fresh_until_secs,
                valid_until: self.valid_until_secs,
                sha3_of_signed: signed,
                sha3_of_whole: whole,
            },
        )
    }
}

/// `dir:authcert:{id hex}:{signing-key hex}`
pub open spec fn authcert_key_of(ids: AuthCertKeyIds) -> Seq<char> {
    kind_prefix(RecordKind::Authcert) + hex_of(ids.id_fingerprint@) + ":"@ + hex_of(
        ids.sk_fingerprint@,
    )
}

pub fn authcert_key(ids: &AuthCertKeyIds) -> (r: String)
    ensures
        r@ == authcert_key_of(*ids),
{
    let mut s = String::from_str(kind_prefix_str(RecordKind::Authcert));
    let a = encode_hex(&ids.id_fingerprint);
    s.append(a.as_str());
    s.append(":");
    let b = encode_hex(&ids.sk_fingerprint);
    s.append(b.as_str());
    s
}

/// `dir:microdesc:{digest hex}`
pub open spec fn microdesc_key_of(d: Seq<u8>) -> Seq<char> {
    kind_prefix(RecordKind::Microdesc) + hex_of(d)
}

pub fn microdesc_key(d: &[u8; 32]) -> (r: String)
    ensures
        r@ == microdesc_key_of(d@),
{
    let mut s = String::from_str(kind_prefix_str(RecordKind::Microdesc));
    let h = encode_hex(d);
    s.append(h.as_str());
    s
}

/// `dir:routerdesc:{digest hex}`
pub open spec fn routerdesc_key_of(d: Seq<u8>) -> Seq<char> {
    kind_prefix(RecordKind::Routerdesc) + hex_of(d)
}

pub fn routerdesc_key(d: &[u8; 20]) -> (r: String)
    ensures
        r@ == routerdesc_key_of(d@),
{
    let mut s = String::from_str(kind_prefix_str(RecordKind::Routerdesc));
    let h = encode_hex(d);
    s.append(h.as_str());
    s
}

/// The SHA-256 digest of a text's UTF-8 bytes.
pub uninterp spec fn sha256_of(s: Seq<char>) -> Seq<u8>;

/// Relies on `sha2::Sha256::digest` over the UTF-8 bytes of the text: a
/// 32-byte digest that depends on the text alone.
#[verifier::external_body]
fn sha256_text(s: &str) -> (r: Vec<u8>)
    ensures
        r@ == sha256_of(s@),
        r@.len() == 32,
{
    <sha2::Sha256 as sha2::Digest>::digest(s.as_bytes()).to_vec()
}

/// `dir:bridge:{hex of the first 16 bytes of SHA-256 of the bridge line}`
pub open spec fn bridge_key_of(bridge: Seq<char>) -> Seq<char> {
    kind_prefix(RecordKind::Bridge) + hex_of(sha256_of(bridge).subrange(0, 16))
}

/// The key of a bridge's descriptor, from the bridge's configuration line.
pub fn bridge_key(bridge: &str) -> (r: String)
    ensures
        r@ == bridge_key_of(bridge@),
{
    let h = sha256_text(bridge);
    let mut head: Vec<u8> = Vec::new();
    let mut i: usize = 0;
    while i < 16
        invariant
            h@.len() == 32,
            0 <= i <= 16,
            head@ == h@.subrange(0, i as int),
        decreases 16 - i,
    {
        head.push(h[i]);
        i = i + 1;
        assert(head@ =~= h@.subrange(0, i as int));
    }
    let mut s = String::from_str(kind_prefix_str(RecordKind::Bridge));
    let x = encode_hex(head.as_slice());
    s.append(x.as_str());
    s
}

/// The single slot of protocol recommendations.
pub open spec fn protocols_key_of() -> Seq<char> {
    "dir:protocols"@
}

pub fn protocols_key() -> (r: &'static str)
    ensures
        r@ == protocols_key_of(),
{
    "dir:protocols"
}

} // verus!
