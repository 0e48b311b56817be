//! The directory documents' metadata, with times as whole seconds since the
//! UNIX epoch.
use vstd::prelude::*;

verus! {

/// Which kind of consensus a document is.
#[derive(Clone, Copy, Debug, PartialEq, Eq, Hash, Structural)]
pub enum ConsensusFlavor {
    Microdesc,
    Plain,
}

/// Digest of a microdescriptor.
pub type MdDigest = [u8; 32];

/// Digest of a router descriptor.
pub type RdDigest = [u8; 20];

/// The validity window and digests of a consensus.
#[derive(Clone, Copy, Debug, PartialEq, Eq)]
pub struct ConsensusMeta {
    pub valid_after: u64,
    pub fresh_until: u64,
    pub valid_until: u64,
    /// SHA3-256 of the signed part of the document.
    pub sha3_of_signed: [u8; 32],
    /// SHA3-256 of the whole document.
    pub sha3_of_whole: [u8; 32],
}

/// A consensus lifetime is usable when it opens before it goes stale and
/// goes stale no later than it expires.
pub open spec fn lifetime_ok(valid_after: u64, fresh_until: u64, valid_until: u64) -> bool {
    valid_after < fresh_until && fresh_until <= valid_until
}

impl ConsensusMeta {
    /// Metadata from a lifetime and two digests; `None` when the lifetime is
    /// out of order.
    pub fn new(
        valid_after: u64,
        fresh_until: u64,
        valid_until: u64,
        sha3_of_signed: [u8; 32],
        sha3_of_whole: [u8; 32],
    ) -> (r: Option<ConsensusMeta>)
        ensures
            r is Some <==> lifetime_ok(valid_after, fresh_until, valid_until),
            r matches Some(m) ==> m == (ConsensusMeta {
                valid_after,
                fresh_until,
                valid_until,
                sha3_of_signed,
                sha3_of_whole,
            }),
    {
        if valid_after < fresh_until && fresh_until <= valid_until {
            Some(ConsensusMeta { valid_after, fresh_until, valid_until, sha3_of_signed, sha3_of_whole })
        } else {
            None
        }
    }
}

/// The fingerprints that name an authority certificate.
#[derive(Clone, Copy, Debug, PartialEq, Eq, Hash)]
pub struct AuthCertKeyIds {
    pub id_fingerprint: [u8; 20],
    pub sk_fingerprint: [u8; 20],
}

/// An authority certificate's names and validity.
#[derive(Clone, Copy, Debug, PartialEq, Eq)]
pub struct AuthCertMeta {
    pub key_ids: AuthCertKeyIds,
    pub published: u64,
    pub expires: u64,
}

/// A bridge descriptor as fetched.
#[derive(Clone, Debug, PartialEq, Eq)]
pub struct CachedBridgeDescriptor {
    pub fetched: u64,
    pub document: String,
}

/// A signed span of time, as whole seconds and nanoseconds of one sign.
#[derive(Clone, Copy, Debug, PartialEq, Eq, Structural)]
pub struct SignedDuration {
    pub seconds: i64,
    pub nanoseconds: i32,
}

impl SignedDuration {
    /// A span of whole seconds.
    pub fn seconds(seconds: i64) -> (r: SignedDuration)
        ensures
            r == (SignedDuration { seconds, nanoseconds: 0 }),
    {
        SignedDuration { seconds, nanoseconds: 0 }
    }

    /// A span of seconds and nanoseconds.
    pub fn new(seconds: i64, nanoseconds: i32) -> (r: SignedDuration)
        ensures
            r == (SignedDuration { seconds, nanoseconds }),
    {
        SignedDuration { seconds, nanoseconds }
    }

    /// The empty span.
    pub fn zero() -> (r: SignedDuration)
        ensures
            r == (SignedDuration { seconds: 0, nanoseconds: 0 }),
    {
        SignedDuration { seconds: 0, nanoseconds: 0 }
    }

    /// Whether the span runs backwards.
    pub open spec fn spec_is_negative(&self) -> bool {
        self.seconds < 0 || self.nanoseconds < 0
    }

    pub fn is_negative(&self) -> (r: bool)
        ensures
            r == self.spec_is_negative(),
    {
        self.seconds < 0 || self.nanoseconds < 0
    }
}

/// An unsigned span of time.
#[derive(Clone, Copy, Debug, PartialEq, Eq, Structural)]
pub struct StdDuration {
    pub secs: u64,
    pub nanos: u32,
}

impl StdDuration {
    pub fn from_secs(secs: u64) -> (r: StdDuration)
        ensures
            r == (StdDuration { secs, nanos: 0 }),
    {
        StdDuration { secs, nanos: 0 }
    }

    pub fn from_millis(millis: u64) -> (r: StdDuration)
        ensures
            r.secs == millis / 1000,
            r.nanos == (millis % 1000) * 1_000_000,
    {
        StdDuration { secs: millis / 1000, nanos: ((millis % 1000) * 1_000_000) as u32 }
    }

    pub fn as_secs(&self) -> (r: u64)
        ensures
            r == self.secs,
    {
        self.secs
    }

    pub fn subsec_nanos(&self) -> (r: u32)
        ensures
            r == self.nanos,
    {
        self.nanos
    }

    /// The span in nanoseconds.
    pub open spec fn total_nanos(&self) -> int {
        self.secs as int * 1_000_000_000 + self.nanos as int
    }
}

/// Converts a signed span to an unsigned one; a negative span becomes zero.
pub fn time_duration_to_std(d: SignedDuration) -> (r: StdDuration)
    ensures
        d.spec_is_negative() ==> r == (StdDuration { secs: 0, nanos: 0 }),
        !d.spec_is_negative() ==> r == (StdDuration {
            secs: d.seconds as u64,
            nanos: d.nanoseconds as u32,
        }),
{
    if d.is_negative() {
        return StdDuration { secs: 0, nanos: 0 };
    }
    StdDuration { secs: d.seconds as u64, nanos: d.nanoseconds as u32 }
}

/// How long past its natural time each kind of document is kept.
#[derive(Clone, Copy, Debug)]
pub struct ExpirationConfig {
    pub consensuses: SignedDuration,
    pub authcerts: SignedDuration,
    pub microdescs: SignedDuration,
    pub router_descs: SignedDuration,
}

/// A document whose natural time is `at` (seconds) has expired at `now`
/// (seconds) once `at` plus the tolerance has passed.
pub open spec fn expired_at(now: u64, at: u64, tolerance: StdDuration) -> bool {
    now as int * 1_000_000_000 >= at as int * 1_000_000_000 + tolerance.total_nanos()
}

/// Whether a document with natural time `at` has expired at `now`.
pub fn is_expired(now: u64, at: u64, tolerance: StdDuration) -> (r: bool)
    ensures
        r == expired_at(now, at, tolerance),
{
    let n: u128 = now as u128 * 1_000_000_000;
    proof {
        assert(at as int + tolerance.secs as int <= 0x1_ffff_ffff_ffff_fffe) by (nonlinear_arith)
            requires
                at <= 0xffff_ffff_ffff_ffff,
                tolerance.secs <= 0xffff_ffff_ffff_ffff,
        ;
        assert((at as int + tolerance.secs as int) * 1_000_000_000 + 0xffff_ffff
            <= 0xffff_ffff_ffff_ffff_ffff_ffff_ffff_ffff) by (nonlinear_arith)
            requires
                at as int + tolerance.secs as int <= 0x1_ffff_ffff_ffff_fffe,
        ;
    }
    let lim: u128 = (at as u128 + tolerance.secs as u128) * 1_000_000_000 + tolerance.nanos as u128;
    n >= lim
}

} // verus!
