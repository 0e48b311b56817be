use tor_storage::dirstore::DirError;
use tor_storage::docmeta::{
    AuthCertKeyIds, AuthCertMeta, CachedBridgeDescriptor, ConsensusFlavor, ConsensusMeta,
    ExpirationConfig, MdDigest, SignedDuration,
};
use tor_storage::inmemory::InMemoryStore;

fn make_test_cmeta(valid_after_secs: u64) -> ConsensusMeta {
    let fresh_until = valid_after_secs + 3600;
    let valid_until = fresh_until + 3600;
    ConsensusMeta::new(valid_after_secs, fresh_until, valid_until, [0u8; 32], [1u8; 32]).unwrap()
}

fn cmeta(valid_after: u64, whole: u8) -> ConsensusMeta {
    ConsensusMeta::new(valid_after, valid_after + 10, valid_after + 20, [whole; 32], [whole; 32]).unwrap()
}

fn config(tolerance: i64) -> ExpirationConfig {
    ExpirationConfig {
        consensuses: SignedDuration::seconds(tolerance),
        authcerts: SignedDuration::seconds(tolerance),
        microdescs: SignedDuration::seconds(tolerance),
        router_descs: SignedDuration::seconds(tolerance),
    }
}

#[test]
fn test_store_and_retrieve_consensus() {
    let mut store = InMemoryStore::new(false);
    let cmeta = make_test_cmeta(1000);
    let content = "test consensus content";

    store
        .store_consensus(&cmeta, ConsensusFlavor::Microdesc, true, content)
        .unwrap();

    let found = store
        .latest_consensus(ConsensusFlavor::Microdesc, Some(true))
        .unwrap();
    assert!(found.is_some());

    let not_found = store
        .latest_consensus(ConsensusFlavor::Microdesc, Some(false))
        .unwrap();
    assert!(not_found.is_none());

    store.mark_consensus_usable(&cmeta).unwrap();

    let found = store
        .latest_consensus(ConsensusFlavor::Microdesc, Some(false))
        .unwrap();
    assert!(found.is_some());
}

#[test]
fn test_microdescs() {
    let mut store = InMemoryStore::new(false);
    let digest: MdDigest = [42u8; 32];
    let content = "test microdesc";
    let when = 1_700_000_000u64;

    store.store_microdescs(&vec![(content.to_string(), digest)], when).unwrap();

    let found = store.microdescs(&vec![digest]).unwrap();
    assert_eq!(found, vec![(digest, content.to_string())]);
}

#[test]
fn pending_consensus_scenario_in_memory() {
    let mut store = InMemoryStore::new(false);
    let meta_a = make_test_cmeta(1000);
    store.store_consensus(&meta_a, ConsensusFlavor::Microdesc, true, "A").unwrap();
    assert_eq!(
        store.latest_consensus(ConsensusFlavor::Microdesc, Some(true)).unwrap(),
        Some("A".to_string())
    );
    assert_eq!(store.latest_consensus(ConsensusFlavor::Microdesc, Some(false)).unwrap(), None);
    assert_eq!(store.latest_consensus_meta(ConsensusFlavor::Microdesc).unwrap(), None);
    store.mark_consensus_usable(&meta_a).unwrap();
    assert_eq!(store.latest_consensus_meta(ConsensusFlavor::Microdesc).unwrap(), Some(meta_a));
}

#[test]
fn latest_is_greatest_valid_after_in_memory() {
    let mut store = InMemoryStore::new(false);
    store.store_consensus(&cmeta(100, 1), ConsensusFlavor::Plain, false, "one").unwrap();
    store.store_consensus(&cmeta(300, 3), ConsensusFlavor::Plain, false, "three").unwrap();
    store.store_consensus(&cmeta(200, 2), ConsensusFlavor::Plain, false, "two").unwrap();
    assert_eq!(store.latest_consensus_meta(ConsensusFlavor::Plain).unwrap(), Some(cmeta(300, 3)));
    assert_eq!(store.latest_consensus_meta(ConsensusFlavor::Microdesc).unwrap(), None);
}

#[test]
fn consensus_lookup_and_delete_in_memory() {
    let mut store = InMemoryStore::new(false);
    let m = cmeta(100, 7);
    store.store_consensus(&m, ConsensusFlavor::Plain, false, "p").unwrap();
    store.store_consensus(&m, ConsensusFlavor::Microdesc, false, "md").unwrap();
    let found = store.consensus_by_sha3_digest_of_signed_part(&[7u8; 32]).unwrap();
    assert_eq!(found.map(|(_, meta)| meta), Some(m));
    assert_eq!(store.consensus_by_sha3_digest_of_signed_part(&[8u8; 32]).unwrap(), None);
    store.delete_consensus(&m).unwrap();
    assert_eq!(store.latest_consensus(ConsensusFlavor::Plain, None).unwrap(), None);
    assert_eq!(store.latest_consensus(ConsensusFlavor::Microdesc, None).unwrap(), None);
}

#[test]
fn listed_time_only_rises_in_memory() {
    let mut store = InMemoryStore::new(false);
    let d = [5u8; 32];
    store.store_microdescs(&vec![("md".to_string(), d)], 10).unwrap();
    store.update_microdescs_listed(&vec![d], 30).unwrap();
    store.update_microdescs_listed(&vec![d], 20).unwrap();
    store.expire_all_at(&config(0), 29).unwrap();
    assert_eq!(store.microdescs(&vec![d]).unwrap().len(), 1);
    store.expire_all_at(&config(0), 30).unwrap();
    assert!(store.microdescs(&vec![d]).unwrap().is_empty());
}

#[test]
fn expiry_of_consensus_in_memory() {
    let mut store = InMemoryStore::new(false);
    let m = cmeta(1000, 1);
    store.store_consensus(&m, ConsensusFlavor::Plain, false, "c").unwrap();
    let until = m.valid_until + 100;
    store.expire_all_at(&config(100), until - 1).unwrap();
    assert!(store.latest_consensus(ConsensusFlavor::Plain, None).unwrap().is_some());
    store.expire_all_at(&config(100), until).unwrap();
    assert!(store.latest_consensus(ConsensusFlavor::Plain, None).unwrap().is_none());
}

#[test]
fn negative_tolerance_counts_as_zero() {
    let mut store = InMemoryStore::new(false);
    let m = cmeta(1000, 1);
    store.store_consensus(&m, ConsensusFlavor::Plain, false, "c").unwrap();
    store.expire_all_at(&config(-500), m.valid_until - 1).unwrap();
    assert!(store.latest_consensus(ConsensusFlavor::Plain, None).unwrap().is_some());
    store.expire_all_at(&config(-500), m.valid_until).unwrap();
    assert!(store.latest_consensus(ConsensusFlavor::Plain, None).unwrap().is_none());
}

#[test]
fn store_then_lookup_in_memory() {
    let mut store = InMemoryStore::new(false);
    let ids = AuthCertKeyIds { id_fingerprint: [1; 20], sk_fingerprint: [2; 20] };
    let cert = AuthCertMeta { key_ids: ids, published: 10, expires: 100 };
    store.store_authcerts(&vec![(cert, "cert".to_string())]).unwrap();
    assert_eq!(store.authcerts(&vec![ids]).unwrap(), vec![(ids, "cert".to_string())]);
    store.store_routerdescs(&vec![("rd".to_string(), 40, [3u8; 20])]).unwrap();
    assert_eq!(store.routerdescs(&vec![[3u8; 20]]).unwrap(), vec![([3u8; 20], "rd".to_string())]);
    let bd = CachedBridgeDescriptor { fetched: 5, document: "bridge".to_string() };
    store.store_bridgedesc("Bridge 192.0.2.1:443", bd.clone(), 70).unwrap();
    assert_eq!(store.lookup_bridgedesc("Bridge 192.0.2.1:443").unwrap(), Some(bd));
    store.update_protocol_recommendations(100, "p").unwrap();
    store.update_protocol_recommendations(90, "older").unwrap();
    assert_eq!(store.cached_protocol_recommendations().unwrap(), Some((100, "p".to_string())));
    store.expire_all_at(&config(0), 70).unwrap();
    assert_eq!(store.lookup_bridgedesc("Bridge 192.0.2.1:443").unwrap(), None);
}

#[test]
fn read_only_memory_store() {
    let mut store = InMemoryStore::new(true);
    assert!(store.is_readonly());
    assert!(matches!(
        store.store_consensus(&cmeta(1, 1), ConsensusFlavor::Plain, false, "x"),
        Err(DirError::ReadOnly)
    ));
    assert!(matches!(store.expire_all_at(&config(0), 0), Err(DirError::ReadOnly)));
    let bd = CachedBridgeDescriptor { fetched: 5, document: "bridge".to_string() };
    store.store_bridgedesc("b", bd, 70).unwrap();
    assert_eq!(store.lookup_bridgedesc("b").unwrap(), None);
    assert_eq!(store.upgrade_to_readwrite().unwrap(), true);
    store.store_consensus(&cmeta(1, 1), ConsensusFlavor::Plain, false, "x").unwrap();
}

#[test]
fn lifetime_out_of_order_is_refused() {
    assert!(ConsensusMeta::new(10, 10, 20, [0; 32], [0; 32]).is_none());
    assert!(ConsensusMeta::new(10, 30, 20, [0; 32], [0; 32]).is_none());
    assert!(ConsensusMeta::new(10, 20, 20, [0; 32], [0; 32]).is_some());
}
