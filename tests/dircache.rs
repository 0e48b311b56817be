use sha2::Digest;
use tor_storage::dircache::BoxedDirStore;
use tor_storage::dirstore::{
    flavor_to_str, str_to_flavor, consensus_key, hex_to_32_bytes, microdesc_key, Corruption, CustomDirStore, DirError,
    StoredConsensus,
};
use tor_storage::docmeta::{
    time_duration_to_std, AuthCertKeyIds, AuthCertMeta, CachedBridgeDescriptor, ConsensusFlavor,
    ConsensusMeta, ExpirationConfig, SignedDuration, StdDuration,
};
use tor_storage::kv::MemoryKeyValueStore;
use tor_storage::persist::CustomStateMgr;
use tor_storage::split::{split_storage, SplitStorage};

fn meta(valid_after: u64, whole: u8) -> ConsensusMeta {
    ConsensusMeta {
        valid_after,
        fresh_until: valid_after + 3600,
        valid_until: valid_after + 7200,
        sha3_of_signed: [whole.wrapping_add(100); 32],
        sha3_of_whole: [whole; 32],
    }
}

fn writable_store() -> BoxedDirStore<SplitStorage<MemoryKeyValueStore>> {
    let mut storage = split_storage(MemoryKeyValueStore::new());
    CustomStateMgr::try_lock(&mut storage).unwrap();
    BoxedDirStore::new(storage)
}

fn config(tolerance: i64) -> ExpirationConfig {
    ExpirationConfig {
        consensuses: SignedDuration::seconds(tolerance),
        authcerts: SignedDuration::seconds(tolerance),
        microdescs: SignedDuration::seconds(tolerance),
        router_descs: SignedDuration::seconds(tolerance),
    }
}

#[test]
fn pending_consensus_scenario_backend() {
    let mut store = writable_store();
    let meta_a = meta(1000, 1);
    store
        .store_consensus(&meta_a, ConsensusFlavor::Microdesc, true, "A")
        .unwrap();
    assert_eq!(
        store.latest_consensus(ConsensusFlavor::Microdesc, Some(true)).unwrap(),
        Some("A".to_string())
    );
    assert_eq!(
        store.latest_consensus(ConsensusFlavor::Microdesc, Some(false)).unwrap(),
        None
    );
    assert_eq!(store.latest_consensus_meta(ConsensusFlavor::Microdesc).unwrap(), None);
    store.mark_consensus_usable(&meta_a).unwrap();
    assert_eq!(
        store.latest_consensus_meta(ConsensusFlavor::Microdesc).unwrap(),
        Some(meta_a)
    );
}

#[test]
fn latest_is_greatest_valid_after_backend() {
    let mut store = writable_store();
    store.store_consensus(&meta(200, 2), ConsensusFlavor::Plain, false, "two").unwrap();
    store.store_consensus(&meta(300, 3), ConsensusFlavor::Plain, false, "three").unwrap();
    store.store_consensus(&meta(100, 1), ConsensusFlavor::Plain, false, "one").unwrap();
    assert_eq!(
        store.latest_consensus_meta(ConsensusFlavor::Plain).unwrap(),
        Some(meta(300, 3))
    );
    assert_eq!(
        store.latest_consensus(ConsensusFlavor::Plain, None).unwrap(),
        Some("three".to_string())
    );
    assert_eq!(store.latest_consensus_meta(ConsensusFlavor::Microdesc).unwrap(), None);
}

#[test]
fn consensus_by_signed_digest_backend() {
    let mut store = writable_store();
    let m = meta(500, 5);
    store.store_consensus(&m, ConsensusFlavor::Microdesc, false, "five").unwrap();
    let found = store.consensus_by_sha3_digest_of_signed_part(&m.sha3_of_signed).unwrap();
    assert_eq!(found, Some(("five".to_string(), m)));
    assert_eq!(store.consensus_by_sha3_digest_of_signed_part(&[9u8; 32]).unwrap(), None);
}

#[test]
fn delete_consensus_removes_all_flavors_backend() {
    let mut store = writable_store();
    let m = meta(500, 5);
    store.store_consensus(&m, ConsensusFlavor::Microdesc, false, "md").unwrap();
    store.store_consensus(&m, ConsensusFlavor::Plain, false, "plain").unwrap();
    store.store_consensus(&meta(600, 6), ConsensusFlavor::Plain, false, "other").unwrap();
    store.delete_consensus(&m).unwrap();
    assert_eq!(store.latest_consensus(ConsensusFlavor::Microdesc, None).unwrap(), None);
    assert_eq!(
        store.latest_consensus(ConsensusFlavor::Plain, None).unwrap(),
        Some("other".to_string())
    );
}

#[test]
fn expiry_of_consensus_backend() {
    let mut store = writable_store();
    let m = meta(1000, 1);
    store.store_consensus(&m, ConsensusFlavor::Microdesc, false, "A").unwrap();
    let until = m.valid_until + 60;
    store.expire_all_at(&config(60), until - 1).unwrap();
    assert!(store.latest_consensus(ConsensusFlavor::Microdesc, None).unwrap().is_some());
    store.expire_all_at(&config(60), until).unwrap();
    assert!(store.latest_consensus(ConsensusFlavor::Microdesc, None).unwrap().is_none());
}

#[test]
fn expiry_of_other_documents_backend() {
    let mut store = writable_store();
    let ids = AuthCertKeyIds { id_fingerprint: [1; 20], sk_fingerprint: [2; 20] };
    let cert = AuthCertMeta { key_ids: ids, published: 10, expires: 100 };
    store.store_authcerts(&vec![(cert, "cert".to_string())]).unwrap();
    store.store_microdescs(&vec![("md".to_string(), [7u8; 32])], 50).unwrap();
    store.store_routerdescs(&vec![("rd".to_string(), 40, [3u8; 20])]).unwrap();
    store
        .store_bridgedesc(
            "Bridge 192.0.2.1:443",
            CachedBridgeDescriptor { fetched: 5, document: "bd".to_string() },
            70,
        )
        .unwrap();
    store.expire_all_at(&config(10), 65).unwrap();
    assert_eq!(store.authcerts(&vec![ids]).unwrap().len(), 1);
    assert!(store.microdescs(&vec![[7u8; 32]]).unwrap().is_empty());
    assert!(store.routerdescs(&vec![[3u8; 20]]).unwrap().is_empty());
    assert!(store.lookup_bridgedesc("Bridge 192.0.2.1:443").unwrap().is_some());
    store.expire_all_at(&config(10), 110).unwrap();
    assert!(store.authcerts(&vec![ids]).unwrap().is_empty());
    assert!(store.lookup_bridgedesc("Bridge 192.0.2.1:443").unwrap().is_none());
}

#[test]
fn store_then_lookup_backend() {
    let mut store = writable_store();
    let ids = AuthCertKeyIds { id_fingerprint: [1; 20], sk_fingerprint: [2; 20] };
    let cert = AuthCertMeta { key_ids: ids, published: 10, expires: 100 };
    store.store_authcerts(&vec![(cert, "cert text".to_string())]).unwrap();
    assert_eq!(store.authcerts(&vec![ids]).unwrap(), vec![(ids, "cert text".to_string())]);

    store.store_microdescs(&vec![("md text".to_string(), [42u8; 32])], 77).unwrap();
    assert_eq!(
        store.microdescs(&vec![[42u8; 32], [43u8; 32]]).unwrap(),
        vec![([42u8; 32], "md text".to_string())]
    );

    store.store_routerdescs(&vec![("rd text".to_string(), 40, [3u8; 20])]).unwrap();
    assert_eq!(
        store.routerdescs(&vec![[3u8; 20]]).unwrap(),
        vec![([3u8; 20], "rd text".to_string())]
    );

    let bd = CachedBridgeDescriptor { fetched: 5, document: "bridge doc".to_string() };
    store.store_bridgedesc("Bridge 192.0.2.1:443", bd.clone(), 1000).unwrap();
    assert_eq!(store.lookup_bridgedesc("Bridge 192.0.2.1:443").unwrap(), Some(bd));
    store.delete_bridgedesc("Bridge 192.0.2.1:443").unwrap();
    assert_eq!(store.lookup_bridgedesc("Bridge 192.0.2.1:443").unwrap(), None);

    store.update_protocol_recommendations(100, "{\"a\":1}").unwrap();
    assert_eq!(
        store.cached_protocol_recommendations().unwrap(),
        Some((100, "{\"a\":1}".to_string()))
    );
    store.update_protocol_recommendations(100, "same age").unwrap();
    store.update_protocol_recommendations(50, "older").unwrap();
    assert_eq!(
        store.cached_protocol_recommendations().unwrap(),
        Some((100, "{\"a\":1}".to_string()))
    );
    store.update_protocol_recommendations(200, "newer").unwrap();
    assert_eq!(
        store.cached_protocol_recommendations().unwrap(),
        Some((200, "newer".to_string()))
    );
}

#[test]
fn listed_time_only_rises_backend() {
    let mut store = writable_store();
    let d = [42u8; 32];
    store.store_microdescs(&vec![("md".to_string(), d)], 10).unwrap();
    store.update_microdescs_listed(&vec![d], 30).unwrap();
    store.update_microdescs_listed(&vec![d], 20).unwrap();
    let key = microdesc_key(&d);
    let raw = store.backend_store().load(&key).unwrap();
    assert_eq!(raw, Some("[[30],[\"md\"]]".to_string()));
    assert_eq!(store.microdescs(&vec![d]).unwrap(), vec![(d, "md".to_string())]);
}

#[test]
fn keys_are_lower_case_hex() {
    let key = consensus_key(ConsensusFlavor::Microdesc, &[0xABu8; 32]);
    assert_eq!(key, format!("dir:consensus:microdesc:{}", "ab".repeat(32)));
    assert_eq!(
        microdesc_key(&[1u8; 32]),
        format!("dir:microdesc:{}", "01".repeat(32))
    );
}

#[test]
fn malformed_cache_entries_are_corruption() {
    let mut storage = split_storage(MemoryKeyValueStore::new());
    CustomStateMgr::try_lock(&mut storage).unwrap();
    storage.store("dir:consensus:plain:zz", "not json").unwrap();
    storage.store("dir:consensus:microdesc:zz", "[[1,2],[\"a\"]]").unwrap();
    let store = BoxedDirStore::new(storage);
    match store.latest_consensus(ConsensusFlavor::Plain, None) {
        Err(DirError::CacheCorruption(Corruption::InvalidJson)) => {}
        other => panic!("expected invalid JSON, got {:?}", other),
    }
    match store.latest_consensus(ConsensusFlavor::Microdesc, None) {
        Err(DirError::CacheCorruption(Corruption::MalformedRecord)) => {}
        other => panic!("expected malformed record, got {:?}", other),
    }
}

#[test]
fn digest_hex_errors() {
    assert!(matches!(
        hex_to_32_bytes("xyz"),
        Err(DirError::CacheCorruption(Corruption::InvalidHex))
    ));
    assert!(matches!(
        hex_to_32_bytes("abcd"),
        Err(DirError::CacheCorruption(Corruption::WrongDigestLength))
    ));
    assert_eq!(hex_to_32_bytes(&"0A".repeat(32)).unwrap(), [10u8; 32]);
}

#[test]
fn invalid_lifetime_is_corruption() {
    let stored = StoredConsensus {
        valid_after_secs: 10,
        fresh_until_secs: 5,
        valid_until_secs: 20,
        sha3_of_signed_hex: "00".repeat(32),
        sha3_of_whole_hex: "00".repeat(32),
        pending: false,
        content: String::new(),
    };
    assert!(matches!(
        stored.to_meta(),
        Err(DirError::CacheCorruption(Corruption::InvalidLifetime))
    ));
}

#[test]
fn read_only_store_refuses_writes() {
    let mut store = BoxedDirStore::new(split_storage(MemoryKeyValueStore::new()));
    assert!(store.is_readonly());
    assert!(matches!(
        store.store_consensus(&meta(1, 1), ConsensusFlavor::Plain, false, "x"),
        Err(DirError::ReadOnly)
    ));
    assert_eq!(store.upgrade_to_readwrite().unwrap(), true);
    assert!(!store.is_readonly());
    store.store_consensus(&meta(1, 1), ConsensusFlavor::Plain, false, "x").unwrap();
}

#[test]
fn test_time_duration_to_std_positive() {
    let d = SignedDuration::seconds(60);
    assert_eq!(time_duration_to_std(d), StdDuration::from_secs(60));
}

#[test]
fn test_time_duration_to_std_negative() {
    let d = SignedDuration::seconds(-60);
    assert_eq!(time_duration_to_std(d), StdDuration::from_secs(0));
}

#[test]
fn test_time_duration_to_std_with_nanos() {
    let d = SignedDuration::new(5, 123_456_789);
    let std_d = time_duration_to_std(d);
    assert_eq!(std_d.as_secs(), 5);
    assert_eq!(std_d.subsec_nanos(), 123_456_789);
}

#[test]
fn test_time_duration_to_std_zero() {
    let d = SignedDuration::zero();
    assert_eq!(time_duration_to_std(d), StdDuration::from_secs(0));
}

#[test]
fn bridge_key_is_truncated_sha256() {
    let line = "Bridge 192.0.2.1:443";
    let digest = sha2::Sha256::digest(line.as_bytes());
    let expected = format!("dir:bridge:{}", hex::encode(&digest[..16]));
    assert_eq!(tor_storage::dirstore::bridge_key(line), expected);
    assert_eq!(expected.len(), "dir:bridge:".len() + 32);
}

#[test]
fn flavor_names_read_back() {
    for f in [ConsensusFlavor::Microdesc, ConsensusFlavor::Plain] {
        assert_eq!(str_to_flavor(flavor_to_str(f)), Some(f));
    }
    assert_eq!(str_to_flavor("ns"), None);
}
