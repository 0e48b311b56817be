use tor_storage::chunked::{decode_chunked_body, ChunkError};
use tor_storage::bytes::find_subsequence;
use tor_storage::dirstore::{CustomDirStore, DirError};
use tor_storage::docmeta::StdDuration;
use tor_storage::kv::LockStatus;
use tor_storage::mirror::{MirrorDirStore, MirrorStateMgr, WriteBack};
use tor_storage::persist::CustomStateMgr;
use tor_storage::ready::ReadySignal;
use tor_storage::runtime::{TlsConnector, TlsVersion, WasmRuntime, WasmTlsConnector};
use tor_storage::transport::{
    SnowflakeMode, SnowflakePtMgr, SnowflakeWsConfig, SNOWFLAKE_FINGERPRINT, SNOWFLAKE_WS_URL,
};
use tor_storage::websocket::{SnowflakeBridge, TorError, WebSocketDuplex};

#[test]
fn mirror_write_is_visible_before_persistence() {
    let mut mgr = MirrorStateMgr::from_preload(vec![(
        "state:old".to_string(),
        "1".to_string(),
    )]);
    assert_eq!(mgr.load_json("old").unwrap().as_deref(), Some("1"));
    assert!(mgr.store_now("guards", "2").is_err());
    assert_eq!(mgr.try_lock().unwrap(), LockStatus::NewlyAcquired);
    mgr.store_now("guards", "2").unwrap();
    assert_eq!(mgr.load_json("guards").unwrap().as_deref(), Some("2"));
    let pending = mgr.take_pending();
    assert_eq!(pending.len(), 1);
    match &pending[0] {
        WriteBack::Persist { key, value } => {
            assert_eq!(key, "state:guards");
            assert_eq!(value, "2");
        }
        other => panic!("unexpected write-back {:?}", other),
    }
    assert!(mgr.take_pending().is_empty());
    assert_eq!(mgr.load_json("guards").unwrap().as_deref(), Some("2"));
}

#[test]
fn mirror_directory_store() {
    let mut store = MirrorDirStore::from_preload(
        vec![("dir:protocols".to_string(), "p".to_string())],
        true,
    );
    assert!(store.is_readonly());
    assert!(store.is_readonly_now());
    assert!(matches!(store.store("dir:x", "y"), Err(DirError::ReadOnly)));
    assert!(store.take_pending().is_empty());
    assert_eq!(store.upgrade_to_readwrite().unwrap(), true);
    store.store("dir:x", "y").unwrap();
    store.delete("dir:protocols").unwrap();
    assert_eq!(store.load("dir:x").unwrap().as_deref(), Some("y"));
    assert_eq!(store.load_now("dir:x").as_deref(), Some("y"));
    assert_eq!(store.keys_now("dir:"), vec!["dir:x".to_string()]);
    assert!(store.load("dir:protocols").unwrap().is_none());
    assert_eq!(store.keys("dir:").unwrap(), vec!["dir:x".to_string()]);
    let pending = store.take_pending();
    assert_eq!(pending.len(), 2);
    assert!(matches!(&pending[1], WriteBack::Delete { key } if key == "dir:protocols"));
}

#[test]
fn ready_signal_wakes_waiters_once() {
    let mut signal = ReadySignal::new();
    let f1 = signal.wait(1);
    let f2 = signal.wait(2);
    assert!(!f1.poll(&mut signal));
    assert!(!f2.poll(&mut signal));
    assert_eq!(signal.set(), vec![1, 2]);
    assert!(f1.poll(&mut signal));
    assert!(signal.set().is_empty());
}

#[test]
fn test_wasm_runtime_creation() {
    let _rt = WasmRuntime::new();
}

#[test]
fn test_sleep_provider() {
    let rt = WasmRuntime::new();
    let _future = rt.sleep(StdDuration::from_millis(100));
}

#[test]
fn sleep_is_whole_millis_capped() {
    let rt = WasmRuntime::new();
    assert_eq!(rt.sleep(StdDuration::from_millis(100)).millis, 100);
    assert_eq!(rt.sleep(StdDuration::from_secs(u64::MAX)).millis, u32::MAX);
    assert_eq!(rt.sleep(StdDuration::from_secs(4_294_967)).millis, 4_294_967_000);
    assert_eq!(rt.sleep(StdDuration::from_secs(4_294_968)).millis, u32::MAX);
}

#[test]
fn tls_connectors() {
    let _c = TlsConnector::new();
    let _w = WasmTlsConnector::new();
    assert_eq!(TlsVersion::Tls13, TlsVersion::Tls13);
}

#[test]
fn test_snowflake_mode_default() {
    let mode = SnowflakeMode::default();
    match mode {
        SnowflakeMode::WebSocket { url, fingerprint } => {
            assert!(url.contains("snowflake"));
            assert!(fingerprint.is_some());
        }
        _ => panic!("Expected WebSocket mode"),
    }
}

#[test]
fn arti_transport_test_pt_mgr_creation() {
    let _mgr = SnowflakePtMgr::websocket_default();
    let _mgr = SnowflakePtMgr::webrtc_default();
}

#[test]
fn arti_transport_native_test_pt_mgr_creation() {
    let _mgr = tor_storage::transport_native::SnowflakePtMgr::new(WasmRuntime::new());
}

#[test]
fn factory_only_for_snowflake() {
    let mgr = SnowflakePtMgr::websocket("wss://example.org/".to_string());
    assert!(mgr.factory_for_transport("snowflake").is_some());
    assert!(mgr.factory_for_transport("obfs4").is_none());
}

#[test]
fn test_config_default() {
    let config = SnowflakeWsConfig::default();
    assert_eq!(config.ws_url, SNOWFLAKE_WS_URL);
    assert_eq!(config.fingerprint, SNOWFLAKE_FINGERPRINT);
    assert_eq!(config.kcp_conv, 0);
    assert_eq!(config.smux_stream_id, 3);
    let c2 = config.with_url("wss://x/").with_fingerprint("AB");
    assert_eq!(c2.ws_url, "wss://x/");
    assert_eq!(c2.fingerprint, "AB");
}

#[test]
fn test_websocket_creation() {
    let duplex = WebSocketDuplex::new("wss://echo.websocket.org/".to_string(), StdDuration::from_secs(5));
    let result = duplex.connect();
    assert!(result.is_err());
    match result {
        Err(TorError::Wasm(_)) => {}
        _ => panic!("Expected WASM error for native Rust"),
    }
}

#[test]
fn test_snowflake_bridge_creation() {
    let bridge = SnowflakeBridge::new(
        "wss://snowflake.torproject.net/".to_string(),
        StdDuration::from_secs(15),
    );
    let result = bridge.connect();
    assert!(result.is_err());
}

#[test]
fn find_subsequence_first_match() {
    assert_eq!(find_subsequence(b"HTTP/1.1 200\r\n\r\nbody\r\n\r\n", b"\r\n\r\n"), Some(12));
    assert_eq!(find_subsequence(b"abc", b"abcd"), None);
    assert_eq!(find_subsequence(b"abcabc", b"ca"), Some(2));
    assert_eq!(find_subsequence(b"abc", b"x"), None);
}

#[test]
fn chunked_body_decodes() {
    assert_eq!(
        decode_chunked_body(b"4\r\nWiki\r\n5\r\npedia\r\n0\r\n\r\n").unwrap(),
        b"Wikipedia".to_vec()
    );
    assert_eq!(
        decode_chunked_body(b"4;name=value\r\nWiki\r\n0\r\n\r\n").unwrap(),
        b"Wiki".to_vec()
    );
    assert_eq!(
        decode_chunked_body(b" A \r\n0123456789\r\n0\r\n\r\n").unwrap(),
        b"0123456789".to_vec()
    );
    assert_eq!(decode_chunked_body(b"").unwrap(), Vec::<u8>::new());
}

#[test]
fn chunked_body_lenient_endings() {
    assert_eq!(decode_chunked_body(b"4\r\nWiki\r\nzz\r\n").unwrap(), b"Wiki".to_vec());
    assert_eq!(decode_chunked_body(b"8\r\nabc").unwrap(), b"abc".to_vec());
    assert_eq!(decode_chunked_body(b"4\r\nWiki\r\n5").unwrap(), b"Wiki".to_vec());
}

#[test]
fn chunked_body_errors() {
    assert_eq!(decode_chunked_body(b"4"), Err(ChunkError::IncompleteSizeLine));
    assert_eq!(decode_chunked_body(b"zz\r\nabc"), Err(ChunkError::InvalidSize));
    assert_eq!(
        decode_chunked_body(b"fffffffffffffffffffff\r\nabc"),
        Err(ChunkError::InvalidSize)
    );
}
