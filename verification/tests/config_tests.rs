use durable_streams_reference::config::{Config, LongPollTimeout, SseReconnectInterval, StorageMode};
use std::collections::HashMap;
use std::time::Duration;

/// Helper: build a lookup function from key-value pairs.
fn lookup(pairs: &[(&str, &str)]) -> impl Fn(&str) -> Option<String> {
    let map: HashMap<String, String> = pairs
        .iter()
        .map(|(k, v)| ((*k).to_string(), (*v).to_string()))
        .collect();
    move |key: &str| map.get(key).cloned()
}

#[test]
fn test_default_config() {
    let config = Config::default();
    assert_eq!(config.port, 4437);
    assert_eq!(config.max_memory_bytes, 100 * 1024 * 1024);
    assert_eq!(config.max_stream_bytes, 10 * 1024 * 1024);
    assert_eq!(config.cors_origins, "*");
    assert_eq!(config.long_poll_timeout, Duration::from_secs(30));
    assert_eq!(config.sse_reconnect_interval_secs, 60);
    assert_eq!(config.storage_mode, StorageMode::Memory);
    assert_eq!(config.data_dir, "./data/streams");
    assert_eq!(config.acid_shard_count, 16);
    assert_eq!(config.tls_cert_path, None);
    assert_eq!(config.tls_key_path, None);
}

#[test]
fn test_from_lookup_uses_defaults_when_no_vars() {
    let config = Config::from_lookup(|_| None);
    assert_eq!(config.port, 4437);
    assert_eq!(config.max_memory_bytes, 100 * 1024 * 1024);
    assert_eq!(config.max_stream_bytes, 10 * 1024 * 1024);
    assert_eq!(config.cors_origins, "*");
    assert_eq!(config.long_poll_timeout, Duration::from_secs(30));
    assert_eq!(config.sse_reconnect_interval_secs, 60);
    assert_eq!(config.storage_mode, StorageMode::Memory);
    assert_eq!(config.data_dir, "./data/streams");
    assert_eq!(config.acid_shard_count, 16);
    assert_eq!(config.tls_cert_path, None);
    assert_eq!(config.tls_key_path, None);
}

#[test]
fn test_from_lookup_parses_all_vars() {
    let get = lookup(&[
        ("PORT", "8080"),
        ("MAX_MEMORY_BYTES", "200000000"),
        ("MAX_STREAM_BYTES", "20000000"),
        ("CORS_ORIGINS", "https://example.com"),
        ("LONG_POLL_TIMEOUT_SECS", "5"),
        ("SSE_RECONNECT_INTERVAL_SECS", "120"),
        ("STORAGE_MODE", "file-fast"),
        ("DATA_DIR", "/tmp/ds-store"),
        ("ACID_SHARD_COUNT", "32"),
        ("TLS_CERT_PATH", "/tmp/cert.pem"),
        ("TLS_KEY_PATH", "/tmp/key.pem"),
    ]);
    let config = Config::from_lookup(get);
    assert_eq!(config.port, 8080);
    assert_eq!(config.max_memory_bytes, 200_000_000);
    assert_eq!(config.max_stream_bytes, 20_000_000);
    assert_eq!(config.cors_origins, "https://example.com");
    assert_eq!(config.long_poll_timeout, Duration::from_secs(5));
    assert_eq!(config.sse_reconnect_interval_secs, 120);
    assert_eq!(config.storage_mode, StorageMode::FileFast);
    assert_eq!(config.data_dir, "/tmp/ds-store");
    assert_eq!(config.acid_shard_count, 32);
    assert_eq!(config.tls_cert_path.as_deref(), Some("/tmp/cert.pem"));
    assert_eq!(config.tls_key_path.as_deref(), Some("/tmp/key.pem"));
}

#[test]
fn test_from_lookup_ignores_unparseable_values() {
    let get = lookup(&[
        ("PORT", "not-a-number"),
        ("MAX_MEMORY_BYTES", ""),
        ("MAX_STREAM_BYTES", "-1"),
        ("LONG_POLL_TIMEOUT_SECS", "abc"),
        ("SSE_RECONNECT_INTERVAL_SECS", "xyz"),
    ]);
    let config = Config::from_lookup(get);
    // All fall back to defaults because the values don't parse
    assert_eq!(config.port, 4437);
    assert_eq!(config.max_memory_bytes, 100 * 1024 * 1024);
    assert_eq!(config.max_stream_bytes, 10 * 1024 * 1024);
    assert_eq!(config.long_poll_timeout, Duration::from_secs(30));
    assert_eq!(config.sse_reconnect_interval_secs, 60);
    assert_eq!(config.storage_mode, StorageMode::Memory);
    assert_eq!(config.acid_shard_count, 16);
    assert_eq!(config.tls_cert_path, None);
    assert_eq!(config.tls_key_path, None);
}

#[test]
fn test_from_lookup_partial_override() {
    let get = lookup(&[("PORT", "9090")]);
    let config = Config::from_lookup(get);
    assert_eq!(config.port, 9090);
    // Everything else stays at defaults
    assert_eq!(config.max_memory_bytes, 100 * 1024 * 1024);
    assert_eq!(config.max_stream_bytes, 10 * 1024 * 1024);
    assert_eq!(config.cors_origins, "*");
    assert_eq!(config.long_poll_timeout, Duration::from_secs(30));
    assert_eq!(config.sse_reconnect_interval_secs, 60);
    assert_eq!(config.storage_mode, StorageMode::Memory);
    assert_eq!(config.acid_shard_count, 16);
    assert_eq!(config.tls_cert_path, None);
    assert_eq!(config.tls_key_path, None);
}

#[test]
fn test_validate_tls_pair_ok_when_both_absent_or_present() {
    let mut config = Config::default();
    assert!(config.validate().is_ok());
    assert!(!config.tls_enabled());

    config.tls_cert_path = Some("/tmp/cert.pem".to_string());
    config.tls_key_path = Some("/tmp/key.pem".to_string());
    assert!(config.validate().is_ok());
    assert!(config.tls_enabled());
}

#[test]
fn test_validate_tls_pair_rejects_partial_configuration() {
    let mut config = Config::default();
    config.tls_cert_path = Some("/tmp/cert.pem".to_string());
    assert!(config.validate().is_err());

    config.tls_cert_path = None;
    config.tls_key_path = Some("/tmp/key.pem".to_string());
    assert!(config.validate().is_err());
}

#[test]
fn test_storage_mode_legacy_env_uses_durable_default_for_file() {
    let get = lookup(&[("STORAGE_BACKEND", "file")]);
    let config = Config::from_lookup(get);
    assert_eq!(config.storage_mode, StorageMode::FileDurable);
}

#[test]
fn test_storage_mode_legacy_env_allows_explicit_fast_override() {
    let get = lookup(&[
        ("STORAGE_BACKEND", "file"),
        ("FILE_STORAGE_SYNC_ON_APPEND", "false"),
    ]);
    let config = Config::from_lookup(get);
    assert_eq!(config.storage_mode, StorageMode::FileFast);
}

#[test]
fn test_storage_mode_acid_aliases() {
    let config = Config::from_lookup(lookup(&[("STORAGE_MODE", "acid")]));
    assert_eq!(config.storage_mode, StorageMode::Acid);

    let config = Config::from_lookup(lookup(&[("STORAGE_MODE", "redb")]));
    assert_eq!(config.storage_mode, StorageMode::Acid);
}

#[test]
fn test_acid_shard_count_default() {
    let config = Config::from_lookup(|_| None);
    assert_eq!(config.acid_shard_count, 16);
}

#[test]
fn test_acid_shard_count_valid_values() {
    let config = Config::from_lookup(lookup(&[("ACID_SHARD_COUNT", "1")]));
    assert_eq!(config.acid_shard_count, 1);

    let config = Config::from_lookup(lookup(&[("ACID_SHARD_COUNT", "256")]));
    assert_eq!(config.acid_shard_count, 256);
}

#[test]
fn test_acid_shard_count_invalid_values_fall_back_to_default() {
    let config = Config::from_lookup(lookup(&[("ACID_SHARD_COUNT", "0")]));
    assert_eq!(config.acid_shard_count, 16);

    let config = Config::from_lookup(lookup(&[("ACID_SHARD_COUNT", "3")]));
    assert_eq!(config.acid_shard_count, 16);

    let config = Config::from_lookup(lookup(&[("ACID_SHARD_COUNT", "300")]));
    assert_eq!(config.acid_shard_count, 16);

    let config = Config::from_lookup(lookup(&[("ACID_SHARD_COUNT", "abc")]));
    assert_eq!(config.acid_shard_count, 16);
}

#[test]
fn test_long_poll_timeout_newtype() {
    let timeout = LongPollTimeout(Duration::from_secs(10));
    assert_eq!(timeout.0, Duration::from_secs(10));
}

#[test]
fn test_sse_reconnect_interval_newtype() {
    let interval = SseReconnectInterval(120);
    assert_eq!(interval.0, 120);
}

#[test]
fn storage_mode_names_and_backends() {
    assert_eq!(StorageMode::Memory.as_str(), "memory");
    assert_eq!(StorageMode::FileFast.as_str(), "file-fast");
    assert_eq!(StorageMode::FileDurable.as_str(), "file-durable");
    assert_eq!(StorageMode::Acid.as_str(), "acid");
    assert!(!StorageMode::Memory.uses_file_backend());
    assert!(StorageMode::FileFast.uses_file_backend());
    assert!(StorageMode::FileDurable.uses_file_backend());
    assert!(!StorageMode::FileFast.sync_on_append());
    assert!(StorageMode::FileDurable.sync_on_append());
}

#[test]
fn storage_mode_names_ignore_case() {
    let config = Config::from_lookup(lookup(&[("STORAGE_MODE", "File-Durable")]));
    assert_eq!(config.storage_mode, StorageMode::FileDurable);
    let config = Config::from_lookup(lookup(&[("STORAGE_MODE", "bogus")]));
    assert_eq!(config.storage_mode, StorageMode::Memory);
}

#[test]
fn validate_reports_which_half_of_tls_is_missing() {
    let mut config = Config::default();
    config.tls_cert_path = Some("/tmp/cert.pem".to_string());
    assert_eq!(
        config.validate().unwrap_err(),
        "TLS_CERT_PATH is set but TLS_KEY_PATH is missing; both must be set together"
    );
}
