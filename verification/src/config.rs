//! Server configuration: defaults, parsing from a key/value lookup, and
//! consistency checks.

use crate::text::{ascii_lower, ascii_lower_chars, chars_eq_str, chars_of, parse_u64, parse_u64_spec};
use core::time::Duration;
use vstd::prelude::*;

verus! {

/// Storage runtime mode.
#[derive(Debug, Clone, Copy, PartialEq, Eq, Structural)]
pub enum StorageMode {
    /// In-memory backend.
    Memory,
    /// File backend without fsync/fdatasync on every append.
    FileFast,
    /// File backend with fsync/fdatasync on every append.
    FileDurable,
    /// ACID backend using sharded databases.
    Acid,
}

/// The name under which a storage mode is reported.
pub open spec fn mode_name(m: StorageMode) -> Seq<char> {
    match m {
        StorageMode::Memory => "memory"@,
        StorageMode::FileFast => "file-fast"@,
        StorageMode::FileDurable => "file-durable"@,
        StorageMode::Acid => "acid"@,
    }
}

impl StorageMode {
    /// The mode's name.
    pub fn as_str(self) -> (s: &'static str)
        ensures
            s@ == mode_name(self),
    {
        match self {
            StorageMode::Memory => "memory",
            StorageMode::FileFast => "file-fast",
            StorageMode::FileDurable => "file-durable",
            StorageMode::Acid => "acid",
        }
    }

    /// Whether the mode keeps streams in per-stream log files.
    pub fn uses_file_backend(self) -> (b: bool)
        ensures
            b == (self == StorageMode::FileFast || self == StorageMode::FileDurable),
    {
        matches!(self, StorageMode::FileFast | StorageMode::FileDurable)
    }

    /// Whether every append is synced to disk before it is acknowledged.
    pub fn sync_on_append(self) -> (b: bool)
        ensures
            b == (self == StorageMode::FileDurable),
    {
        matches!(self, StorageMode::FileDurable)
    }
}

/// The storage mode that a `STORAGE_MODE` value names, ignoring ASCII case.
pub open spec fn mode_from_value(raw: Seq<char>) -> Option<StorageMode> {
    let l = ascii_lower(raw);
    if l == "memory"@ {
        Some(StorageMode::Memory)
    } else if l == "file"@ || l == "file-durable"@ || l == "durable"@ {
        Some(StorageMode::FileDurable)
    } else if l == "file-fast"@ || l == "fast"@ {
        Some(StorageMode::FileFast)
    } else if l == "acid"@ || l == "redb"@ {
        Some(StorageMode::Acid)
    } else {
        None
    }
}

/// A storage mode's name reads back as that mode, and so does any text that
/// is the name up to ASCII case (such as the name in capitals).
pub proof fn lemma_storage_mode_name_roundtrip(m: StorageMode, s: Seq<char>)
    requires
        ascii_lower(s) == mode_name(m),
    ensures
        mode_from_value(mode_name(m)) == Some(m),
        mode_from_value(s) == Some(m),
{
    reveal_strlit("memory");
    reveal_strlit("file");
    reveal_strlit("file-durable");
    reveal_strlit("durable");
    reveal_strlit("file-fast");
    reveal_strlit("fast");
    reveal_strlit("acid");
    reveal_strlit("redb");
    let n = mode_name(m);
    assert(ascii_lower(n) =~= n);
    match m {
        StorageMode::Memory => {
            assert(n == "memory"@);
        },
        StorageMode::FileFast => {
            assert(n != "memory"@ && n != "file"@ && n != "file-durable"@ && n != "durable"@) by {
                assert(n.len() == 9 && n[5] == 'f');
                assert("file-durable"@.len() == 12);
            }
        },
        StorageMode::FileDurable => {
            assert(n != "memory"@ && n != "file"@);
        },
        StorageMode::Acid => {
            assert(n[0] == 'a' && "file"@[0] == 'f' && "fast"@[0] == 'f');
            assert(n != "memory"@ && n != "file"@ && n != "file-durable"@ && n != "durable"@
                && n != "file-fast"@ && n != "fast"@);
        },
    }
}

/// The values that count as true in a boolean setting.
pub open spec fn is_true_text(raw: Seq<char>) -> bool {
    raw == "1"@ || raw == "true"@ || raw == "TRUE"@ || raw == "True"@
}

/// Whether the legacy `STORAGE_BACKEND` value (`memory` when absent) names
/// the file back end, ignoring ASCII case.
pub open spec fn backend_is_file(backend: Option<Seq<char>>) -> bool {
    ascii_lower(
        match backend {
            Some(b) => b,
            None => "memory"@,
        },
    ) == "file"@
}

/// The storage mode chosen from `STORAGE_MODE`, or else from the legacy
/// `STORAGE_BACKEND` and `FILE_STORAGE_SYNC_ON_APPEND` settings.
pub open spec fn storage_mode_from(
    mode: Option<Seq<char>>,
    backend: Option<Seq<char>>,
    sync: Option<Seq<char>>,
) -> StorageMode {
    let parsed = match mode {
        Some(m) => mode_from_value(m),
        None => None,
    };
    match parsed {
        Some(p) => p,
        None => {
            if backend_is_file(backend) {
                let durable = match sync {
                    Some(s) => is_true_text(s),
                    None => true,
                };
                if durable {
                    StorageMode::FileDurable
                } else {
                    StorageMode::FileFast
                }
            } else {
                StorageMode::Memory
            }
        },
    }
}

/// A power of two.
pub open spec fn is_pow2(n: nat) -> bool
    decreases n,
{
    if n == 0 {
        false
    } else if n == 1 {
        true
    } else {
        n % 2 == 0 && is_pow2(n / 2)
    }
}

/// The shard count for the ACID backend: the given value when it is a power
/// of two in `1..=256`, else 16.
pub open spec fn acid_shard_count_from(raw: Option<Seq<char>>) -> usize {
    match raw {
        None => 16,
        Some(r) => match parse_u64_spec(r) {
            None => 16,
            Some(n) => if n <= usize::MAX && 1 <= n <= 256 && is_pow2(n as nat) {
                n as usize
            } else {
                16
            },
        },
    }
}

/// The characters of an optional string.
pub open spec fn opt_chars(v: Option<String>) -> Option<Seq<char>> {
    match v {
        Some(s) => Some(s@),
        None => None,
    }
}

/// A `u64` setting: the parsed value, or `default` when absent or malformed.
pub open spec fn u64_setting(v: Option<String>, default: u64) -> u64 {
    match v {
        Some(s) => match parse_u64_spec(s@) {
            Some(n) => n,
            None => default,
        },
        None => default,
    }
}

/// A `u16` setting: the parsed value, or `default` when absent, malformed or
/// out of range.
pub open spec fn u16_setting(v: Option<String>, default: u16) -> u16 {
    match v {
        Some(s) => match parse_u64_spec(s@) {
            Some(n) => if n <= u16::MAX {
                n as u16
            } else {
                default
            },
            None => default,
        },
        None => default,
    }
}

/// A string setting: the given value, or `default` when absent.
pub open spec fn text_setting(v: Option<String>, default: Seq<char>) -> Seq<char> {
    match v {
        Some(s) => s@,
        None => default,
    }
}

/// The `Duration` of a whole number of seconds (`Duration::from_secs`).
pub uninterp spec fn duration_of_secs(secs: u64) -> Duration;

/// `Duration::from_secs`: the duration of `secs` whole seconds. The
/// contract names the result and says nothing of its inner representation.
#[verifier::external_body]
fn duration_from_secs(secs: u64) -> (d: Duration)
    ensures
        d == duration_of_secs(secs),
{
    Duration::from_secs(secs)
}

/// `Duration`'s `Clone`: the clone of a `Copy` value is the value itself.
pub assume_specification[ <Duration as Clone>::clone ](d: &Duration) -> (r: Duration)
    ensures
        r == *d,
;

/// Server configuration.
#[derive(Debug, Clone)]
pub struct Config {
    /// Port to bind the server to.
    pub port: u16,
    /// Maximum total memory usage in bytes.
    pub max_memory_bytes: u64,
    /// Maximum bytes per stream.
    pub max_stream_bytes: u64,
    /// CORS allowed origins (comma-separated, "*" for all).
    pub cors_origins: String,
    /// Long-poll timeout duration.
    pub long_poll_timeout: Duration,
    /// SSE reconnect interval in seconds (0 disables).
    pub sse_reconnect_interval_secs: u64,
    /// Selected storage mode.
    pub storage_mode: StorageMode,
    /// Root directory for file/acid-backed storage.
    pub data_dir: String,
    /// Number of shards for the acid storage mode.
    pub acid_shard_count: usize,
    /// Optional TLS certificate path (PEM). Requires `tls_key_path`.
    pub tls_cert_path: Option<String>,
    /// Optional TLS private key path (PEM or PKCS#8). Requires `tls_cert_path`.
    pub tls_key_path: Option<String>,
}

/// The message for a certificate path without a key path.
pub open spec fn missing_key_message() -> Seq<char> {
    "TLS_CERT_PATH is set but TLS_KEY_PATH is missing; both must be set together"@
}

/// The message for a key path without a certificate path.
pub open spec fn missing_cert_message() -> Seq<char> {
    "TLS_KEY_PATH is set but TLS_CERT_PATH is missing; both must be set together"@
}

impl Config {
    /// Builds a configuration from a key-to-value lookup: each setting is
    /// read once and parsed, and falls back to its default when absent or
    /// malformed.
    pub fn from_lookup<F: Fn(&str) -> Option<String>>(get: F) -> (c: Config)
        requires
            forall|k: &str| get.requires((k,)),
        ensures
            exists|v: Option<String>|
                get.ensures(("LONG_POLL_TIMEOUT_SECS",), v) && c.long_poll_timeout
                    == duration_of_secs(u64_setting(v, 30)),
            exists|v: Option<String>|
                get.ensures(("SSE_RECONNECT_INTERVAL_SECS",), v) && c.sse_reconnect_interval_secs
                    == u64_setting(v, 60),
            exists|m: Option<String>, b: Option<String>, s: Option<String>|
                #![trigger storage_mode_from(opt_chars(m), opt_chars(b), opt_chars(s))]
                get.ensures(("STORAGE_MODE",), m) && (m is None || mode_from_value(m->0@) is None
                    ==> get.ensures(("STORAGE_BACKEND",), b)) && ((m is None || mode_from_value(
                    m->0@,
                ) is None) && backend_is_file(opt_chars(b)) ==> get.ensures(
                    ("FILE_STORAGE_SYNC_ON_APPEND",),
                    s,
                )) && c.storage_mode == storage_mode_from(
                    opt_chars(m),
                    opt_chars(b),
                    opt_chars(s),
                ),
            exists|v: Option<String>|
                get.ensures(("ACID_SHARD_COUNT",), v) && c.acid_shard_count
                    == acid_shard_count_from(opt_chars(v)),
            exists|v: Option<String>|
                get.ensures(("PORT",), v) && c.port == u16_setting(v, 4437),
            exists|v: Option<String>|
                get.ensures(("MAX_MEMORY_BYTES",), v) && c.max_memory_bytes == u64_setting(
                    v,
                    104857600,
                ),
            exists|v: Option<String>|
                get.ensures(("MAX_STREAM_BYTES",), v) && c.max_stream_bytes == u64_setting(
                    v,
                    10485760,
                ),
            exists|v: Option<String>|
                get.ensures(("CORS_ORIGINS",), v) && c.cors_origins@ == text_setting(v, "*"@),
            exists|v: Option<String>|
                get.ensures(("DATA_DIR",), v) && c.data_dir@ == text_setting(
                    v,
                    "./data/streams"@,
                ),
            exists|v: Option<String>| get.ensures(("TLS_CERT_PATH",), v) && c.tls_cert_path == v,
            exists|v: Option<String>| get.ensures(("TLS_KEY_PATH",), v) && c.tls_key_path == v,
    {
        let long_poll = get("LONG_POLL_TIMEOUT_SECS");
        let long_poll_secs = setting_u64(&long_poll, 30);
        let sse = get("SSE_RECONNECT_INTERVAL_SECS");
        let sse_reconnect_interval_secs = setting_u64(&sse, 60);
        let storage_mode = Self::parse_storage_mode(&get);
        let shards = get("ACID_SHARD_COUNT");
        let acid_shard_count = Self::parse_acid_shard_count(&shards);
        let port = get("PORT");
        let max_memory = get("MAX_MEMORY_BYTES");
        let max_stream = get("MAX_STREAM_BYTES");
        let cors = get("CORS_ORIGINS");
        let data_dir = get("DATA_DIR");
        let tls_cert_path = get("TLS_CERT_PATH");
        let tls_key_path = get("TLS_KEY_PATH");
        let c = Config {
            port: setting_u16(&port, 4437),
            max_memory_bytes: setting_u64(&max_memory, 104857600),
            max_stream_bytes: setting_u64(&max_stream, 10485760),
            cors_origins: setting_text(cors, "*"),
            long_poll_timeout: duration_from_secs(long_poll_secs),
            sse_reconnect_interval_secs,
            storage_mode,
            data_dir: setting_text(data_dir, "./data/streams"),
            acid_shard_count,
            tls_cert_path,
            tls_key_path,
        };
        c
    }

    /// Checks that the TLS certificate and key paths are given together.
    pub fn validate(&self) -> (r: Result<(), String>)
        ensures
            r is Ok <==> (self.tls_cert_path is Some) == (self.tls_key_path is Some),
            r matches Err(msg) ==> msg@ == (if self.tls_cert_path is Some {
                missing_key_message()
            } else {
                missing_cert_message()
            }),
    {
        match (&self.tls_cert_path, &self.tls_key_path) {
            (Some(_), Some(_)) | (None, None) => Ok(()),
            (Some(_), None) => Err(
                String::from_str(
                    "TLS_CERT_PATH is set but TLS_KEY_PATH is missing; both must be set together",
                ),
            ),
            (None, Some(_)) => Err(
                String::from_str(
                    "TLS_KEY_PATH is set but TLS_CERT_PATH is missing; both must be set together",
                ),
            ),
        }
    }

    /// Whether the server terminates TLS itself.
    pub fn tls_enabled(&self) -> (b: bool)
        ensures
            b == (self.tls_cert_path is Some && self.tls_key_path is Some),
    {
        self.tls_cert_path.is_some() && self.tls_key_path.is_some()
    }

    /// The storage mode from `STORAGE_MODE`, falling back to the legacy
    /// `STORAGE_BACKEND` and `FILE_STORAGE_SYNC_ON_APPEND` settings.
    fn parse_storage_mode<F: Fn(&str) -> Option<String>>(get: &F) -> (m: StorageMode)
        requires
            forall|k: &str| get.requires((k,)),
        ensures
            exists|m1: Option<String>, b: Option<String>, s: Option<String>|
                #![trigger storage_mode_from(opt_chars(m1), opt_chars(b), opt_chars(s))]
                get.ensures(("STORAGE_MODE",), m1) && (m1 is None || mode_from_value(m1->0@) is None
                    ==> get.ensures(("STORAGE_BACKEND",), b)) && ((m1 is None || mode_from_value(
                    m1->0@,
                ) is None) && backend_is_file(opt_chars(b)) ==> get.ensures(
                    ("FILE_STORAGE_SYNC_ON_APPEND",),
                    s,
                )) && m == storage_mode_from(
                    opt_chars(m1),
                    opt_chars(b),
                    opt_chars(s),
                ),
    {
        let mode = get("STORAGE_MODE");
        if let Some(raw) = &mode {
            if let Some(parsed) = Self::parse_storage_mode_value(raw.as_str()) {
                assert(storage_mode_from(opt_chars(mode), opt_chars(None), opt_chars(None))
                    == parsed);
                return parsed;
            }
        }
        let backend = get("STORAGE_BACKEND");
        let backend_chars = match &backend {
            Some(b) => chars_of(b.as_str()),
            None => {
                let v = chars_of("memory");
                v
            },
        };
        let lowered = ascii_lower_chars(&backend_chars);
        if chars_eq_str(&lowered, "file") {
            let sync = get("FILE_STORAGE_SYNC_ON_APPEND");
            let durable = match &sync {
                Some(v) => Self::parse_bool(v.as_str()),
                None => true,
            };
            let m = if durable {
                StorageMode::FileDurable
            } else {
                StorageMode::FileFast
            };
            assert(m == storage_mode_from(opt_chars(mode), opt_chars(backend), opt_chars(sync)));
            m
        } else {
            assert(StorageMode::Memory == storage_mode_from(
                opt_chars(mode),
                opt_chars(backend),
                opt_chars(None),
            ));
            StorageMode::Memory
        }
    }

    /// The storage mode a `STORAGE_MODE` value names, if any.
    fn parse_storage_mode_value(raw: &str) -> (m: Option<StorageMode>)
        ensures
            m == mode_from_value(raw@),
    {
        let v = chars_of(raw);
        let l = ascii_lower_chars(&v);
        if chars_eq_str(&l, "memory") {
            Some(StorageMode::Memory)
        } else if chars_eq_str(&l, "file") || chars_eq_str(&l, "file-durable") || chars_eq_str(
            &l,
            "durable",
        ) {
            Some(StorageMode::FileDurable)
        } else if chars_eq_str(&l, "file-fast") || chars_eq_str(&l, "fast") {
            Some(StorageMode::FileFast)
        } else if chars_eq_str(&l, "acid") || chars_eq_str(&l, "redb") {
            Some(StorageMode::Acid)
        } else {
            None
        }
    }

    /// The acid shard count from an `ACID_SHARD_COUNT` value.
    fn parse_acid_shard_count(raw: &Option<String>) -> (n: usize)
        ensures
            n == acid_shard_count_from(opt_chars(*raw)),
    {
        let value = match raw {
            None => {
                return 16;
            },
            Some(r) => match parse_u64(r.as_str()) {
                None => {
                    return 16;
                },
                Some(n) => n,
            },
        };
        if value > 256 || value < 1 {
            return 16;
        }
        if !is_power_of_two(value) {
            return 16;
        }
        value as usize
    }

    /// Whether a setting value reads as true.
    fn parse_bool(raw: &str) -> (b: bool)
        ensures
            b == is_true_text(raw@),
    {
        let v = chars_of(raw);
        chars_eq_str(&v, "1") || chars_eq_str(&v, "true") || chars_eq_str(&v, "TRUE")
            || chars_eq_str(&v, "True")
    }
}

/// Whether `n` is a power of two.
fn is_power_of_two(n: u64) -> (b: bool)
    ensures
        b == is_pow2(n as nat),
{
    let mut m = n;
    while m > 1 && m % 2 == 0
        invariant
            is_pow2(m as nat) == is_pow2(n as nat),
        decreases m,
    {
        m = m / 2;
    }
    m == 1
}

/// A `u64` setting value, or `default`.
fn setting_u64(v: &Option<String>, default: u64) -> (n: u64)
    ensures
        n == u64_setting(*v, default),
{
    match v {
        Some(s) => match parse_u64(s.as_str()) {
            Some(n) => n,
            None => default,
        },
        None => default,
    }
}

/// A `u16` setting value, or `default`.
fn setting_u16(v: &Option<String>, default: u16) -> (n: u16)
    ensures
        n == u16_setting(*v, default),
{
    match v {
        Some(s) => match parse_u64(s.as_str()) {
            Some(n) => if n <= 65535 {
                n as u16
            } else {
                default
            },
            None => default,
        },
        None => default,
    }
}

/// A string setting value, or `default`.
fn setting_text(v: Option<String>, default: &str) -> (s: String)
    ensures
        s@ == text_setting(v, default@),
{
    match v {
        Some(s) => s,
        None => String::from_str(default),
    }
}

impl Default for Config {
    fn default() -> (c: Config)
        ensures
            c.port == 4437,
            c.max_memory_bytes == 104857600,
            c.max_stream_bytes == 10485760,
            c.cors_origins@ == "*"@,
            c.long_poll_timeout == duration_of_secs(30),
            c.sse_reconnect_interval_secs == 60,
            c.storage_mode == StorageMode::Memory,
            c.data_dir@ == "./data/streams"@,
            c.acid_shard_count == 16,
            c.tls_cert_path is None,
            c.tls_key_path is None,
    {
        Config {
            port: 4437,
            max_memory_bytes: 100 * 1024 * 1024,
            max_stream_bytes: 10 * 1024 * 1024,
            cors_origins: String::from_str("*"),
            long_poll_timeout: duration_from_secs(30),
            sse_reconnect_interval_secs: 60,
            storage_mode: StorageMode::Memory,
            data_dir: String::from_str("./data/streams"),
            acid_shard_count: 16,
            tls_cert_path: None,
            tls_key_path: None,
        }
    }
}

/// Typed wrapper for the long-poll timeout.
#[derive(Debug, Clone, Copy)]
pub struct LongPollTimeout(pub Duration);

/// Typed wrapper for the SSE reconnect interval in seconds (0 = disabled).
#[derive(Debug, Clone, Copy)]
pub struct SseReconnectInterval(pub u64);

} // verus!
