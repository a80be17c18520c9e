//! Server configuration: the settings with their defaults, the check that
//! the two servers listen on different ports, and the command-line
//! overrides.

use vstd::prelude::*;
use crate::text::{chars_of, decimal, usize_to_string};

verus! {

broadcast use vstd::string::group_string_axioms;

/// Embedding service configuration.
#[derive(Debug, Clone, PartialEq, Eq)]
pub struct MlConfig {
    /// Enable ML features.
    pub enabled: bool,
    /// Backend type: local, openai, ollama.
    pub backend: String,
    /// Local model name.
    pub local_model: String,
    /// Local model device: cpu, cuda, metal.
    pub device: String,
    /// Maximum sequence length for the local model.
    pub max_length: usize,
    /// API endpoint for remote backends.
    pub api_endpoint: String,
    /// API key (for OpenAI).
    pub api_key: Option<String>,
    /// Model name for remote backends.
    pub api_model: String,
    /// Request timeout in seconds.
    pub timeout_secs: u64,
    /// Enable the embedding cache.
    pub cache_enabled: bool,
    /// Cache size.
    pub cache_size: usize,
}

impl Default for MlConfig {
    fn default() -> (r: MlConfig)
        ensures
            r.enabled,
            r.backend@ == "local"@,
            r.local_model@ == "sentence-transformers/all-MiniLM-L6-v2"@,
            r.device@ == "cpu"@,
            r.max_length == 512,
            r.api_endpoint@ == "https://api.openai.com/v1"@,
            r.api_key is None,
            r.api_model@ == "text-embedding-3-small"@,
            r.timeout_secs == 30,
            r.cache_enabled,
            r.cache_size == 10000,
    {
        MlConfig {
            enabled: true,
            backend: String::from_str("local"),
            local_model: String::from_str("sentence-transformers/all-MiniLM-L6-v2"),
            device: String::from_str("cpu"),
            max_length: 512,
            api_endpoint: String::from_str("https://api.openai.com/v1"),
            api_key: None,
            api_model: String::from_str("text-embedding-3-small"),
            timeout_secs: 30,
            cache_enabled: true,
            cache_size: 10000,
        }
    }
}

/// Server configuration.
#[derive(Debug, Clone, PartialEq, Eq)]
pub struct ServerConfig {
    /// Host address to bind to.
    pub host: String,
    /// gRPC server port.
    pub grpc_port: u16,
    /// REST server port.
    pub rest_port: u16,
    /// Enable the gRPC server.
    pub grpc_enabled: bool,
    /// Enable the REST server.
    pub rest_enabled: bool,
}

impl Default for ServerConfig {
    fn default() -> (r: ServerConfig)
        ensures
            r.host@ == "0.0.0.0"@,
            r.grpc_port == 50051,
            r.rest_port == 8080,
            r.grpc_enabled,
            r.rest_enabled,
    {
        ServerConfig {
            host: String::from_str("0.0.0.0"),
            grpc_port: 50051,
            rest_port: 8080,
            grpc_enabled: true,
            rest_enabled: true,
        }
    }
}

/// Storage configuration. The data directories are held as text.
#[derive(Debug, Clone, PartialEq, Eq)]
pub struct StorageConfig {
    /// Path to the RocksDB data directory.
    pub rocksdb_path: String,
    /// Path to the Lance data directory.
    pub lance_path: String,
    /// Maximum open files for RocksDB.
    pub max_open_files: i32,
    /// Cache size for RocksDB (in MB).
    pub cache_size_mb: usize,
    /// Enable the write-ahead log.
    pub wal_enabled: bool,
}

impl Default for StorageConfig {
    fn default() -> (r: StorageConfig)
        ensures
            r.rocksdb_path@ == "./data/rocksdb"@,
            r.lance_path@ == "./data/lance"@,
            r.max_open_files == 5000,
            r.cache_size_mb == 256,
            r.wal_enabled,
    {
        StorageConfig {
            rocksdb_path: String::from_str("./data/rocksdb"),
            lance_path: String::from_str("./data/lance"),
            max_open_files: 5000,
            cache_size_mb: 256,
            wal_enabled: true,
        }
    }
}

/// Logging configuration.
#[derive(Debug, Clone, PartialEq, Eq)]
pub struct LoggingConfig {
    /// Log level: trace, debug, info, warn, error.
    pub level: String,
    /// Enable JSON formatted logs.
    pub json_format: bool,
    /// Enable tracing output.
    pub tracing_enabled: bool,
}

impl Default for LoggingConfig {
    fn default() -> (r: LoggingConfig)
        ensures
            r.level@ == "info"@,
            !r.json_format,
            r.tracing_enabled,
    {
        LoggingConfig { level: String::from_str("info"), json_format: false, tracing_enabled: true }
    }
}

/// The two servers were given the same port.
#[derive(Debug, Clone, Copy, PartialEq, Eq)]
pub struct DuplicatePorts {
    /// The gRPC port.
    pub grpc: u16,
    /// The REST port.
    pub rest: u16,
}

impl DuplicatePorts {
    /// The message of this error.
    pub fn to_string(&self) -> (r: String)
        ensures
            r@ == "gRPC and REST ports cannot be the same: both are "@ + decimal(self.grpc as nat),
    {
        let n = usize_to_string(self.grpc as usize);
        String::from_str("gRPC and REST ports cannot be the same: both are ").concat(n.as_str())
    }
}

/// Checks that the gRPC and REST servers listen on different ports.
pub fn validate_server(server: &ServerConfig) -> (r: Result<(), DuplicatePorts>)
    ensures
        r is Ok <==> server.grpc_port != server.rest_port,
        r matches Err(e) ==> e.grpc == server.grpc_port && e.rest == server.rest_port,
{
    if server.grpc_port == server.rest_port {
        return Err(DuplicatePorts { grpc: server.grpc_port, rest: server.rest_port });
    }
    Ok(())
}

/// Applies the settings given on the command line: each one given
/// replaces the configured value.
pub fn apply_cli_overrides(
    server: &mut ServerConfig,
    logging: &mut LoggingConfig,
    host: Option<String>,
    grpc_port: Option<u16>,
    rest_port: Option<u16>,
    log_level: Option<String>,
)
    ensures
        final(server).host == (match host {
            Some(h) => h,
            None => old(server).host,
        }),
        final(server).grpc_port == (match grpc_port {
            Some(p) => p,
            None => old(server).grpc_port,
        }),
        final(server).rest_port == (match rest_port {
            Some(p) => p,
            None => old(server).rest_port,
        }),
        final(server).grpc_enabled == old(server).grpc_enabled,
        final(server).rest_enabled == old(server).rest_enabled,
        final(logging).level == (match log_level {
            Some(l) => l,
            None => old(logging).level,
        }),
        final(logging).json_format == old(logging).json_format,
        final(logging).tracing_enabled == old(logging).tracing_enabled,
{
    match host {
        Some(h) => {
            server.host = h;
        },
        None => {},
    }
    match grpc_port {
        Some(p) => {
            server.grpc_port = p;
        },
        None => {},
    }
    match rest_port {
        Some(p) => {
            server.rest_port = p;
        },
        None => {},
    }
    match log_level {
        Some(l) => {
            logging.level = l;
        },
        None => {},
    }
}

/// Every char of the text is an ASCII digit.
pub open spec fn all_digits(s: Seq<char>) -> bool {
    forall|i: int| 0 <= i < s.len() ==> '0' <= #[trigger] s[i] && s[i] <= '9'
}

/// The number that a text of ASCII digits spells in base ten.
pub open spec fn digits_value(s: Seq<char>) -> int
    decreases s.len(),
{
    if s.len() == 0 {
        0
    } else {
        digits_value(s.drop_last()) * 10 + (s.last() as int - '0' as int)
    }
}

/// The port number a text spells: an optional `+`, then one or more ASCII
/// digits whose value fits in 16 bits; any other text spells none.
pub open spec fn parsed_port(s: Seq<char>) -> Option<u16> {
    let d = if s.len() > 0 && s[0] == '+' { s.drop_first() } else { s };
    if d.len() > 0 && all_digits(d) && digits_value(d) <= 65535 {
        Some(digits_value(d) as u16)
    } else {
        None
    }
}

/// The value a text of digits spells never falls when digits are added.
proof fn lemma_digits_prefix(s: Seq<char>, j: int)
    requires
        0 <= j <= s.len(),
        all_digits(s),
    ensures
        0 <= digits_value(s.take(j)) <= digits_value(s),
    decreases s.len(),
{
    if s.len() > 0 {
        if j == s.len() {
            assert(s.take(j) =~= s);
        } else {
            assert(all_digits(s.drop_last()));
            assert(s.drop_last().take(j) =~= s.take(j));
            lemma_digits_prefix(s.drop_last(), j);
            let l = s.len() - 1;
            assert('0' <= s[l] && s[l] <= '9');
        }
        lemma_digits_prefix(s.drop_last(), s.len() - 1);
        assert(s.drop_last().take(s.len() - 1) =~= s.drop_last());
    }
}

/// Reads a port number as `str::parse::<u16>` does: an optional `+`, then
/// one or more ASCII digits whose value fits in 16 bits.
fn parse_port(s: &str) -> (r: Option<u16>)
    ensures
        r == parsed_port(s@),
{
    let v = chars_of(s);
    let mut i: usize = 0;
    if v.len() > 0 && v[0] == '+' {
        i = 1;
    }
    let start = i;
    let ghost d = v@.subrange(start as int, v@.len() as int);
    proof {
        if v@.len() > 0 && v@[0] == '+' {
            assert(d =~= s@.drop_first());
        } else {
            assert(d =~= s@);
        }
    }
    if i >= v.len() {
        return None;
    }
    let mut acc: u32 = 0;
    while i < v.len()
        invariant
            start <= i <= v@.len(),
            v@ == s@,
            d == v@.subrange(start as int, v@.len() as int),
            d == (if s@.len() > 0 && s@[0] == '+' { s@.drop_first() } else { s@ }),
            d.len() > 0,
            all_digits(v@.subrange(start as int, i as int)),
            acc == digits_value(v@.subrange(start as int, i as int)),
            acc <= 65535,
        decreases v@.len() - i,
    {
        let ghost done = v@.subrange(start as int, i as int);
        let c = v[i];
        if !('0' <= c && c <= '9') {
            proof {
                assert(d[i - start] == c);
            }
            return None;
        }
        let digit: u32 = (c as u32) - ('0' as u32);
        let next: u32 = acc * 10 + digit;
        proof {
            let now = v@.subrange(start as int, i + 1);
            assert(now.drop_last() =~= done);
            assert(now.last() == c);
            assert(next == digits_value(now));
            assert(all_digits(now)) by {
                assert forall|t: int| 0 <= t < now.len() implies '0' <= #[trigger] now[t] && now[t] <= '9' by {
                    if t < done.len() {
                        assert(now[t] == done[t]);
                    }
                }
            }
            if next > 65535 && all_digits(d) {
                assert(d.take(i + 1 - start) =~= now);
                lemma_digits_prefix(d, i + 1 - start);
            }
        }
        if next > 65535 {
            return None;
        }
        acc = next;
        i = i + 1;
    }
    proof {
        assert(v@.subrange(start as int, i as int) =~= d);
    }
    Some(acc as u16)
}

/// The settings read from the environment, each one when it is set.
#[derive(Debug, Clone, PartialEq, Eq)]
pub struct EnvOverrides {
    /// Server host.
    pub host: Option<String>,
    /// gRPC port, as text.
    pub grpc_port: Option<String>,
    /// REST port, as text.
    pub rest_port: Option<String>,
    /// RocksDB path.
    pub rocksdb_path: Option<String>,
    /// Lance path.
    pub lance_path: Option<String>,
    /// Log level.
    pub log_level: Option<String>,
    /// ML backend.
    pub ml_backend: Option<String>,
    /// ML API key.
    pub ml_api_key: Option<String>,
    /// ML API endpoint.
    pub ml_api_endpoint: Option<String>,
}

/// A setting replaced by the override when it is given.
pub open spec fn overridden(current: Seq<char>, o: Option<String>) -> Seq<char> {
    match o {
        Some(v) => v@,
        None => current,
    }
}

/// A port replaced by the override when it is given and reads as a port.
pub open spec fn overridden_port(current: u16, o: Option<String>) -> u16 {
    match o {
        Some(v) => match parsed_port(v@) {
            Some(p) => p,
            None => current,
        },
        None => current,
    }
}

fn override_text(target: &mut String, o: &Option<String>)
    ensures
        final(target)@ == overridden(old(target)@, *o),
{
    match o {
        Some(v) => {
            *target = v.clone();
        },
        None => {},
    }
}

fn override_port(target: &mut u16, o: &Option<String>)
    ensures
        *final(target) == overridden_port(*old(target), *o),
{
    match o {
        Some(v) => match parse_port(v.as_str()) {
            Some(p) => {
                *target = p;
            },
            None => {},
        },
        None => {},
    }
}

/// Applies the settings read from the environment: each one set replaces
/// the configured value; a port that does not read as a port number is
/// ignored; an API key set becomes the key.
pub fn apply_env_overrides(
    server: &mut ServerConfig,
    storage: &mut StorageConfig,
    logging: &mut LoggingConfig,
    ml: &mut MlConfig,
    env: &EnvOverrides,
)
    ensures
        final(server).host@ == overridden(old(server).host@, env.host),
        final(server).grpc_port == overridden_port(old(server).grpc_port, env.grpc_port),
        final(server).rest_port == overridden_port(old(server).rest_port, env.rest_port),
        final(server).grpc_enabled == old(server).grpc_enabled,
        final(server).rest_enabled == old(server).rest_enabled,
        final(storage).rocksdb_path@ == overridden(old(storage).rocksdb_path@, env.rocksdb_path),
        final(storage).lance_path@ == overridden(old(storage).lance_path@, env.lance_path),
        final(storage).max_open_files == old(storage).max_open_files,
        final(storage).cache_size_mb == old(storage).cache_size_mb,
        final(storage).wal_enabled == old(storage).wal_enabled,
        final(logging).level@ == overridden(old(logging).level@, env.log_level),
        final(logging).json_format == old(logging).json_format,
        final(logging).tracing_enabled == old(logging).tracing_enabled,
        final(ml).backend@ == overridden(old(ml).backend@, env.ml_backend),
        final(ml).api_endpoint@ == overridden(old(ml).api_endpoint@, env.ml_api_endpoint),
        env.ml_api_key matches Some(k) ==> (final(ml).api_key matches Some(x) && x@ == k@),
        env.ml_api_key is None ==> final(ml).api_key == old(ml).api_key,
        final(ml).enabled == old(ml).enabled,
        final(ml).max_length == old(ml).max_length,
        final(ml).timeout_secs == old(ml).timeout_secs,
        final(ml).cache_enabled == old(ml).cache_enabled,
        final(ml).cache_size == old(ml).cache_size,
{
    override_text(&mut server.host, &env.host);
    override_port(&mut server.grpc_port, &env.grpc_port);
    override_port(&mut server.rest_port, &env.rest_port);
    override_text(&mut storage.rocksdb_path, &env.rocksdb_path);
    override_text(&mut storage.lance_path, &env.lance_path);
    override_text(&mut logging.level, &env.log_level);
    override_text(&mut ml.backend, &env.ml_backend);
    match &env.ml_api_key {
        Some(k) => {
            ml.api_key = Some(k.clone());
        },
        None => {},
    }
    override_text(&mut ml.api_endpoint, &env.ml_api_endpoint);
}

} // verus!
