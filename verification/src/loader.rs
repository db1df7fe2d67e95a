//! Building the sidecar configuration from a file layer and environment
//! overrides.
//!
//! The file layer holds what a YAML file set, field by field. Environment
//! variables use the `SIDECAR_` prefix and `__` between nested keys (for
//! example `SIDECAR_SERVER__LISTEN_ADDR`); names compare without regard to
//! ASCII case, and the last variable that names a field wins. The environment
//! takes precedence over the file, which takes precedence over the defaults.

use vstd::prelude::*;
use vstd::string::{StrSliceExecFns, StringExecFns};

use crate::config::{
    default_listen_addr, default_log_format, default_log_level, default_max_retries,
    default_reconnect_delay, default_timeout, spec_default_listen_addr, spec_default_log_format,
    spec_default_log_level, spec_default_max_retries, spec_default_reconnect_delay,
    spec_default_timeout, ChainConfig, ChainsConfig, LogConfig, PeerConfig, PeersConfig,
    PublisherConfig, ServerConfig, SidecarConfig,
};

verus! {

/// Server settings given by a configuration file.
#[derive(Debug)]
pub struct ServerLayer {
    pub listen_addr: Option<String>,
    pub read_timeout_secs: Option<u64>,
    pub write_timeout_secs: Option<u64>,
}

/// Publisher settings given by a configuration file.
#[derive(Debug)]
pub struct PublisherLayer {
    pub addr: Option<String>,
    pub reconnect_delay_secs: Option<u64>,
    pub max_retries: Option<u32>,
    pub enabled: Option<bool>,
}

/// One chain entry of a configuration file.
#[derive(Debug)]
pub struct ChainLayer {
    pub id: Option<u64>,
    pub name: Option<String>,
    pub rpc: Option<String>,
    pub mailbox_address: Option<String>,
    pub coordinator_key: Option<String>,
}

/// One peer entry of a configuration file.
#[derive(Debug)]
pub struct PeerLayer {
    pub chain_id: Option<u64>,
    pub addr: Option<String>,
}

/// Log settings given by a configuration file.
#[derive(Debug)]
pub struct LogLayer {
    pub level: Option<String>,
    pub format: Option<String>,
}

/// Everything a configuration file set; `chains` is the `chains.list`
/// sequence and `peers` the `peers.sidecars` sequence.
#[derive(Debug)]
pub struct ConfigLayer {
    pub server: ServerLayer,
    pub publisher: PublisherLayer,
    pub chains: Option<Vec<ChainLayer>>,
    pub peers: Option<Vec<PeerLayer>>,
    pub log: LogLayer,
}

/// Why a configuration could not be built.
#[derive(Debug)]
pub enum LoadError {
    /// The configuration file could not be read or parsed.
    File(String),
    /// An environment variable holds a value of the wrong type for its field.
    InvalidValue { key: String },
    /// A chain or peer entry lacks a required field.
    MissingField { field: String },
}

/// The fields that environment variables can set.
#[derive(Debug, Clone, Copy, PartialEq, Eq, Structural)]
pub enum EnvKey {
    ServerListenAddr,
    ServerReadTimeout,
    ServerWriteTimeout,
    PublisherAddr,
    PublisherReconnectDelay,
    PublisherMaxRetries,
    PublisherEnabled,
    LogLevel,
    LogFormat,
}

/// The environment variable of a field, in lower case.
pub open spec fn env_key_name(k: EnvKey) -> Seq<char> {
    match k {
        EnvKey::ServerListenAddr => "sidecar_server__listen_addr"@,
        EnvKey::ServerReadTimeout => "sidecar_server__read_timeout_secs"@,
        EnvKey::ServerWriteTimeout => "sidecar_server__write_timeout_secs"@,
        EnvKey::PublisherAddr => "sidecar_publisher__addr"@,
        EnvKey::PublisherReconnectDelay => "sidecar_publisher__reconnect_delay_secs"@,
        EnvKey::PublisherMaxRetries => "sidecar_publisher__max_retries"@,
        EnvKey::PublisherEnabled => "sidecar_publisher__enabled"@,
        EnvKey::LogLevel => "sidecar_log__level"@,
        EnvKey::LogFormat => "sidecar_log__format"@,
    }
}

pub fn env_key_str(k: EnvKey) -> (s: &'static str)
    ensures
        s@ == env_key_name(k),
{
    match k {
        EnvKey::ServerListenAddr => "sidecar_server__listen_addr",
        EnvKey::ServerReadTimeout => "sidecar_server__read_timeout_secs",
        EnvKey::ServerWriteTimeout => "sidecar_server__write_timeout_secs",
        EnvKey::PublisherAddr => "sidecar_publisher__addr",
        EnvKey::PublisherReconnectDelay => "sidecar_publisher__reconnect_delay_secs",
        EnvKey::PublisherMaxRetries => "sidecar_publisher__max_retries",
        EnvKey::PublisherEnabled => "sidecar_publisher__enabled",
        EnvKey::LogLevel => "sidecar_log__level",
        EnvKey::LogFormat => "sidecar_log__format",
    }
}

/// Code point of the ASCII lower case of a character.
pub open spec fn lower_code(c: char) -> u32 {
    if 'A' <= c && c <= 'Z' {
        ((c as u32) + 32) as u32
    } else {
        c as u32
    }
}

/// `name` equals `lower` (which is in lower case) regardless of ASCII case.
pub open spec fn name_matches(name: Seq<char>, lower: Seq<char>) -> bool {
    &&& name.len() == lower.len()
    &&& forall|i: int| 0 <= i < name.len() ==> lower_code(name[i]) == lower[i] as u32
}

/// The value of the last variable in `env` that names field `k`.
pub open spec fn env_value(env: Seq<(Seq<char>, Seq<char>)>, k: EnvKey) -> Option<Seq<char>>
    decreases env.len(),
{
    if env.len() == 0 {
        None
    } else if name_matches(env.last().0, env_key_name(k)) {
        Some(env.last().1)
    } else {
        env_value(env.drop_last(), k)
    }
}

/// The `u64` that the `config` crate reads from an environment value (with
/// `try_parsing`, as `Config::get::<u64>` converts it); `None` when it gives none.
pub uninterp spec fn config_env_u64(value: Seq<char>) -> Option<u64>;

/// The `u32` that the `config` crate reads from an environment value.
pub uninterp spec fn config_env_u32(value: Seq<char>) -> Option<u32>;

/// The `bool` that the `config` crate reads from an environment value.
pub uninterp spec fn config_env_bool(value: Seq<char>) -> Option<bool>;

/// The string that the `config` crate reads from an environment value.
pub uninterp spec fn config_env_string(value: Seq<char>) -> Option<Seq<char>>;

/// The file's value, else the default.
pub open spec fn file_or<T>(file: Option<T>, default: T) -> T {
    match file {
        Some(f) => f,
        None => default,
    }
}

/// A string field: the environment's value as the `config` crate reads it,
/// else the file's, else the default; `None` when the environment's value
/// gives no string.
pub open spec fn layered_str(env: Seq<(Seq<char>, Seq<char>)>, k: EnvKey, file: Option<Seq<char>>, default: Seq<char>) -> Option<Seq<char>> {
    match env_value(env, k) {
        Some(v) => config_env_string(v),
        None => Some(file_or(file, default)),
    }
}

/// A `u64` field, in the same way.
pub open spec fn layered_u64(env: Seq<(Seq<char>, Seq<char>)>, k: EnvKey, file: Option<u64>, default: u64) -> Option<u64> {
    match env_value(env, k) {
        Some(v) => config_env_u64(v),
        None => Some(file_or(file, default)),
    }
}

/// A `u32` field, in the same way.
pub open spec fn layered_u32(env: Seq<(Seq<char>, Seq<char>)>, k: EnvKey, file: Option<u32>, default: u32) -> Option<u32> {
    match env_value(env, k) {
        Some(v) => config_env_u32(v),
        None => Some(file_or(file, default)),
    }
}

/// A boolean field, in the same way.
pub open spec fn layered_bool(env: Seq<(Seq<char>, Seq<char>)>, k: EnvKey, file: Option<bool>, default: bool) -> Option<bool> {
    match env_value(env, k) {
        Some(v) => config_env_bool(v),
        None => Some(file_or(file, default)),
    }
}

pub open spec fn opt_str(o: Option<String>) -> Option<Seq<char>> {
    match o {
        Some(s) => Some(s@),
        None => None,
    }
}

/// Whether field `k` has an environment value that it cannot take.
pub open spec fn env_invalid(env: Seq<(Seq<char>, Seq<char>)>, k: EnvKey) -> bool {
    match env_value(env, k) {
        Some(v) => match k {
            EnvKey::ServerReadTimeout | EnvKey::ServerWriteTimeout | EnvKey::PublisherReconnectDelay => config_env_u64(v) is None,
            EnvKey::PublisherMaxRetries => config_env_u32(v) is None,
            EnvKey::PublisherEnabled => config_env_bool(v) is None,
            _ => config_env_string(v) is None,
        },
        None => false,
    }
}

/// The first field, in the order of the configuration (server, publisher,
/// log), whose environment value it cannot take.
pub open spec fn first_invalid(env: Seq<(Seq<char>, Seq<char>)>) -> Option<EnvKey> {
    if env_invalid(env, EnvKey::ServerListenAddr) {
        Some(EnvKey::ServerListenAddr)
    } else if env_invalid(env, EnvKey::ServerReadTimeout) {
        Some(EnvKey::ServerReadTimeout)
    } else if env_invalid(env, EnvKey::ServerWriteTimeout) {
        Some(EnvKey::ServerWriteTimeout)
    } else if env_invalid(env, EnvKey::PublisherAddr) {
        Some(EnvKey::PublisherAddr)
    } else if env_invalid(env, EnvKey::PublisherReconnectDelay) {
        Some(EnvKey::PublisherReconnectDelay)
    } else if env_invalid(env, EnvKey::PublisherMaxRetries) {
        Some(EnvKey::PublisherMaxRetries)
    } else if env_invalid(env, EnvKey::PublisherEnabled) {
        Some(EnvKey::PublisherEnabled)
    } else if env_invalid(env, EnvKey::LogLevel) {
        Some(EnvKey::LogLevel)
    } else if env_invalid(env, EnvKey::LogFormat) {
        Some(EnvKey::LogFormat)
    } else {
        None
    }
}

/// Whether `c` is `lower` regardless of ASCII case.
fn char_matches(c: char, lower: char) -> (r: bool)
    ensures
        r == (lower_code(c) == lower as u32),
{
    if 'A' <= c && c <= 'Z' {
        (c as u32) + 32 == lower as u32
    } else {
        c as u32 == lower as u32
    }
}

/// Whether `name` is `lower` regardless of ASCII case.
pub fn names_match(name: &str, lower: &str) -> (r: bool)
    ensures
        r == name_matches(name@, lower@),
{
    let n = name.unicode_len();
    let m = lower.unicode_len();
    if n != m {
        return false;
    }
    let mut i: usize = 0;
    while i < n
        invariant
            i <= n,
            n == name@.len(),
            m == lower@.len(),
            n == m,
            forall|j: int| 0 <= j < i ==> lower_code(name@[j]) == lower@[j] as u32,
        decreases n - i,
    {
        if !char_matches(name.get_char(i), lower.get_char(i)) {
            return false;
        }
        i = i + 1;
    }
    true
}

/// The value of the last variable in `env` that names field `k`.
pub fn env_lookup(env: &Vec<(String, String)>, k: EnvKey) -> (r: Option<&String>)
    ensures
        match r {
            Some(v) => env_value(env.deep_view(), k) == Some(v@),
            None => env_value(env.deep_view(), k) is None,
        },
{
    let key = env_key_str(k);
    let mut i: usize = env.len();
    assert(env.deep_view().subrange(0, i as int) =~= env.deep_view());
    while i > 0
        invariant
            i <= env@.len(),
            key@ == env_key_name(k),
            env_value(env.deep_view(), k) == env_value(env.deep_view().subrange(0, i as int), k),
        decreases i,
    {
        let ghost s = env.deep_view().subrange(0, i as int);
        proof {
            assert(s.drop_last() =~= env.deep_view().subrange(0, i as int - 1));
            assert(s.last() == env.deep_view()[i as int - 1]);
        }
        if names_match(env[i - 1].0.as_str(), key) {
            return Some(&env[i - 1].1);
        }
        i = i - 1;
    }
    None
}

/// Calls the `config` crate on one environment variable holding `value`
/// (`Environment::with_prefix(..).try_parsing(true)`, then
/// `Config::get::<u64>`): the result is named `config_env_u64`.
#[verifier::external_body]
fn env_as_u64(value: &str) -> (r: Option<u64>)
    ensures
        r == config_env_u64(value@),
{
    let mut m = config::Map::new();
    m.insert("SIDECAR_V".to_string(), value.to_string());
    let env = config::Environment::with_prefix("SIDECAR").try_parsing(true).source(Some(m));
    match config::Config::builder().add_source(env).build() {
        Ok(c) => c.get::<u64>("v").ok(),
        Err(_) => None,
    }
}

/// As `env_as_u64`, with `Config::get::<u32>`; named `config_env_u32`.
#[verifier::external_body]
fn env_as_u32(value: &str) -> (r: Option<u32>)
    ensures
        r == config_env_u32(value@),
{
    let mut m = config::Map::new();
    m.insert("SIDECAR_V".to_string(), value.to_string());
    let env = config::Environment::with_prefix("SIDECAR").try_parsing(true).source(Some(m));
    match config::Config::builder().add_source(env).build() {
        Ok(c) => c.get::<u32>("v").ok(),
        Err(_) => None,
    }
}

/// As `env_as_u64`, with `Config::get::<bool>`; named `config_env_bool`.
#[verifier::external_body]
fn env_as_bool(value: &str) -> (r: Option<bool>)
    ensures
        r == config_env_bool(value@),
{
    let mut m = config::Map::new();
    m.insert("SIDECAR_V".to_string(), value.to_string());
    let env = config::Environment::with_prefix("SIDECAR").try_parsing(true).source(Some(m));
    match config::Config::builder().add_source(env).build() {
        Ok(c) => c.get::<bool>("v").ok(),
        Err(_) => None,
    }
}

/// As `env_as_u64`, with `Config::get_string`; named `config_env_string`.
#[verifier::external_body]
fn env_as_string(value: &str) -> (r: Option<String>)
    ensures
        match r {
            Some(s) => config_env_string(value@) == Some(s@),
            None => config_env_string(value@) is None,
        },
{
    let mut m = config::Map::new();
    m.insert("SIDECAR_V".to_string(), value.to_string());
    let env = config::Environment::with_prefix("SIDECAR").try_parsing(true).source(Some(m));
    match config::Config::builder().add_source(env).build() {
        Ok(c) => c.get_string("v").ok(),
        Err(_) => None,
    }
}

fn layer_str(env: &Vec<(String, String)>, k: EnvKey, file: Option<String>, default: String) -> (r: Option<String>)
    ensures
        match r {
            Some(s) => layered_str(env.deep_view(), k, opt_str(file), default@) == Some(s@),
            None => layered_str(env.deep_view(), k, opt_str(file), default@) is None,
        },
{
    match env_lookup(env, k) {
        Some(v) => env_as_string(v.as_str()),
        None => match file {
            Some(f) => Some(f),
            None => Some(default),
        },
    }
}

fn layer_u64(env: &Vec<(String, String)>, k: EnvKey, file: Option<u64>, default: u64) -> (r: Option<u64>)
    ensures
        r == layered_u64(env.deep_view(), k, file, default),
{
    match env_lookup(env, k) {
        Some(v) => env_as_u64(v.as_str()),
        None => match file {
            Some(f) => Some(f),
            None => Some(default),
        },
    }
}

fn layer_u32(env: &Vec<(String, String)>, k: EnvKey, file: Option<u32>, default: u32) -> (r: Option<u32>)
    ensures
        r == layered_u32(env.deep_view(), k, file, default),
{
    match env_lookup(env, k) {
        Some(v) => env_as_u32(v.as_str()),
        None => match file {
            Some(f) => Some(f),
            None => Some(default),
        },
    }
}

fn layer_bool(env: &Vec<(String, String)>, k: EnvKey, file: Option<bool>, default: bool) -> (r: Option<bool>)
    ensures
        r == layered_bool(env.deep_view(), k, file, default),
{
    match env_lookup(env, k) {
        Some(v) => env_as_bool(v.as_str()),
        None => match file {
            Some(f) => Some(f),
            None => Some(default),
        },
    }
}

/// A file layer that sets nothing.
pub open spec fn empty_layer() -> ConfigLayer {
    ConfigLayer {
        server: ServerLayer { listen_addr: None, read_timeout_secs: None, write_timeout_secs: None },
        publisher: PublisherLayer { addr: None, reconnect_delay_secs: None, max_retries: None, enabled: None },
        chains: None,
        peers: None,
        log: LogLayer { level: None, format: None },
    }
}

impl ConfigLayer {
    pub fn empty() -> (l: Self)
        ensures
            l == empty_layer(),
    {
        ConfigLayer {
            server: ServerLayer { listen_addr: None, read_timeout_secs: None, write_timeout_secs: None },
            publisher: PublisherLayer { addr: None, reconnect_delay_secs: None, max_retries: None, enabled: None },
            chains: None,
            peers: None,
            log: LogLayer { level: None, format: None },
        }
    }
}

/// The file layer in effect: the file's, or one that sets nothing.
pub open spec fn effective_layer(file: Option<ConfigLayer>) -> ConfigLayer {
    match file {
        Some(f) => f,
        None => empty_layer(),
    }
}

/// The entries of an optional chain list.
pub open spec fn chain_list(o: Option<Vec<ChainLayer>>) -> Seq<ChainLayer> {
    match o {
        Some(v) => v@,
        None => Seq::empty(),
    }
}

/// The entries of an optional peer list.
pub open spec fn peer_list(o: Option<Vec<PeerLayer>>) -> Seq<PeerLayer> {
    match o {
        Some(v) => v@,
        None => Seq::empty(),
    }
}

/// The chain entries of a layer.
pub open spec fn chain_layers(f: ConfigLayer) -> Seq<ChainLayer> {
    chain_list(f.chains)
}

/// The peer entries of a layer.
pub open spec fn peer_layers(f: ConfigLayer) -> Seq<PeerLayer> {
    peer_list(f.peers)
}

/// Every chain entry has its id.
pub open spec fn chain_entries_complete(ls: Seq<ChainLayer>) -> bool {
    forall|i: int| 0 <= i < ls.len() ==> (#[trigger] ls[i]).id is Some
}

/// Every peer entry has its chain id and address.
pub open spec fn peer_entries_complete(ls: Seq<PeerLayer>) -> bool {
    forall|i: int| 0 <= i < ls.len() ==> (#[trigger] ls[i]).chain_id is Some && ls[i].addr is Some
}

/// Some peer entry lacks the field named `field` (`chain_id` or `addr`).
pub open spec fn peer_entry_lacks(ls: Seq<PeerLayer>, field: Seq<char>) -> bool {
    exists|i: int|
        0 <= i < ls.len() && ((field == "chain_id"@ && (#[trigger] ls[i]).chain_id is None) || (field == "addr"@
            && ls[i].addr is None))
}

pub open spec fn chains_complete(f: ConfigLayer) -> bool {
    chain_entries_complete(chain_layers(f))
}

pub open spec fn peers_complete(f: ConfigLayer) -> bool {
    peer_entries_complete(peer_layers(f))
}

/// A string that a layer may leave out, which then is empty.
pub open spec fn or_empty(o: Option<String>) -> Seq<char> {
    match o {
        Some(s) => s@,
        None => Seq::empty(),
    }
}

/// The chain configuration built from a complete chain entry.
pub open spec fn chain_built(c: ChainConfig, l: ChainLayer) -> bool {
    &&& c.id == l.id.unwrap()
    &&& c.name@ == or_empty(l.name)
    &&& c.rpc@ == or_empty(l.rpc)
    &&& c.mailbox_address@ == or_empty(l.mailbox_address)
    &&& c.coordinator_key@ == or_empty(l.coordinator_key)
}

/// The peer configuration built from a complete peer entry.
pub open spec fn peer_built(p: PeerConfig, l: PeerLayer) -> bool {
    &&& p.chain_id == l.chain_id.unwrap()
    &&& p.addr@ == l.addr.unwrap()@
}

/// The configuration that the layers give, field by field.
pub open spec fn config_built(cfg: SidecarConfig, f: ConfigLayer, env: Seq<(Seq<char>, Seq<char>)>) -> bool {
    &&& Some(cfg.server.listen_addr@) == layered_str(env, EnvKey::ServerListenAddr, opt_str(f.server.listen_addr), spec_default_listen_addr())
    &&& Some(cfg.server.read_timeout_secs) == layered_u64(env, EnvKey::ServerReadTimeout, f.server.read_timeout_secs, spec_default_timeout())
    &&& Some(cfg.server.write_timeout_secs) == layered_u64(env, EnvKey::ServerWriteTimeout, f.server.write_timeout_secs, spec_default_timeout())
    &&& Some(cfg.publisher.addr@) == layered_str(env, EnvKey::PublisherAddr, opt_str(f.publisher.addr), Seq::empty())
    &&& Some(cfg.publisher.reconnect_delay_secs) == layered_u64(env, EnvKey::PublisherReconnectDelay, f.publisher.reconnect_delay_secs, spec_default_reconnect_delay())
    &&& Some(cfg.publisher.max_retries) == layered_u32(env, EnvKey::PublisherMaxRetries, f.publisher.max_retries, spec_default_max_retries())
    &&& Some(cfg.publisher.enabled) == layered_bool(env, EnvKey::PublisherEnabled, f.publisher.enabled, false)
    &&& cfg.chains.list@.len() == chain_layers(f).len()
    &&& forall|i: int| 0 <= i < chain_layers(f).len() ==> chain_built(#[trigger] cfg.chains.list@[i], chain_layers(f)[i])
    &&& cfg.peers.sidecars@.len() == peer_layers(f).len()
    &&& forall|i: int| 0 <= i < peer_layers(f).len() ==> peer_built(#[trigger] cfg.peers.sidecars@[i], peer_layers(f)[i])
    &&& Some(cfg.log.level@) == layered_str(env, EnvKey::LogLevel, opt_str(f.log.level), spec_default_log_level())
    &&& Some(cfg.log.format@) == layered_str(env, EnvKey::LogFormat, opt_str(f.log.format), spec_default_log_format())
}

fn or_empty_string(o: Option<String>) -> (s: String)
    ensures
        s@ == or_empty(o),
{
    match o {
        Some(s) => s,
        None => String::new(),
    }
}

/// Build the chain list; `None` when an entry lacks its id.
fn build_chains(layers: Option<Vec<ChainLayer>>) -> (r: Option<Vec<ChainConfig>>)
    ensures
        ({
            let ls = chain_list(layers);
            match r {
                Some(cs) => chain_entries_complete(ls) && cs@.len() == ls.len()
                    && forall|i: int| 0 <= i < ls.len() ==> chain_built(#[trigger] cs@[i], ls[i]),
                None => !chain_entries_complete(ls),
            }
        }),
{
    let mut out: Vec<ChainConfig> = Vec::new();
    match layers {
        None => Some(out),
        Some(mut ls) => {
            let ghost orig = ls@;
            let ghost n = orig.len();
            while ls.len() > 0
                invariant
                    out@.len() + ls@.len() == n,
                    n == orig.len(),
                    ls@ == orig.subrange(out@.len() as int, n as int),
                    orig == chain_list(layers),
                    forall|j: int| 0 <= j < out@.len() ==> (#[trigger] orig[j]).id is Some,
                    forall|j: int| 0 <= j < out@.len() ==> chain_built(#[trigger] out@[j], orig[j]),
                decreases ls@.len(),
            {
                let ghost k = out@.len() as int;
                let l = ls.remove(0);
                proof {
                    assert(l == orig[k]);
                    assert(ls@ =~= orig.subrange(k + 1, n as int));
                }
                match l.id {
                    None => {
                        assert(orig[k].id is None);
                        return None;
                    },
                    Some(id) => {
                        let c = ChainConfig {
                            id,
                            name: or_empty_string(l.name),
                            rpc: or_empty_string(l.rpc),
                            mailbox_address: or_empty_string(l.mailbox_address),
                            coordinator_key: or_empty_string(l.coordinator_key),
                        };
                        out.push(c);
                    },
                }
            }
            Some(out)
        },
    }
}

/// Build the peer list; `None` when an entry lacks its chain id or address.
fn build_peers(layers: Option<Vec<PeerLayer>>) -> (r: Result<Vec<PeerConfig>, String>)
    ensures
        ({
            let ls = peer_list(layers);
            match r {
                Ok(ps) => peer_entries_complete(ls) && ps@.len() == ls.len()
                    && forall|i: int| 0 <= i < ls.len() ==> peer_built(#[trigger] ps@[i], ls[i]),
                Err(field) => peer_entry_lacks(ls, field@),
            }
        }),
{
    let mut out: Vec<PeerConfig> = Vec::new();
    match layers {
        None => Ok(out),
        Some(mut ls) => {
            let ghost orig = ls@;
            let ghost n = orig.len();
            while ls.len() > 0
                invariant
                    out@.len() + ls@.len() == n,
                    n == orig.len(),
                    ls@ == orig.subrange(out@.len() as int, n as int),
                    orig == peer_list(layers),
                    forall|j: int| 0 <= j < out@.len() ==> (#[trigger] orig[j]).chain_id is Some && orig[j].addr is Some,
                    forall|j: int| 0 <= j < out@.len() ==> peer_built(#[trigger] out@[j], orig[j]),
                decreases ls@.len(),
            {
                let ghost k = out@.len() as int;
                let l = ls.remove(0);
                proof {
                    assert(l == orig[k]);
                    assert(ls@ =~= orig.subrange(k + 1, n as int));
                }
                match (l.chain_id, l.addr) {
                    (None, _) => {
                        proof {
                            reveal_strlit("chain_id");
                        }
                        let field = String::from_str("chain_id");
                        assert(orig[k].chain_id is None && field@ == "chain_id"@);
                        return Err(field);
                    },
                    (_, None) => {
                        let field = String::from_str("addr");
                        assert(orig[k].addr is None && field@ == "addr"@);
                        return Err(field);
                    },
                    (Some(chain_id), Some(addr)) => {
                        out.push(PeerConfig { chain_id, addr });
                    },
                }
            }
            Ok(out)
        },
    }
}

/// Build the configuration from a file layer (`None` when there is no file)
/// and the environment variables `env` (name, value).
///
/// Fails when an environment variable holds a value its field cannot take
/// (the first such field, in the order server, publisher) or, failing that,
/// when a chain entry lacks its `id` or a peer entry its `chain_id` or `addr`.
pub fn load(file: Option<ConfigLayer>, env: &Vec<(String, String)>) -> (r: Result<SidecarConfig, LoadError>)
    ensures
        ({
            let f = effective_layer(file);
            let e = env.deep_view();
            match r {
                Ok(cfg) => first_invalid(e) is None && chains_complete(f) && peers_complete(f) && config_built(cfg, f, e),
                Err(LoadError::InvalidValue { key }) => first_invalid(e) is Some && key@ == env_key_name(first_invalid(e).unwrap()),
                Err(LoadError::MissingField { field }) => first_invalid(e) is None && ((!chains_complete(f) && field@ == "id"@) || (
                chains_complete(f) && peer_entry_lacks(peer_layers(f), field@))),
                Err(LoadError::File(_)) => false,
            }
        }),
{
    let f = match file {
        Some(f) => f,
        None => ConfigLayer::empty(),
    };
    let ghost fl = f;
    let ConfigLayer { server, publisher, chains, peers, log } = f;
    let listen = layer_str(env, EnvKey::ServerListenAddr, server.listen_addr, default_listen_addr());
    let read = layer_u64(env, EnvKey::ServerReadTimeout, server.read_timeout_secs, default_timeout());
    let write = layer_u64(env, EnvKey::ServerWriteTimeout, server.write_timeout_secs, default_timeout());
    let addr = layer_str(env, EnvKey::PublisherAddr, publisher.addr, String::new());
    let delay = layer_u64(env, EnvKey::PublisherReconnectDelay, publisher.reconnect_delay_secs, default_reconnect_delay());
    let retries = layer_u32(env, EnvKey::PublisherMaxRetries, publisher.max_retries, default_max_retries());
    let enabled = layer_bool(env, EnvKey::PublisherEnabled, publisher.enabled, false);
    let level = layer_str(env, EnvKey::LogLevel, log.level, default_log_level());
    let format = layer_str(env, EnvKey::LogFormat, log.format, default_log_format());
    let invalid: Option<EnvKey> = if listen.is_none() {
        Some(EnvKey::ServerListenAddr)
    } else if read.is_none() {
        Some(EnvKey::ServerReadTimeout)
    } else if write.is_none() {
        Some(EnvKey::ServerWriteTimeout)
    } else if addr.is_none() {
        Some(EnvKey::PublisherAddr)
    } else if delay.is_none() {
        Some(EnvKey::PublisherReconnectDelay)
    } else if retries.is_none() {
        Some(EnvKey::PublisherMaxRetries)
    } else if enabled.is_none() {
        Some(EnvKey::PublisherEnabled)
    } else if level.is_none() {
        Some(EnvKey::LogLevel)
    } else if format.is_none() {
        Some(EnvKey::LogFormat)
    } else {
        None
    };
    if let Some(k) = invalid {
        return Err(LoadError::InvalidValue { key: String::from_str(env_key_str(k)) });
    }
    let list = match build_chains(chains) {
        Some(l) => l,
        None => {
            return Err(LoadError::MissingField { field: String::from_str("id") });
        },
    };
    let sidecars = match build_peers(peers) {
        Ok(p) => p,
        Err(field) => {
            return Err(LoadError::MissingField { field });
        },
    };
    let cfg = SidecarConfig {
        server: ServerConfig {
            listen_addr: listen.unwrap(),
            read_timeout_secs: read.unwrap(),
            write_timeout_secs: write.unwrap(),
        },
        publisher: PublisherConfig {
            addr: addr.unwrap(),
            reconnect_delay_secs: delay.unwrap(),
            max_retries: retries.unwrap(),
            enabled: enabled.unwrap(),
        },
        chains: ChainsConfig { list },
        peers: PeersConfig { sidecars },
        log: LogConfig { level: level.unwrap(), format: format.unwrap() },
    };
    Ok(cfg)
}

} // verus!
