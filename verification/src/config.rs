//! Sidecar configuration types and their default values.

use vstd::prelude::*;
use vstd::string::StringExecFns;

use crate::primitives::ChainId;

verus! {

/// Default HTTP listen address.
pub open spec fn spec_default_listen_addr() -> Seq<char> {
    "0.0.0.0:8080"@
}

/// Default HTTP read/write timeout, in seconds.
pub open spec fn spec_default_timeout() -> u64 {
    30
}

/// Default delay between publisher reconnection attempts, in seconds.
pub open spec fn spec_default_reconnect_delay() -> u64 {
    5
}

/// Default number of publisher connection attempts.
pub open spec fn spec_default_max_retries() -> u32 {
    10
}

/// Default log level.
pub open spec fn spec_default_log_level() -> Seq<char> {
    "info"@
}

/// Default log format.
pub open spec fn spec_default_log_format() -> Seq<char> {
    "json"@
}

pub fn default_listen_addr() -> (s: String)
    ensures
        s@ == spec_default_listen_addr(),
{
    String::from_str("0.0.0.0:8080")
}

pub fn default_timeout() -> (t: u64)
    ensures
        t == spec_default_timeout(),
{
    30
}

pub fn default_reconnect_delay() -> (t: u64)
    ensures
        t == spec_default_reconnect_delay(),
{
    5
}

pub fn default_max_retries() -> (n: u32)
    ensures
        n == spec_default_max_retries(),
{
    10
}

pub fn default_log_level() -> (s: String)
    ensures
        s@ == spec_default_log_level(),
{
    String::from_str("info")
}

pub fn default_log_format() -> (s: String)
    ensures
        s@ == spec_default_log_format(),
{
    String::from_str("json")
}


/// Top-level sidecar configuration.
#[derive(Debug)]
pub struct SidecarConfig {
    pub server: ServerConfig,
    pub publisher: PublisherConfig,
    pub chains: ChainsConfig,
    pub peers: PeersConfig,
    pub log: LogConfig,
}

/// HTTP server configuration.
#[derive(Debug)]
pub struct ServerConfig {
    pub listen_addr: String,
    pub read_timeout_secs: u64,
    pub write_timeout_secs: u64,
}

/// Publisher (SP) connection configuration.
#[derive(Debug)]
pub struct PublisherConfig {
    pub addr: String,
    pub reconnect_delay_secs: u64,
    pub max_retries: u32,
    pub enabled: bool,
}

/// Configuration for the chains this sidecar manages.
#[derive(Debug)]
pub struct ChainsConfig {
    pub list: Vec<ChainConfig>,
}

/// Individual chain configuration.
#[derive(Debug)]
pub struct ChainConfig {
    pub id: u64,
    pub name: String,
    pub rpc: String,
    pub mailbox_address: String,
    pub coordinator_key: String,
}

/// Peer sidecar configuration.
#[derive(Debug)]
pub struct PeersConfig {
    pub sidecars: Vec<PeerConfig>,
}

/// Individual peer sidecar.
#[derive(Debug)]
pub struct PeerConfig {
    pub chain_id: u64,
    pub addr: String,
}

/// Logging configuration.
#[derive(Debug)]
pub struct LogConfig {
    pub level: String,
    pub format: String,
}

impl ChainConfig {
    /// The chain's id as a `ChainId`.
    pub fn chain_id(&self) -> (c: ChainId)
        ensures
            c == ChainId(self.id),
    {
        ChainId(self.id)
    }
}

impl ServerConfig {
    /// The server section every field of which holds its default.
    pub open spec fn is_default(&self) -> bool {
        &&& self.listen_addr@ == spec_default_listen_addr()
        &&& self.read_timeout_secs == spec_default_timeout()
        &&& self.write_timeout_secs == spec_default_timeout()
    }
}

impl PublisherConfig {
    pub open spec fn is_default(&self) -> bool {
        &&& self.addr@ == Seq::<char>::empty()
        &&& self.reconnect_delay_secs == spec_default_reconnect_delay()
        &&& self.max_retries == spec_default_max_retries()
        &&& !self.enabled
    }
}

impl LogConfig {
    pub open spec fn is_default(&self) -> bool {
        &&& self.level@ == spec_default_log_level()
        &&& self.format@ == spec_default_log_format()
    }
}

impl SidecarConfig {
    pub open spec fn is_default(&self) -> bool {
        &&& self.server.is_default()
        &&& self.publisher.is_default()
        &&& self.chains.list@.len() == 0
        &&& self.peers.sidecars@.len() == 0
        &&& self.log.is_default()
    }
}

impl Default for ServerConfig {
    fn default() -> (r: Self)
        ensures
            r.is_default(),
    {
        ServerConfig {
            listen_addr: default_listen_addr(),
            read_timeout_secs: default_timeout(),
            write_timeout_secs: default_timeout(),
        }
    }
}

impl Default for PublisherConfig {
    fn default() -> (r: Self)
        ensures
            r.is_default(),
    {
        PublisherConfig {
            addr: String::new(),
            reconnect_delay_secs: default_reconnect_delay(),
            max_retries: default_max_retries(),
            enabled: false,
        }
    }
}

impl Default for ChainsConfig {
    fn default() -> (r: Self)
        ensures
            r.list@.len() == 0,
    {
        ChainsConfig { list: Vec::new() }
    }
}

impl Default for PeersConfig {
    fn default() -> (r: Self)
        ensures
            r.sidecars@.len() == 0,
    {
        PeersConfig { sidecars: Vec::new() }
    }
}

impl Default for LogConfig {
    fn default() -> (r: Self)
        ensures
            r.is_default(),
    {
        LogConfig { level: default_log_level(), format: default_log_format() }
    }
}

impl Default for SidecarConfig {
    fn default() -> (r: Self)
        ensures
            r.is_default(),
    {
        SidecarConfig {
            server: ServerConfig::default(),
            publisher: PublisherConfig::default(),
            chains: ChainsConfig::default(),
            peers: PeersConfig::default(),
            log: LogConfig::default(),
        }
    }
}

} // verus!
