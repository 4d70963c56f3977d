//! Configuration snapshot consumed by the traffic core.

use vstd::prelude::*;

verus! {

broadcast use vstd::string::group_string_axioms;

/// Whole configuration of the server.
pub struct Config {
    pub server: ServerConfig,
    pub static_files: StaticConfig,
    pub admin: AdminConfig,
    pub proxy: ProxyConfig,
}

/// Listener settings.
pub struct ServerConfig {
    pub bind_address: String,
    pub port: u16,
    pub max_connections: u32,
}

/// Static file serving settings.
pub struct StaticConfig {
    pub enabled: bool,
    pub root: String,
    pub index_files: Vec<String>,
    pub compression: bool,
}

/// Administrative API settings.
pub struct AdminConfig {
    pub enabled: bool,
    pub bind_address: String,
    pub port: u16,
}

/// Reverse-proxy settings: members, routes, balancing and health checks.
pub struct ProxyConfig {
    pub enabled: bool,
    pub upstreams: Vec<UpstreamConfig>,
    pub routes: Vec<RouteConfig>,
    pub load_balancing: LoadBalancingMethod,
    pub health_check: HealthCheckGlobalConfig,
}

/// Static configuration of one backend member.
pub struct UpstreamConfig {
    pub name: String,
    pub address: String,
    pub port: u16,
    pub weight: u32,
    pub max_fails: usize,
    pub enabled: bool,
}

/// A proxy route of the configuration: optional host, optional path prefix,
/// and the member name it leads to.
pub struct RouteConfig {
    pub host: Option<String>,
    pub path: Option<String>,
    pub upstream: String,
}

/// The selection policy among healthy members.
#[derive(Clone, Copy, Debug, PartialEq, Eq, Structural)]
pub enum LoadBalancingMethod {
    RoundRobin,
    LeastConnections,
    Random,
    Weighted,
    IpHash,
}

/// Health probe settings; the interval and timeout are in seconds.
pub struct HealthCheckGlobalConfig {
    pub enabled: bool,
    pub interval_secs: u64,
    pub timeout_secs: u64,
    pub path: String,
    pub expected_status: u16,
}

/// Admission settings: token-bucket parameters, size limit, address lists
/// and automatic blocking. Addresses are 128-bit client keys (see
/// `rate_limiter::ipv4_key`); the block duration is in milliseconds.
pub struct RateLimitConfig {
    pub enabled: bool,
    pub requests_per_minute: u32,
    pub burst: u32,
    pub max_request_size: usize,
    pub whitelist: Vec<u128>,
    pub blacklist: Vec<u128>,
    pub auto_block_enabled: bool,
    pub block_duration_ms: u64,
}

/// Connection-flood protection settings; the window is in milliseconds.
pub struct DdosConfig {
    pub enabled: bool,
    pub max_connections_per_ip: u32,
    pub connection_rate_limit: u32,
    pub packet_rate_limit: u32,
    pub window_size_ms: u64,
}

pub fn default_bind_address() -> (r: String)
    ensures
        r@ == "0.0.0.0"@,
{
    "0.0.0.0".to_string()
}

pub fn default_port() -> (r: u16)
    ensures
        r == 8080,
{
    8080
}

pub fn default_max_connections() -> (r: u32)
    ensures
        r == 10000,
{
    10000
}

pub fn default_true() -> (r: bool)
    ensures
        r,
{
    true
}

pub fn default_static_root() -> (r: String)
    ensures
        r@ == "./public"@,
{
    "./public".to_string()
}

pub fn default_index_files() -> (r: Vec<String>)
    ensures
        r@.len() == 2,
        r@[0]@ == "index.html"@,
        r@[1]@ == "index.htm"@,
{
    let mut v: Vec<String> = Vec::new();
    v.push("index.html".to_string());
    v.push("index.htm".to_string());
    v
}

pub fn default_admin_bind() -> (r: String)
    ensures
        r@ == "127.0.0.1"@,
{
    "127.0.0.1".to_string()
}

pub fn default_admin_port() -> (r: u16)
    ensures
        r == 9090,
{
    9090
}

pub fn default_weight() -> (r: u32)
    ensures
        r == 1,
{
    1
}

pub fn default_max_fails() -> (r: usize)
    ensures
        r == 3,
{
    3
}

pub fn default_health_interval() -> (r: u64)
    ensures
        r == 30,
{
    30
}

pub fn default_health_timeout() -> (r: u64)
    ensures
        r == 5,
{
    5
}

pub fn default_health_path() -> (r: String)
    ensures
        r@ == "/health"@,
{
    "/health".to_string()
}

pub fn default_health_status() -> (r: u16)
    ensures
        r == 200,
{
    200
}

impl Default for LoadBalancingMethod {
    fn default() -> (r: Self)
        ensures
            r == LoadBalancingMethod::RoundRobin,
    {
        LoadBalancingMethod::RoundRobin
    }
}

impl Default for HealthCheckGlobalConfig {
    fn default() -> (r: Self)
        ensures
            !r.enabled,
            r.interval_secs == 30,
            r.timeout_secs == 5,
            r.path@ == "/health"@,
            r.expected_status == 200,
    {
        HealthCheckGlobalConfig {
            enabled: false,
            interval_secs: 30,
            timeout_secs: 5,
            path: default_health_path(),
            expected_status: 200,
        }
    }
}

impl Default for ProxyConfig {
    fn default() -> (r: Self)
        ensures
            !r.enabled,
            r.upstreams@.len() == 0,
            r.routes@.len() == 0,
            r.load_balancing == LoadBalancingMethod::RoundRobin,
            !r.health_check.enabled,
            r.health_check.interval_secs == 30,
            r.health_check.timeout_secs == 5,
            r.health_check.path@ == "/health"@,
            r.health_check.expected_status == 200,
    {
        ProxyConfig {
            enabled: false,
            upstreams: Vec::new(),
            routes: Vec::new(),
            load_balancing: LoadBalancingMethod::RoundRobin,
            health_check: HealthCheckGlobalConfig::default(),
        }
    }
}

impl Config {
    /// A local development setup: one member `example` at httpbin.org:80
    /// behind the `/api/` route, static files from `./public`.
    pub fn development() -> (r: Self)
        ensures
            r.server.bind_address@ == "127.0.0.1"@,
            r.server.port == 8080,
            r.server.max_connections == 1000,
            r.static_files.enabled,
            r.static_files.root@ == "./public"@,
            r.static_files.index_files@.len() == 2,
            r.static_files.index_files@[0]@ == "index.html"@,
            r.static_files.index_files@[1]@ == "index.htm"@,
            r.static_files.compression,
            r.admin.enabled,
            r.admin.bind_address@ == "127.0.0.1"@,
            r.admin.port == 9090,
            r.proxy.enabled,
            r.proxy.upstreams@.len() == 1,
            r.proxy.upstreams@[0].name@ == "example"@,
            r.proxy.upstreams@[0].address@ == "httpbin.org"@,
            r.proxy.upstreams@[0].port == 80,
            r.proxy.upstreams@[0].weight == 1,
            r.proxy.upstreams@[0].max_fails == 3,
            r.proxy.upstreams@[0].enabled,
            r.proxy.routes@.len() == 1,
            r.proxy.routes@[0].host is None,
            r.proxy.routes@[0].path matches Some(p) && p@ == "/api/"@,
            r.proxy.routes@[0].upstream@ == "example"@,
            r.proxy.load_balancing == LoadBalancingMethod::RoundRobin,
            r.proxy.health_check.enabled,
            r.proxy.health_check.interval_secs == 30,
            r.proxy.health_check.timeout_secs == 5,
            r.proxy.health_check.path@ == "/status/200"@,
            r.proxy.health_check.expected_status == 200,
    {
        let mut upstreams: Vec<UpstreamConfig> = Vec::new();
        upstreams.push(
            UpstreamConfig {
                name: "example".to_string(),
                address: "httpbin.org".to_string(),
                port: 80,
                weight: 1,
                max_fails: 3,
                enabled: true,
            },
        );
        let mut routes: Vec<RouteConfig> = Vec::new();
        routes.push(
            RouteConfig {
                host: None,
                path: Some("/api/".to_string()),
                upstream: "example".to_string(),
            },
        );
        Config {
            server: ServerConfig {
                bind_address: "127.0.0.1".to_string(),
                port: 8080,
                max_connections: 1000,
            },
            static_files: StaticConfig {
                enabled: true,
                root: "./public".to_string(),
                index_files: default_index_files(),
                compression: true,
            },
            admin: AdminConfig {
                enabled: true,
                bind_address: "127.0.0.1".to_string(),
                port: 9090,
            },
            proxy: ProxyConfig {
                enabled: true,
                upstreams,
                routes,
                load_balancing: LoadBalancingMethod::RoundRobin,
                health_check: HealthCheckGlobalConfig {
                    enabled: true,
                    interval_secs: 30,
                    timeout_secs: 5,
                    path: "/status/200".to_string(),
                    expected_status: 200,
                },
            },
        }
    }
}

impl Default for Config {
    fn default() -> (r: Self)
        ensures
            r.proxy.enabled,
            r.proxy.upstreams@.len() == 1,
            r.server.port == 8080,
            r.admin.port == 9090,
    {
        Config::development()
    }
}

} // verus!
