//! The monitored topology and global settings, as read from configuration.

use vstd::prelude::*;
use crate::text::{dec, decimal};

verus! {

/// Global settings and the categories of servers to watch.
#[derive(Debug, Clone)]
pub struct MonitorConfig {
    pub categories: Vec<Category>,
    /// Seconds between the starts of two cycles.
    pub check_interval: u64,
    pub webhook_url: Option<String>,
    pub api_port: u16,
    pub max_concurrency: usize,
}

/// A named group of servers.
#[derive(Debug, Clone)]
pub struct Category {
    pub name: String,
    pub servers: Vec<Server>,
}

/// One monitored server: a host or a CIDR block, and the checks run on each address.
#[derive(Debug, Clone)]
pub struct Server {
    pub name: String,
    pub address: String,
    pub checks: Vec<CheckType>,
    pub max_retries: u32,
}

/// One probe to run against each address of a server.
#[derive(Debug, Clone, Copy, PartialEq, Eq)]
pub enum CheckType {
    Ping { count: u32, timeout_ms: u64 },
    TcpPort { port: u16, timeout_ms: u64 },
    UdpPort { port: u16, timeout_ms: u64 },
}

pub fn default_api_port() -> (r: u16)
    ensures
        r == 3000,
{
    3000
}

pub fn default_max_concurrency() -> (r: usize)
    ensures
        r == 1500,
{
    1500
}

pub fn default_max_retries() -> (r: u32)
    ensures
        r == 1,
{
    1
}

pub fn default_ping_count() -> (r: u32)
    ensures
        r == 1,
{
    1
}

pub fn default_timeout() -> (r: u64)
    ensures
        r == 3500,
{
    3500
}

/// The label that names a check in results and keys: `Ping`, `TCP:<port>` or `UDP:<port>`.
pub open spec fn label_of(c: CheckType) -> Seq<char> {
    match c {
        CheckType::Ping { .. } => "Ping"@,
        CheckType::TcpPort { port, .. } => "TCP:"@ + dec(port as nat),
        CheckType::UdpPort { port, .. } => "UDP:"@ + dec(port as nat),
    }
}

impl CheckType {
    /// The label of this check (see `label_of`).
    pub fn label(&self) -> (r: String)
        ensures
            r@ == label_of(*self),
    {
        match self {
            CheckType::Ping { .. } => String::from_str("Ping"),
            CheckType::TcpPort { port, .. } => {
                let mut s = String::from_str("TCP:");
                s.append(decimal(*port as u64).as_str());
                s
            },
            CheckType::UdpPort { port, .. } => {
                let mut s = String::from_str("UDP:");
                s.append(decimal(*port as u64).as_str());
                s
            },
        }
    }
}

} // verus!
