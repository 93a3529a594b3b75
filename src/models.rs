//! Probe results and the Up/Down status derived from them.

use vstd::prelude::*;

verus! {

/// Reachability derived from a result: `Up` exactly when it succeeded.
#[derive(Debug, Clone, Copy, PartialEq, Eq, Structural)]
pub enum Status {
    Up,
    Down,
}

/// The status derived from a result's success flag.
pub open spec fn status_of(success: bool) -> Status {
    if success { Status::Up } else { Status::Down }
}

pub fn status_from(success: bool) -> (r: Status)
    ensures
        r == status_of(success),
{
    if success { Status::Up } else { Status::Down }
}

/// The outcome of one check against one address.
#[derive(Debug, Clone)]
pub struct CheckResult {
    pub category: String,
    pub server_name: String,
    pub target_address: String,
    /// Milliseconds since the Unix epoch.
    pub timestamp_ms: i64,
    /// The check's label (`Ping`, `TCP:443`, `UDP:53`).
    pub check_type: String,
    pub status: bool,
    /// Round-trip time in microseconds, when one was measured.
    pub latency_us: Option<u64>,
    /// Packet loss in percent (0 or 100).
    pub packet_loss: Option<u8>,
    pub message: String,
}

/// The stable identity of a result across cycles: `server-address-label`.
pub open spec fn key_of(r: CheckResult) -> Seq<char> {
    r.server_name@ + "-"@ + r.target_address@ + "-"@ + r.check_type@
}

impl CheckResult {
    /// A field-for-field copy.
    pub fn duplicate(&self) -> (r: CheckResult)
        ensures
            r == *self,
    {
        CheckResult {
            category: self.category.clone(),
            server_name: self.server_name.clone(),
            target_address: self.target_address.clone(),
            timestamp_ms: self.timestamp_ms,
            check_type: self.check_type.clone(),
            status: self.status,
            latency_us: self.latency_us,
            packet_loss: self.packet_loss,
            message: self.message.clone(),
        }
    }

    /// The tracked key of this result (see `key_of`).
    pub fn tracked_key(&self) -> (r: String)
        ensures
            r@ == key_of(*self),
    {
        let mut k = self.server_name.clone();
        k.append("-");
        k.append(self.target_address.as_str());
        k.append("-");
        k.append(self.check_type.as_str());
        k
    }
}

} // verus!
