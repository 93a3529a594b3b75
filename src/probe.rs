//! Probe policies: outcomes of each protocol, bounded retry, and the
//! discovery fallback for hosts that filter ICMP.

use vstd::prelude::*;
use crate::text::{dec, digit_char, push_decimal};

verus! {

/// What one probe reports.
#[derive(Debug, Clone)]
pub struct ProbeOutcome {
    pub success: bool,
    /// Round-trip time in microseconds, when measured.
    pub latency_us: Option<u64>,
    /// Packet loss in percent.
    pub packet_loss: Option<u8>,
    pub message: String,
}

/// Microseconds rounded to tenths of a millisecond, as `m.t`.
pub open spec fn ms_tenths_text(us: nat) -> Seq<char> {
    let t = us / 100 + (if us % 100 >= 50 { 1nat } else { 0nat });
    dec(t / 10) + "."@ + seq![digit_char(t % 10)]
}

/// Microseconds rounded to hundredths of a millisecond, as `m.hh`.
pub open spec fn ms_hundredths_text(us: nat) -> Seq<char> {
    let h = us / 10 + (if us % 10 >= 5 { 1nat } else { 0nat });
    dec(h / 100) + "."@ + seq![digit_char((h % 100) / 10), digit_char(h % 10)]
}

/// Milliseconds with one decimal (`12.3`).
pub fn format_ms_tenths(us: u64) -> (r: String)
    ensures
        r@ == ms_tenths_text(us as nat),
{
    let t: u64 = us / 100 + if us % 100 >= 50 { 1 } else { 0 };
    let mut s = String::new();
    push_decimal(&mut s, t / 10);
    s.append(".");
    push_decimal(&mut s, t % 10);
    assert(dec((t % 10) as nat) == seq![digit_char((t % 10) as nat)]);
    assert(s@ =~= ms_tenths_text(us as nat));
    s
}

/// Milliseconds with two decimals (`12.34`).
pub fn format_ms_hundredths(us: u64) -> (r: String)
    ensures
        r@ == ms_hundredths_text(us as nat),
{
    let h: u64 = us / 10 + if us % 10 >= 5 { 1 } else { 0 };
    let mut s = String::new();
    push_decimal(&mut s, h / 100);
    s.append(".");
    push_decimal(&mut s, (h % 100) / 10);
    push_decimal(&mut s, h % 10);
    assert(dec(((h % 100) / 10) as nat) == seq![digit_char(((h % 100) / 10) as nat)]);
    assert(dec((h % 10) as nat) == seq![digit_char((h % 10) as nat)]);
    assert(s@ =~= ms_hundredths_text(us as nat));
    s
}

fn outcome(success: bool, latency_us: Option<u64>, packet_loss: Option<u8>, message: String) -> (r: ProbeOutcome)
    ensures
        r == (ProbeOutcome { success, latency_us, packet_loss, message }),
{
    ProbeOutcome { success, latency_us, packet_loss, message }
}

fn with_reason(prefix: &str, reason: &str) -> (r: String)
    ensures
        r@ == prefix@ + reason@,
{
    let mut s = String::from_str(prefix);
    s.append(reason);
    s
}

/// Ping: the host name could not be resolved.
pub fn resolution_failure(reason: &str) -> (r: ProbeOutcome)
    ensures
        !r.success,
        r.latency_us is None,
        r.packet_loss is None,
        r.message@ == "Domain Resolution Error: "@ + reason@,
{
    outcome(false, None, None, with_reason("Domain Resolution Error: ", reason))
}

/// The address a DNS lookup resolves to: its first answer. A lookup with no
/// answer, or one that failed for `e`, gives the reason instead.
pub fn first_address<T>(lookup: Result<Vec<T>, String>) -> (r: Result<T, String>)
    ensures
        lookup is Ok && lookup->Ok_0@.len() > 0 ==> r == Ok::<T, String>(lookup->Ok_0@[0]),
        lookup is Ok && lookup->Ok_0@.len() == 0 ==> (r is Err && r->Err_0@ == "No IP Address Found"@),
        lookup is Err ==> (r is Err && r->Err_0@ == "Cloudflare DNS Resolution Failed: "@ + lookup->Err_0@),
{
    match lookup {
        Ok(mut v) => {
            if v.len() > 0 {
                Ok(v.remove(0))
            } else {
                Err(String::from_str("No IP Address Found"))
            }
        },
        Err(e) => Err(with_reason("Cloudflare DNS Resolution Failed: ", e.as_str())),
    }
}

/// Ping: an echo reply arrived after `latency_us`.
pub fn ping_reply(latency_us: u64) -> (r: ProbeOutcome)
    ensures
        r.success,
        r.latency_us == Some(latency_us),
        r.packet_loss == Some(0u8),
        r.message@ == "ICMP Response OK"@,
{
    outcome(true, Some(latency_us), Some(0), String::from_str("ICMP Response OK"))
}

/// Ping: every echo request timed out.
pub fn ping_timeout() -> (r: ProbeOutcome)
    ensures
        !r.success,
        r.latency_us is None,
        r.packet_loss == Some(100u8),
        r.message@ == "Request Timeout (Packet Loss 100%)"@,
{
    outcome(false, None, Some(100), String::from_str("Request Timeout (Packet Loss 100%)"))
}

/// Ping: whether to pause before the next echo request after request
/// `attempt` (counted from 0) of `count` failed; there is no pause after the last.
pub fn pause_after_failed_echo(attempt: u32, count: u32) -> (r: bool)
    ensures
        r == (attempt + 1 < count),
{
    attempt < count && count - attempt > 1
}

/// TCP: the connection was established after `latency_us`.
pub fn tcp_connected(latency_us: u64) -> (r: ProbeOutcome)
    ensures
        r.success,
        r.latency_us == Some(latency_us),
        r.packet_loss is None,
        r.message@ == "TCP Handshake Success"@,
{
    outcome(true, Some(latency_us), None, String::from_str("TCP Handshake Success"))
}

/// TCP: the connection attempt failed for `reason`.
pub fn tcp_refused(reason: &str) -> (r: ProbeOutcome)
    ensures
        !r.success,
        r.latency_us is None,
        r.packet_loss is None,
        r.message@ == "Connection Refused: "@ + reason@,
{
    outcome(false, None, None, with_reason("Connection Refused: ", reason))
}

/// TCP: no answer within the timeout.
pub fn tcp_timeout() -> (r: ProbeOutcome)
    ensures
        !r.success,
        r.latency_us is None,
        r.packet_loss is None,
        r.message@ == "Port Timeout"@,
{
    outcome(false, None, None, String::from_str("Port Timeout"))
}

/// UDP: the empty datagram left the local socket after `latency_us`.
pub fn udp_sent(latency_us: u64) -> (r: ProbeOutcome)
    ensures
        r.success,
        r.latency_us == Some(latency_us),
        r.packet_loss is None,
        r.message@ == "UDP Probe Transmitted"@,
{
    outcome(true, Some(latency_us), None, String::from_str("UDP Probe Transmitted"))
}

/// UDP: sending the datagram failed.
pub fn udp_send_failed() -> (r: ProbeOutcome)
    ensures
        !r.success,
        r.latency_us is None,
        r.packet_loss is None,
        r.message@ == "UDP Broadcast Failure"@,
{
    outcome(false, None, None, String::from_str("UDP Broadcast Failure"))
}

/// UDP: no local socket could be bound, for `reason`.
pub fn udp_socket_error(reason: &str) -> (r: ProbeOutcome)
    ensures
        !r.success,
        r.latency_us is None,
        r.packet_loss is None,
        r.message@ == "Local Socket Error: "@ + reason@,
{
    outcome(false, None, None, with_reason("Local Socket Error: ", reason))
}

/// Timeout of each discovery connection attempt, in milliseconds.
pub const DISCOVERY_TIMEOUT_MS: u64 = 1200;

/// Pause between two attempts of one instance, and between two echo
/// requests of one ping, in milliseconds.
pub const BACKOFF_MS: u64 = 50;

/// The well-known ports tried when a host does not answer ICMP, with the
/// service each stands for.
pub open spec fn discovery_table() -> Seq<(u16, Seq<char>)> {
    seq![
        (22u16, "SSH"@), (3389u16, "RDP"@), (80u16, "HTTP"@), (443u16, "HTTPS"@),
        (3306u16, "MySQL"@), (30120u16, "FXServer"@), (8080u16, "Web-Alt"@),
        (5900u16, "VNC"@), (27015u16, "Source"@), (25565u16, "Minecraft"@),
    ]
}

/// The discovery ports and their services (see `discovery_table`).
pub fn discovery_ports() -> (r: Vec<(u16, String)>)
    ensures
        r@.map_values(|p: (u16, String)| (p.0, p.1@)) == discovery_table(),
{
    let r = vec![
        (22u16, String::from_str("SSH")), (3389u16, String::from_str("RDP")),
        (80u16, String::from_str("HTTP")), (443u16, String::from_str("HTTPS")),
        (3306u16, String::from_str("MySQL")), (30120u16, String::from_str("FXServer")),
        (8080u16, String::from_str("Web-Alt")), (5900u16, String::from_str("VNC")),
        (27015u16, String::from_str("Source")), (25565u16, String::from_str("Minecraft")),
    ];
    assert(r@.map_values(|p: (u16, String)| (p.0, p.1@)) =~= discovery_table());
    r
}

/// The discovery fallback runs exactly when the ping itself failed.
pub fn needs_discovery(ping: &ProbeOutcome) -> (r: bool)
    ensures
        r == !ping.success,
{
    !ping.success
}

/// A discovery port that accepted a connection.
#[derive(Debug, Clone)]
pub struct DiscoveryHit {
    pub service: String,
    /// Connect time in microseconds, when measured.
    pub latency_us: Option<u64>,
}

/// The message of a ping rescued by discovery.
pub open spec fn discovery_message(service: Seq<char>, latency_us: Option<u64>) -> Seq<char> {
    "ICMP Filtered (Verified via "@ + service + " ["@ + match latency_us {
        Some(us) => ms_tenths_text(us as nat),
        None => "N/A"@,
    } + "ms])"@
}

/// The ping outcome once discovery has run: unchanged when the ping
/// succeeded or no port answered; otherwise a success with no latency, no
/// loss, and the answering service in its message.
pub fn apply_discovery(ping: ProbeOutcome, hit: Option<DiscoveryHit>) -> (r: ProbeOutcome)
    ensures
        ping.success ==> r == ping,
        !ping.success && hit is None ==> r == ping,
        !ping.success && hit is Some ==> {
            &&& r.success
            &&& r.latency_us is None
            &&& r.packet_loss == Some(0u8)
            &&& r.message@ == discovery_message(hit->0.service@, hit->0.latency_us)
        },
{
    if ping.success {
        return ping;
    }
    match hit {
        None => ping,
        Some(h) => {
            let mut m = String::from_str("ICMP Filtered (Verified via ");
            m.append(h.service.as_str());
            m.append(" [");
            match h.latency_us {
                Some(us) => m.append(format_ms_tenths(us).as_str()),
                None => m.append("N/A"),
            }
            m.append("ms])");
            proof {
                assert(m@ =~= discovery_message(h.service@, h.latency_us));
            }
            outcome(true, None, Some(0), m)
        },
    }
}

/// A rescued ping names the answering service in its message.
pub proof fn lemma_discovery_names_service(service: Seq<char>, latency_us: Option<u64>)
    ensures
        exists|i: int|
            0 <= i && i + service.len() <= discovery_message(service, latency_us).len()
                && #[trigger] discovery_message(service, latency_us).subrange(i, i + service.len()) == service,
{
    let m = discovery_message(service, latency_us);
    let i = "ICMP Filtered (Verified via "@.len() as int;
    assert(m.subrange(i, i + service.len()) =~= service);
}

/// Bounded retry of one probe instance: at most `max_retries` attempts after
/// the first, and none after a success.
#[derive(Debug, Clone, Copy)]
pub struct RetryController {
    pub max_retries: u32,
    pub attempts: u64,
    pub succeeded: bool,
}

impl RetryController {
    pub open spec fn wf(self) -> bool {
        &&& self.attempts <= self.max_retries as int + 1
        &&& self.succeeded ==> self.attempts >= 1
    }

    /// Whether the controller has stopped issuing attempts.
    pub open spec fn finished(self) -> bool {
        self.succeeded || self.attempts > self.max_retries
    }

    /// The controller after an attempt that reported `success`.
    pub open spec fn after(self, success: bool) -> RetryController {
        RetryController { attempts: (self.attempts + 1) as u64, succeeded: success, ..self }
    }

    /// The controller after the attempts whose outcomes are `outcomes`, in
    /// order; outcomes beyond its last attempt are never asked for.
    pub open spec fn after_outcomes(self, outcomes: Seq<bool>) -> RetryController
        decreases outcomes.len(),
    {
        if outcomes.len() == 0 || self.finished() {
            self
        } else {
            self.after(outcomes[0]).after_outcomes(outcomes.drop_first())
        }
    }

    pub fn new(max_retries: u32) -> (r: RetryController)
        ensures
            r.wf(),
            r == (RetryController { max_retries, attempts: 0, succeeded: false }),
    {
        RetryController { max_retries, attempts: 0, succeeded: false }
    }

    /// Whether another attempt is due.
    pub fn should_attempt(&self) -> (r: bool)
        requires
            self.wf(),
        ensures
            r == !self.finished(),
    {
        !self.succeeded && self.attempts <= self.max_retries as u64
    }

    /// Whether the backoff pause precedes the next attempt: every attempt
    /// but the first waits.
    pub fn pause_before_attempt(&self) -> (r: bool)
        ensures
            r == (self.attempts > 0),
    {
        self.attempts > 0
    }

    /// Counts an attempt and its outcome.
    pub fn record_attempt(&mut self, success: bool)
        requires
            old(self).wf(),
            !old(self).finished(),
        ensures
            final(self).wf(),
            *final(self) == old(self).after(success),
    {
        self.attempts = self.attempts + 1;
        self.succeeded = success;
    }
}

/// Whatever the probes report, a run makes at most `max_retries + 1`
/// attempts, and none after the first success: a success at attempt `i`
/// ends the run with `i + 1` attempts.
pub proof fn lemma_retry_bounded(c: RetryController, outcomes: Seq<bool>)
    requires
        c.wf(),
    ensures
        c.after_outcomes(outcomes).wf(),
        c.after_outcomes(outcomes).attempts <= c.max_retries as int + 1,
        c.after_outcomes(outcomes).max_retries == c.max_retries,
        forall|i: int|
            0 <= i < outcomes.len() && #[trigger] outcomes[i] && !c.finished() && c.attempts + i
                <= c.max_retries ==> c.after_outcomes(outcomes).attempts <= c.attempts + i + 1,
    decreases outcomes.len(),
{
    if outcomes.len() == 0 || c.finished() {
    } else {
        let n = c.after(outcomes[0]);
        let rest = outcomes.drop_first();
        lemma_retry_bounded(n, rest);
        assert forall|i: int|
            0 <= i < outcomes.len() && #[trigger] outcomes[i] && !c.finished() && c.attempts + i
                <= c.max_retries implies c.after_outcomes(outcomes).attempts <= c.attempts + i + 1 by {
            if i > 0 {
                assert(rest[i - 1] == outcomes[i]);
            }
        }
    }
}

} // verus!
