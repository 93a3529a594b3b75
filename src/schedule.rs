//! One monitoring cycle's plan: the probe instances of the topology, the
//! admission of probes under a concurrency cap, and the pause between cycles.

use vstd::prelude::*;
use crate::config::{Category, CheckType, MonitorConfig, Server, label_of};
use crate::topology::{expand_address, expansion};
use crate::models::{CheckResult, key_of};
use crate::probe::ProbeOutcome;
use crate::state::MonitorState;

verus! {

/// One unit of work: a check against one concrete address of a server.
#[derive(Debug, Clone)]
pub struct ProbeInstance {
    pub category: String,
    pub server_name: String,
    pub address: String,
    pub check: CheckType,
    pub max_retries: u32,
}

/// An instance as plain values: category, server, address, check, retries.
pub type InstanceView = (Seq<char>, Seq<char>, Seq<char>, CheckType, u32);

pub open spec fn instance_view(p: ProbeInstance) -> InstanceView {
    (p.category@, p.server_name@, p.address@, p.check, p.max_retries)
}

pub open spec fn instance_views(s: Seq<ProbeInstance>) -> Seq<InstanceView> {
    s.map_values(|p: ProbeInstance| instance_view(p))
}

/// Every check of a server against each of `addrs`, address by address.
pub open spec fn address_instances(cat: Seq<char>, s: Server, addrs: Seq<Seq<char>>) -> Seq<InstanceView>
    decreases addrs.len(),
{
    if addrs.len() == 0 {
        Seq::empty()
    } else {
        address_instances(cat, s, addrs.drop_last()) + s.checks@.map_values(
            |c: CheckType| (cat, s.name@, addrs.last(), c, s.max_retries),
        )
    }
}

/// The instances of the servers `servers` of category `cat`, in order.
pub open spec fn server_instances(cat: Seq<char>, servers: Seq<Server>) -> Seq<InstanceView>
    decreases servers.len(),
{
    if servers.len() == 0 {
        Seq::empty()
    } else {
        server_instances(cat, servers.drop_last()) + address_instances(
            cat,
            servers.last(),
            expansion(servers.last().address@),
        )
    }
}

/// The instances of all categories `cats`, in order.
pub open spec fn category_instances(cats: Seq<Category>) -> Seq<InstanceView>
    decreases cats.len(),
{
    if cats.len() == 0 {
        Seq::empty()
    } else {
        category_instances(cats.drop_last()) + server_instances(
            cats.last().name@,
            cats.last().servers@,
        )
    }
}

fn push_checks(out: &mut Vec<ProbeInstance>, cat: &String, s: &Server, addr: &String)
    ensures
        instance_views(final(out)@) == instance_views(old(out)@) + s.checks@.map_values(
            |c: CheckType| (cat@, s.name@, addr@, c, s.max_retries),
        ),
{
    let ghost start = instance_views(out@);
    let mut j: usize = 0;
    while j < s.checks.len()
        invariant
            j <= s.checks@.len(),
            instance_views(out@) == start + s.checks@.take(j as int).map_values(
                |c: CheckType| (cat@, s.name@, addr@, c, s.max_retries),
            ),
        decreases s.checks@.len() - j,
    {
        let ghost before = out@;
        out.push(ProbeInstance {
            category: cat.clone(),
            server_name: s.name.clone(),
            address: addr.clone(),
            check: s.checks[j],
            max_retries: s.max_retries,
        });
        proof {
            assert(instance_views(out@) =~= instance_views(before).push(instance_view(out@.last())));
            assert(s.checks@.take(j + 1) =~= s.checks@.take(j as int).push(s.checks@[j as int]));
        }
        j = j + 1;
        proof {
            assert(instance_views(out@) =~= start + s.checks@.take(j as int).map_values(
                |c: CheckType| (cat@, s.name@, addr@, c, s.max_retries),
            ));
        }
    }
    proof {
        assert(s.checks@.take(j as int) =~= s.checks@);
    }
}

fn push_server(out: &mut Vec<ProbeInstance>, cat: &String, s: &Server)
    ensures
        instance_views(final(out)@) == instance_views(old(out)@) + address_instances(
            cat@,
            *s,
            expansion(s.address@),
        ),
{
    let addrs = expand_address(s.address.as_str());
    let ghost texts = expansion(s.address@);
    let ghost start = instance_views(out@);
    let mut i: usize = 0;
    proof {
        assert(texts.take(0) =~= Seq::<Seq<char>>::empty());
        assert(start + address_instances(cat@, *s, texts.take(0)) =~= start);
    }
    while i < addrs.len()
        invariant
            addrs@.map_values(|t: String| t@) == texts,
            i <= addrs@.len(),
            instance_views(out@) == start + address_instances(cat@, *s, texts.take(i as int)),
        decreases addrs@.len() - i,
    {
        push_checks(out, cat, s, &addrs[i]);
        proof {
            let t = texts.take(i + 1);
            assert(t.drop_last() =~= texts.take(i as int));
            assert(t.last() == addrs@[i as int]@);
            assert(instance_views(out@) =~= start + address_instances(cat@, *s, t));
        }
        i = i + 1;
    }
    proof {
        assert(texts.take(i as int) =~= texts);
    }
}

fn push_category(out: &mut Vec<ProbeInstance>, c: &Category)
    ensures
        instance_views(final(out)@) == instance_views(old(out)@) + server_instances(c.name@, c.servers@),
{
    let ghost start = instance_views(out@);
    let mut i: usize = 0;
    proof {
        assert(c.servers@.take(0) =~= Seq::<Server>::empty());
        assert(start + server_instances(c.name@, c.servers@.take(0)) =~= start);
    }
    while i < c.servers.len()
        invariant
            i <= c.servers@.len(),
            instance_views(out@) == start + server_instances(c.name@, c.servers@.take(i as int)),
        decreases c.servers@.len() - i,
    {
        push_server(out, &c.name, &c.servers[i]);
        proof {
            let t = c.servers@.take(i + 1);
            assert(t.drop_last() =~= c.servers@.take(i as int));
            assert(t.last() == c.servers@[i as int]);
            assert(instance_views(out@) =~= start + server_instances(c.name@, t));
        }
        i = i + 1;
    }
    proof {
        assert(c.servers@.take(i as int) =~= c.servers@);
    }
}

/// Every probe instance of the topology: for each category, server, address
/// of the server's expansion, and check, in that nesting order.
pub fn expand_instances(config: &MonitorConfig) -> (r: Vec<ProbeInstance>)
    ensures
        instance_views(r@) == category_instances(config.categories@),
{
    let mut out: Vec<ProbeInstance> = Vec::new();
    let ghost cats = config.categories@;
    let mut i: usize = 0;
    proof {
        assert(cats.take(0) =~= Seq::<Category>::empty());
        assert(instance_views(out@) =~= Seq::<InstanceView>::empty());
    }
    while i < config.categories.len()
        invariant
            cats == config.categories@,
            i <= cats.len(),
            instance_views(out@) == category_instances(cats.take(i as int)),
        decreases cats.len() - i,
    {
        push_category(&mut out, &config.categories[i]);
        proof {
            let t = cats.take(i + 1);
            assert(t.drop_last() =~= cats.take(i as int));
            assert(t.last() == cats[i as int]);
        }
        i = i + 1;
    }
    proof {
        assert(cats.take(i as int) =~= cats);
    }
    out
}

/// Admission of probes under a cap: a probe runs only while it holds one of
/// `capacity` slots, and a refused probe waits for a release.
#[derive(Debug, Clone, Copy)]
pub struct Admission {
    pub capacity: usize,
    pub in_flight: usize,
}

impl Admission {
    pub open spec fn wf(self) -> bool {
        self.in_flight <= self.capacity
    }

    /// The admission after a request for a slot (`true`) or a release (`false`).
    pub open spec fn step(self, acquire: bool) -> Admission {
        if acquire {
            if self.in_flight < self.capacity {
                Admission { in_flight: (self.in_flight + 1) as usize, ..self }
            } else {
                self
            }
        } else if self.in_flight > 0 {
            Admission { in_flight: (self.in_flight - 1) as usize, ..self }
        } else {
            self
        }
    }

    /// The admission after the requests and releases `events`, in order.
    pub open spec fn after_events(self, events: Seq<bool>) -> Admission
        decreases events.len(),
    {
        if events.len() == 0 {
            self
        } else {
            self.step(events[0]).after_events(events.drop_first())
        }
    }

    pub fn new(capacity: usize) -> (r: Admission)
        ensures
            r.wf(),
            r.capacity == capacity,
            r.in_flight == 0,
    {
        Admission { capacity, in_flight: 0 }
    }

    /// Takes a slot if one is free; returns whether the probe may start.
    pub fn try_acquire(&mut self) -> (r: bool)
        requires
            old(self).wf(),
        ensures
            final(self).wf(),
            r == (old(self).in_flight < old(self).capacity),
            *final(self) == old(self).step(true),
    {
        if self.in_flight < self.capacity {
            self.in_flight = self.in_flight + 1;
            true
        } else {
            false
        }
    }

    /// Gives back the slot of a finished probe, whatever its outcome.
    pub fn release(&mut self)
        requires
            old(self).wf(),
        ensures
            final(self).wf(),
            *final(self) == old(self).step(false),
    {
        if self.in_flight > 0 {
            self.in_flight = self.in_flight - 1;
        }
    }
}

/// Whatever the order of requests and releases, the number of probes
/// running never exceeds the cap.
pub proof fn lemma_in_flight_within_cap(a: Admission, events: Seq<bool>)
    requires
        a.wf(),
    ensures
        a.after_events(events).wf(),
        a.after_events(events).capacity == a.capacity,
        forall|k: int| 0 <= k <= events.len() ==> (#[trigger] a.after_events(events.take(k))).in_flight <= a.capacity,
    decreases events.len(),
{
    if events.len() > 0 {
        let rest = events.drop_first();
        lemma_in_flight_within_cap(a.step(events[0]), rest);
        assert forall|k: int| 0 <= k <= events.len() implies (#[trigger] a.after_events(events.take(k))).in_flight <= a.capacity by {
            if k > 0 {
                assert(events.take(k).drop_first() =~= rest.take(k - 1));
                assert(events.take(k)[0] == events[0]);
                assert(a.step(events[0]).after_events(rest.take(k - 1)).in_flight <= a.capacity);
            } else {
                assert(events.take(0).len() == 0);
            }
        }
    } else {
        assert forall|k: int| 0 <= k <= events.len() implies (#[trigger] a.after_events(events.take(k))).in_flight <= a.capacity by {
            assert(events.take(k).len() == 0);
        }
    }
}

/// Length of a cycle in milliseconds, capped at the largest `u64`.
pub open spec fn cycle_ms(interval_s: u64) -> int {
    if interval_s as int * 1000 > u64::MAX {
        u64::MAX as int
    } else {
        interval_s as int * 1000
    }
}

/// The pause before the next cycle, measured from the start of the one that
/// just ended: the rest of the interval, or nothing when the cycle overran it.
pub fn delay_until_next_cycle(interval_s: u64, elapsed_ms: u64) -> (r: u64)
    ensures
        r == (if elapsed_ms >= cycle_ms(interval_s) { 0 } else { cycle_ms(interval_s) - elapsed_ms }),
{
    let total: u64 = if interval_s > u64::MAX / 1000 { u64::MAX } else { interval_s * 1000 };
    if elapsed_ms >= total {
        0
    } else {
        total - elapsed_ms
    }
}

/// The result of running `inst` at `timestamp_ms` with outcome `o`.
pub fn make_result(inst: &ProbeInstance, timestamp_ms: i64, o: ProbeOutcome) -> (r: CheckResult)
    ensures
        r.category == inst.category,
        r.server_name == inst.server_name,
        r.target_address == inst.address,
        r.timestamp_ms == timestamp_ms,
        r.check_type@ == label_of(inst.check),
        r.status == o.success,
        r.latency_us == o.latency_us,
        r.packet_loss == o.packet_loss,
        r.message == o.message,
{
    CheckResult {
        category: inst.category.clone(),
        server_name: inst.server_name.clone(),
        target_address: inst.address.clone(),
        timestamp_ms,
        check_type: inst.check.label(),
        status: o.success,
        latency_us: o.latency_us,
        packet_loss: o.packet_loss,
        message: o.message,
    }
}

/// The key under which results of `inst` are tracked.
pub open spec fn instance_key(inst: InstanceView) -> Seq<char> {
    inst.1 + "-"@ + inst.2 + "-"@ + label_of(inst.3)
}

/// `r` is the placeholder of `inst` seeded at `timestamp_ms`: not yet
/// measured, so down, with no latency or loss.
pub open spec fn is_placeholder(r: CheckResult, inst: ProbeInstance, timestamp_ms: i64) -> bool {
    &&& r.category == inst.category
    &&& r.server_name == inst.server_name
    &&& r.target_address == inst.address
    &&& r.timestamp_ms == timestamp_ms
    &&& r.check_type@ == label_of(inst.check)
    &&& !r.status
    &&& r.latency_us is None
    &&& r.packet_loss is None
    &&& r.message@ == "Synchronizing status..."@
    &&& key_of(r) == instance_key(instance_view(inst))
}

/// The placeholder stored for `inst` before its first measurement.
pub fn placeholder(inst: &ProbeInstance, timestamp_ms: i64) -> (r: CheckResult)
    ensures
        is_placeholder(r, *inst, timestamp_ms),
{
    CheckResult {
        category: inst.category.clone(),
        server_name: inst.server_name.clone(),
        target_address: inst.address.clone(),
        timestamp_ms,
        check_type: inst.check.label(),
        status: false,
        latency_us: None,
        packet_loss: None,
        message: String::from_str("Synchronizing status..."),
    }
}

/// `k` is the tracked key of one of `instances`.
pub open spec fn is_instance_key(instances: Seq<ProbeInstance>, k: Seq<char>) -> bool {
    exists|j: int| 0 <= j < instances.len() && k == instance_key(instance_view(#[trigger] instances[j]))
}

/// Seeds a placeholder for every instance whose key is not yet tracked, so
/// that every key of the topology has an entry; existing entries stay, and
/// nothing else is added.
pub fn seed_state(state: &mut MonitorState, instances: &Vec<ProbeInstance>, timestamp_ms: i64)
    requires
        old(state).wf(),
    ensures
        final(state).wf(),
        forall|k: Seq<char>| #[trigger] final(state)@.contains_key(k) <==> (old(state)@.contains_key(k)
            || is_instance_key(instances@, k)),
        forall|k: Seq<char>| #[trigger] old(state)@.contains_key(k) ==> final(state)@[k] == old(state)@[k],
        forall|k: Seq<char>| #[trigger] final(state)@.contains_key(k) && !old(state)@.contains_key(k) ==> {
            &&& final(state)@[k].synchronizing
            &&& exists|j: int| 0 <= j < instances@.len() && k == instance_key(instance_view(#[trigger] instances@[j]))
                && is_placeholder(final(state)@[k].result, instances@[j], timestamp_ms)
        },
        (forall|k: Seq<char>| is_instance_key(instances@, k) ==> #[trigger] old(state)@.contains_key(k))
            ==> final(state)@ == old(state)@,
{
    let mut i: usize = 0;
    while i < instances.len()
        invariant
            state.wf(),
            i <= instances@.len(),
            forall|k: Seq<char>| #[trigger] state@.contains_key(k) <==> (old(state)@.contains_key(k)
                || is_instance_key(instances@.take(i as int), k)),
            forall|k: Seq<char>| #[trigger] old(state)@.contains_key(k) ==> state@[k] == old(state)@[k],
            forall|k: Seq<char>| #[trigger] state@.contains_key(k) && !old(state)@.contains_key(k) ==> {
                &&& state@[k].synchronizing
                &&& exists|j: int| 0 <= j < i && k == instance_key(instance_view(#[trigger] instances@[j]))
                    && is_placeholder(state@[k].result, instances@[j], timestamp_ms)
            },
        decreases instances@.len() - i,
    {
        let p = placeholder(&instances[i], timestamp_ms);
        let ghost prev = state@;
        let ghost inst = instances@[i as int];
        state.seed(p);
        proof {
            let pre = instances@.take(i as int);
            let post = instances@.take(i + 1);
            assert forall|k: Seq<char>| is_instance_key(post, k) <==> (is_instance_key(pre, k) || k == instance_key(instance_view(inst))) by {
                if is_instance_key(post, k) {
                    let j = choose|j: int| 0 <= j < post.len() && k == instance_key(instance_view(#[trigger] post[j]));
                    if j < i {
                        assert(pre[j] == post[j]);
                    }
                }
                if is_instance_key(pre, k) {
                    let j = choose|j: int| 0 <= j < pre.len() && k == instance_key(instance_view(#[trigger] pre[j]));
                    assert(post[j] == pre[j]);
                }
                if k == instance_key(instance_view(inst)) {
                    assert(post[i as int] == inst);
                }
            }
            assert forall|k: Seq<char>| #[trigger] state@.contains_key(k) && !old(state)@.contains_key(k) implies {
                &&& state@[k].synchronizing
                &&& exists|j: int| 0 <= j < i + 1 && k == instance_key(instance_view(#[trigger] instances@[j]))
                    && is_placeholder(state@[k].result, instances@[j], timestamp_ms)
            } by {
                if prev.contains_key(k) {
                    let j = choose|j: int| 0 <= j < i && k == instance_key(instance_view(#[trigger] instances@[j]))
                        && is_placeholder(prev[k].result, instances@[j], timestamp_ms);
                    assert(state@[k] == prev[k]);
                    assert(0 <= j < i + 1 && k == instance_key(instance_view(instances@[j])));
                } else {
                    assert(k == key_of(p));
                    assert(is_placeholder(state@[k].result, instances@[i as int], timestamp_ms));
                }
            }
        }
        i = i + 1;
    }
    proof {
        assert(instances@.take(i as int) =~= instances@);
        if forall|k: Seq<char>| is_instance_key(instances@, k) ==> #[trigger] old(state)@.contains_key(k) {
            assert(state@ =~= old(state)@);
        }
    }
}

} // verus!
