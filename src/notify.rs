//! Change notifications: what is sent to the webhook when a tracked key
//! changes status, and the reconciliation of a cycle's results.

use vstd::prelude::*;
use crate::models::{CheckResult, Status, key_of, status_of};
use crate::order::{sort_results, sorted};
use crate::probe::{format_ms_hundredths, ms_hundredths_text};
use crate::state::{MonitorState, TrackedEntry, Transition, baseline, transition_from};

verus! {

/// Green, for a key that came up.
pub const COLOR_UP: u32 = 0x2ECC71;

/// Red, for a key that went down.
pub const COLOR_DOWN: u32 = 0xE74C3C;

/// One named field of a notification.
#[derive(Debug, Clone)]
pub struct EmbedField {
    pub name: String,
    pub value: String,
    pub inline: bool,
}

/// A status change, ready to be posted to the webhook at `url`.
#[derive(Debug, Clone)]
pub struct Notification {
    pub url: String,
    pub username: String,
    pub title: String,
    pub color: u32,
    pub fields: Vec<EmbedField>,
    pub footer: String,
    pub transition: Transition,
}

pub open spec fn color_of(s: Status) -> u32 {
    match s {
        Status::Up => COLOR_UP,
        Status::Down => COLOR_DOWN,
    }
}

pub open spec fn status_text(s: Status) -> Seq<char> {
    match s {
        Status::Up => "Up"@,
        Status::Down => "Down"@,
    }
}

/// The latency as `m.hhms`, or `N/A` when none was measured.
pub open spec fn latency_text(latency_us: Option<u64>) -> Seq<char> {
    match latency_us {
        Some(us) => ms_hundredths_text(us as nat) + "ms"@,
        None => "N/A"@,
    }
}

/// The fields of a notification, as (name, value, inline).
pub open spec fn fields_of(r: CheckResult, t: Transition) -> Seq<(Seq<char>, Seq<char>, bool)> {
    seq![
        ("Cluster"@, r.server_name@, true),
        ("Node IP"@, r.target_address@, true),
        ("Transition"@, status_text(t.old) + " \u{2192} "@ + status_text(t.new), true),
        ("Metric"@, r.check_type@, true),
        ("Sync Latency"@, latency_text(r.latency_us), true),
        ("Reason"@, r.message@, false),
    ]
}

pub open spec fn field_view(f: EmbedField) -> (Seq<char>, Seq<char>, bool) {
    (f.name@, f.value@, f.inline)
}

/// The embed color of a transition to `s`.
pub fn color_for(s: Status) -> (r: u32)
    ensures
        r == color_of(s),
{
    match s {
        Status::Up => COLOR_UP,
        Status::Down => COLOR_DOWN,
    }
}

pub fn status_name(s: Status) -> (r: String)
    ensures
        r@ == status_text(s),
{
    match s {
        Status::Up => String::from_str("Up"),
        Status::Down => String::from_str("Down"),
    }
}

pub fn format_latency(latency_us: Option<u64>) -> (r: String)
    ensures
        r@ == latency_text(latency_us),
{
    match latency_us {
        Some(us) => {
            let mut s = format_ms_hundredths(us);
            s.append("ms");
            s
        },
        None => String::from_str("N/A"),
    }
}

fn field(name: &str, value: String, inline: bool) -> (r: EmbedField)
    ensures
        field_view(r) == (name@, value@, inline),
{
    EmbedField { name: String::from_str(name), value, inline }
}

/// The notification of transition `t` of result `r`: none when no webhook
/// is configured.
pub fn notification_for(webhook: &Option<String>, r: &CheckResult, t: Transition) -> (n: Option<Notification>)
    ensures
        webhook is None <==> n is None,
        n matches Some(m) ==> {
            &&& m.url == webhook->0
            &&& m.username@ == "NetPulse Engine"@
            &&& m.title@ == "Protocol Status Transition"@
            &&& m.color == color_of(t.new)
            &&& m.fields@.map_values(|f: EmbedField| field_view(f)) == fields_of(*r, t)
            &&& m.footer@ == "NetPulse Infrastructure Intelligence"@
            &&& m.transition == t
        },
{
    match webhook {
        None => None,
        Some(url) => {
            let mut tr = status_name(t.old);
            tr.append(" \u{2192} ");
            tr.append(status_name(t.new).as_str());
            let fields = vec![
                field("Cluster", r.server_name.clone(), true),
                field("Node IP", r.target_address.clone(), true),
                field("Transition", tr, true),
                field("Metric", r.check_type.clone(), true),
                field("Sync Latency", format_latency(r.latency_us), true),
                field("Reason", r.message.clone(), false),
            ];
            proof {
                assert(fields@.map_values(|f: EmbedField| field_view(f)) =~= fields_of(*r, t));
            }
            Some(Notification {
                url: url.clone(),
                username: String::from_str("NetPulse Engine"),
                title: String::from_str("Protocol Status Transition"),
                color: color_for(t.new),
                fields,
                footer: String::from_str("NetPulse Infrastructure Intelligence"),
                transition: t,
            })
        },
    }
}

/// The baseline of key `k` after the results `rs` were recorded, in order,
/// on top of the stored entries `m`.
pub open spec fn baseline_after(m: Map<Seq<char>, TrackedEntry>, rs: Seq<CheckResult>, k: Seq<char>) -> Option<Status>
    decreases rs.len(),
{
    if rs.len() == 0 {
        baseline(m, k)
    } else if key_of(rs.last()) == k {
        Some(status_of(rs.last().status))
    } else {
        baseline_after(m, rs.drop_last(), k)
    }
}

/// The transitions that recording the results `rs`, in order, on top of `m`
/// reports, in order.
pub open spec fn transitions_of(m: Map<Seq<char>, TrackedEntry>, rs: Seq<CheckResult>) -> Seq<Transition>
    decreases rs.len(),
{
    if rs.len() == 0 {
        Seq::empty()
    } else {
        let prev = transitions_of(m, rs.drop_last());
        match transition_from(baseline_after(m, rs.drop_last(), key_of(rs.last())), status_of(rs.last().status)) {
            Some(t) => prev.push(t),
            None => prev,
        }
    }
}

/// The last of the results `rs` whose key is `k`.
pub open spec fn last_with_key(rs: Seq<CheckResult>, k: Seq<char>) -> Option<CheckResult>
    decreases rs.len(),
{
    if rs.len() == 0 {
        None
    } else if key_of(rs.last()) == k {
        Some(rs.last())
    } else {
        last_with_key(rs.drop_last(), k)
    }
}

/// `fin` is what recording the results `rs`, in order, makes of the stored
/// entries `m`: each key of a result holds the last result with that key,
/// measured; every other entry is unchanged; no other key appears.
pub open spec fn recorded_in_order(m: Map<Seq<char>, TrackedEntry>, rs: Seq<CheckResult>, fin: Map<Seq<char>, TrackedEntry>) -> bool {
    &&& forall|k: Seq<char>| #[trigger] fin.contains_key(k) <==> (m.contains_key(k) || last_with_key(rs, k) is Some)
    &&& forall|k: Seq<char>| #[trigger] last_with_key(rs, k) is Some ==> fin[k].result == last_with_key(rs, k)->0
        && !fin[k].synchronizing
    &&& forall|k: Seq<char>| #[trigger] last_with_key(rs, k) is None && m.contains_key(k) ==> fin[k] == m[k]
}

/// Reconciles a cycle's results: sorts them into their fixed order, stores
/// each under its key, and returns the notifications of the transitions, in
/// that order. Without a webhook nothing is to be sent.
pub fn reconcile_cycle(state: &mut MonitorState, results: Vec<CheckResult>, webhook: &Option<String>) -> (r: Vec<Notification>)
    requires
        old(state).wf(),
    ensures
        final(state).wf(),
        forall|k: Seq<char>| #[trigger] old(state)@.contains_key(k) ==> final(state)@.contains_key(k),
        forall|i: int| 0 <= i < results@.len() ==> final(state)@.contains_key(key_of(#[trigger] results@[i]))
            && !final(state)@[key_of(results@[i])].synchronizing,
        webhook is None ==> r@.len() == 0,
        r@.len() <= results@.len(),
        forall|i: int| 0 <= i < r@.len() ==> (#[trigger] r@[i]).url == webhook->0,
        exists|ordered: Seq<CheckResult>| {
            &&& sorted(ordered)
            &&& #[trigger] ordered.to_multiset() == results@.to_multiset()
            &&& recorded_in_order(old(state)@, ordered, final(state)@)
            &&& (webhook is Some ==> r@.map_values(|n: Notification| n.transition) == transitions_of(old(state)@, ordered))
        },
{
    broadcast use vstd::seq_lib::group_to_multiset_ensures;
    let ghost orig = results@;
    let ordered = sort_results(results);
    proof {
        ordered@.to_multiset_ensures();
        orig.to_multiset_ensures();
        assert(ordered@.len() == orig.len());
        assert forall|i: int| 0 <= i < orig.len() implies ordered@.contains(#[trigger] orig[i]) by {
            assert(orig.to_multiset().count(orig[i]) > 0);
        }
    }
    let mut out: Vec<Notification> = Vec::new();
    let mut i: usize = 0;
    proof {
        assert(ordered@.take(0) =~= Seq::<CheckResult>::empty());
        assert forall|k: Seq<char>| #[trigger] state@.contains_key(k) <==> (old(state)@.contains_key(k)
            || last_with_key(ordered@.take(0), k) is Some) by {}
        assert(out@.map_values(|n: Notification| n.transition) =~= Seq::<Transition>::empty());
    }
    while i < ordered.len()
        invariant
            state.wf(),
            sorted(ordered@),
            forall|j: int| 0 <= j < orig.len() ==> ordered@.contains(#[trigger] orig[j]),
            i <= ordered@.len(),
            ordered@.len() == orig.len(),
            forall|k: Seq<char>| #[trigger] old(state)@.contains_key(k) ==> state@.contains_key(k),
            forall|j: int| 0 <= j < i ==> state@.contains_key(key_of(#[trigger] ordered@[j]))
                && !state@[key_of(ordered@[j])].synchronizing,
            webhook is None ==> out@.len() == 0,
            out@.len() <= i,
            forall|j: int| 0 <= j < out@.len() ==> (#[trigger] out@[j]).url == webhook->0,
            forall|k: Seq<char>| #[trigger] baseline(state@, k) == baseline_after(old(state)@, ordered@.take(i as int), k),
            webhook is Some ==> out@.map_values(|n: Notification| n.transition) == transitions_of(old(state)@, ordered@.take(i as int)),
            recorded_in_order(old(state)@, ordered@.take(i as int), state@),
        decreases ordered@.len() - i,
    {
        let res = ordered[i].duplicate();
        let ghost prev_state = state@;
        let ghost prev_out = out@;
        let change = state.record(res);
        if let Some(t) = change {
            if let Some(n) = notification_for(webhook, &ordered[i], t) {
                out.push(n);
            }
        }
        proof {
            let t = ordered@.take(i + 1);
            assert(t.drop_last() =~= ordered@.take(i as int));
            assert(t.last() == ordered@[i as int]);
            assert forall|k: Seq<char>| #[trigger] baseline(state@, k) == baseline_after(old(state)@, t, k) by {
                if k != key_of(ordered@[i as int]) {
                    assert(state@.contains_key(k) == prev_state.contains_key(k));
                    if state@.contains_key(k) {
                        assert(state@[k] == prev_state[k]);
                    }
                    assert(baseline(prev_state, k) == baseline_after(old(state)@, ordered@.take(i as int), k));
                    assert(baseline_after(old(state)@, t, k) == baseline_after(old(state)@, t.drop_last(), k));
                } else {
                    assert(state@.contains_key(k));
                    assert(baseline(state@, k) == Some(status_of(ordered@[i as int].status)));
                }
            }
            let x = ordered@[i as int];
            assert forall|k: Seq<char>| #[trigger] state@.contains_key(k) <==> (old(state)@.contains_key(k) || last_with_key(t, k) is Some) by {
                if k != key_of(x) {
                    assert(state@.contains_key(k) == prev_state.contains_key(k));
                    assert(prev_state.contains_key(k) <==> (old(state)@.contains_key(k) || last_with_key(ordered@.take(i as int), k) is Some));
                }
            }
            assert forall|k: Seq<char>| #[trigger] last_with_key(t, k) is Some implies state@[k].result == last_with_key(t, k)->0
                && !state@[k].synchronizing by {
                if k != key_of(x) {
                    assert(last_with_key(ordered@.take(i as int), k) is Some);
                    assert(prev_state.contains_key(k));
                    assert(state@[k] == prev_state[k]);
                }
            }
            assert forall|k: Seq<char>| #[trigger] last_with_key(t, k) is None && old(state)@.contains_key(k) implies state@[k] == old(state)@[k] by {
                assert(k != key_of(x));
                assert(last_with_key(ordered@.take(i as int), k) is None);
                assert(prev_state.contains_key(k));
                assert(state@[k] == prev_state[k]);
            }
            if webhook is Some {
                if change is Some {
                    assert(out@.map_values(|n: Notification| n.transition) =~= prev_out.map_values(|n: Notification| n.transition).push(change->0));
                }
            }
        }
        i = i + 1;
    }
    proof {
        assert forall|j: int| 0 <= j < orig.len() implies state@.contains_key(key_of(#[trigger] orig[j]))
            && !state@[key_of(orig[j])].synchronizing by {
            let w = choose|m: int| 0 <= m < ordered@.len() && ordered@[m] == orig[j];
            assert(state@.contains_key(key_of(ordered@[w])));
        }
        assert(ordered@.take(i as int) =~= ordered@);
    }
    out
}

} // verus!
