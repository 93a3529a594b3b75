//! The shared map from tracked key to latest result, and the reconciler that
//! updates it and reports Up/Down transitions.

use vstd::prelude::*;
use crate::models::{CheckResult, Status, key_of, status_of, status_from};

verus! {

/// A change of derived status for one tracked key.
#[derive(Debug, Clone, Copy, PartialEq, Eq, Structural)]
pub struct Transition {
    pub old: Status,
    pub new: Status,
}

/// One stored result. A `synchronizing` entry is a placeholder seeded before
/// the first measurement; it is no baseline for change detection.
#[derive(Debug, Clone)]
pub struct TrackedEntry {
    pub key: String,
    pub result: CheckResult,
    pub synchronizing: bool,
}

/// Latest result per tracked key.
pub struct MonitorState {
    last_results: Vec<TrackedEntry>,
    model: Ghost<Map<Seq<char>, TrackedEntry>>,
}

/// The status a new result for `k` is compared with: that of the stored
/// result, or none when the key is absent or only a placeholder.
pub open spec fn baseline(m: Map<Seq<char>, TrackedEntry>, k: Seq<char>) -> Option<Status> {
    if m.contains_key(k) && !m[k].synchronizing {
        Some(status_of(m[k].result.status))
    } else {
        None
    }
}

/// The transition that a new status makes from a baseline; a missing
/// baseline counts as `Up`.
pub open spec fn transition_from(prior: Option<Status>, new: Status) -> Option<Transition> {
    let old = match prior {
        Some(s) => s,
        None => Status::Up,
    };
    if old != new {
        Some(Transition { old, new })
    } else {
        None
    }
}

/// The stored result for `k`, if any.
pub open spec fn lookup(m: Map<Seq<char>, TrackedEntry>, k: Seq<char>) -> Option<CheckResult> {
    if m.contains_key(k) {
        Some(m[k].result)
    } else {
        None
    }
}

/// The transition, if any, from a baseline to a new status.
pub fn detect_transition(prior: Option<Status>, new: Status) -> (r: Option<Transition>)
    ensures
        r == transition_from(prior, new),
{
    let old = match prior {
        Some(s) => s,
        None => Status::Up,
    };
    if old != new {
        Some(Transition { old, new })
    } else {
        None
    }
}

impl View for MonitorState {
    type V = Map<Seq<char>, TrackedEntry>;

    closed spec fn view(&self) -> Map<Seq<char>, TrackedEntry> {
        self.model@
    }
}

impl MonitorState {
    pub closed spec fn wf(&self) -> bool {
        &&& forall|i: int|
            0 <= i < self.last_results@.len() ==> {
                &&& #[trigger] self.model@.contains_key(self.last_results@[i].key@)
                &&& self.model@[self.last_results@[i].key@] == self.last_results@[i]
                &&& self.last_results@[i].key@ == key_of(self.last_results@[i].result)
            }
        &&& forall|k: Seq<char>|
            #[trigger] self.model@.contains_key(k) ==> exists|i: int|
                0 <= i < self.last_results@.len() && #[trigger] self.last_results@[i].key@ == k
        &&& forall|i: int, j: int|
            0 <= i < self.last_results@.len() && 0 <= j < self.last_results@.len() && i != j
                ==> #[trigger] self.last_results@[i].key@ != #[trigger] self.last_results@[j].key@
    }

    /// An empty state.
    pub fn new() -> (r: MonitorState)
        ensures
            r.wf(),
            r@ == Map::<Seq<char>, TrackedEntry>::empty(),
    {
        MonitorState { last_results: Vec::new(), model: Ghost(Map::empty()) }
    }

    fn find(&self, key: &String) -> (r: Option<usize>)
        requires
            self.wf(),
        ensures
            r matches Some(i) ==> i < self.last_results@.len() && self.last_results@[i as int].key@
                == key@,
            r is None ==> !self@.contains_key(key@),
    {
        let mut i: usize = 0;
        while i < self.last_results.len()
            invariant
                self.wf(),
                i <= self.last_results@.len(),
                forall|j: int| 0 <= j < i ==> self.last_results@[j].key@ != key@,
            decreases self.last_results@.len() - i,
        {
            if self.last_results[i].key == *key {
                return Some(i);
            }
            i = i + 1;
        }
        proof {
            if self@.contains_key(key@) {
                let j = choose|j: int| 0 <= j < self.last_results@.len() && #[trigger] self.last_results@[j].key@ == key@;
                assert(self.last_results@[j].key@ == key@);
            }
        }
        None
    }

    /// Number of tracked keys.
    pub fn len(&self) -> (r: usize)
        requires
            self.wf(),
        ensures
            r == self@.dom().len(),
    {
        proof {
            self.lemma_dom_is_keys();
        }
        self.last_results.len()
    }

    proof fn lemma_dom_is_keys(&self)
        requires
            self.wf(),
        ensures
            self@.dom().finite(),
            self@.dom().len() == self.last_results@.len(),
    {
        let keys = self.last_results@.map_values(|e: TrackedEntry| e.key@);
        assert forall|i: int, j: int| 0 <= i < keys.len() && 0 <= j < keys.len() && i != j implies keys[i] != keys[j] by {
            assert(self.last_results@[i].key@ != self.last_results@[j].key@);
        }
        keys.unique_seq_to_set();
        assert(self@.dom() =~= keys.to_set()) by {
            assert forall|k: Seq<char>| self@.dom().contains(k) implies keys.to_set().contains(k) by {
                let i = choose|i: int| 0 <= i < self.last_results@.len() && #[trigger] self.last_results@[i].key@ == k;
                assert(keys[i] == k);
            }
            assert forall|k: Seq<char>| keys.to_set().contains(k) implies self@.dom().contains(k) by {
                let i = choose|i: int| 0 <= i < keys.len() && keys[i] == k;
                assert(self.model@.contains_key(self.last_results@[i].key@));
            }
        }
    }

    /// Seeds a placeholder for the key of `placeholder` unless that key is
    /// already tracked.
    pub fn seed(&mut self, placeholder: CheckResult)
        requires
            old(self).wf(),
        ensures
            final(self).wf(),
            old(self)@.contains_key(key_of(placeholder)) ==> final(self)@ == old(self)@,
            !old(self)@.contains_key(key_of(placeholder)) ==> final(self)@ == old(self)@.insert(
                key_of(placeholder),
                final(self)@[key_of(placeholder)],
            ) && final(self)@[key_of(placeholder)].result == placeholder
                && final(self)@[key_of(placeholder)].synchronizing,
    {
        let key = placeholder.tracked_key();
        if self.find(&key).is_none() {
            let entry = TrackedEntry { key, result: placeholder, synchronizing: true };
            self.insert_new(entry);
        }
    }

    fn insert_new(&mut self, entry: TrackedEntry)
        requires
            old(self).wf(),
            !old(self)@.contains_key(entry.key@),
            entry.key@ == key_of(entry.result),
        ensures
            final(self).wf(),
            final(self)@ == old(self)@.insert(entry.key@, entry),
    {
        let ghost k = entry.key@;
        let ghost n = self.last_results@.len();
        self.model = Ghost(self.model@.insert(k, entry));
        self.last_results.push(entry);
        proof {
            assert(self.last_results@[n as int].key@ == k);
            assert forall|k2: Seq<char>| #[trigger] self.model@.contains_key(k2) implies exists|i: int|
                0 <= i < self.last_results@.len() && #[trigger] self.last_results@[i].key@ == k2 by {
                if k2 != k {
                    let i = choose|i: int| 0 <= i < old(self).last_results@.len() && #[trigger] old(self).last_results@[i].key@ == k2;
                    assert(self.last_results@[i].key@ == k2);
                }
            }
            assert forall|i: int, j: int|
                0 <= i < self.last_results@.len() && 0 <= j < self.last_results@.len() && i != j
                    implies #[trigger] self.last_results@[i].key@ != #[trigger] self.last_results@[j].key@ by {
                if i == n as int {
                    assert(old(self).model@.contains_key(old(self).last_results@[j].key@));
                } else if j == n as int {
                    assert(old(self).model@.contains_key(old(self).last_results@[i].key@));
                }
            }
        }
    }

    /// Stores `result` under its tracked key, replacing what was there, and
    /// returns the transition it makes from the key's baseline.
    pub fn record(&mut self, result: CheckResult) -> (r: Option<Transition>)
        requires
            old(self).wf(),
        ensures
            final(self).wf(),
            final(self)@ == old(self)@.insert(key_of(result), final(self)@[key_of(result)]),
            final(self)@[key_of(result)].result == result,
            !final(self)@[key_of(result)].synchronizing,
            r == transition_from(baseline(old(self)@, key_of(result)), status_of(result.status)),
    {
        let key = result.tracked_key();
        let new = status_from(result.status);
        match self.find(&key) {
            Some(i) => {
                let prior = if self.last_results[i].synchronizing {
                    None
                } else {
                    Some(status_from(self.last_results[i].result.status))
                };
                let ghost k = key@;
                let entry = TrackedEntry { key, result, synchronizing: false };
                proof {
                    assert(self.model@.contains_key(self.last_results@[i as int].key@));
                }
                self.model = Ghost(self.model@.insert(k, entry));
                self.last_results.set(i, entry);
                proof {
                    assert forall|k2: Seq<char>| #[trigger] self.model@.contains_key(k2) implies exists|j: int|
                        0 <= j < self.last_results@.len() && #[trigger] self.last_results@[j].key@ == k2 by {
                        if k2 != k {
                            let j = choose|j: int| 0 <= j < old(self).last_results@.len() && #[trigger] old(self).last_results@[j].key@ == k2;
                            assert(self.last_results@[j].key@ == k2);
                        } else {
                            assert(self.last_results@[i as int].key@ == k2);
                        }
                    }
                    assert forall|a: int, b: int|
                        0 <= a < self.last_results@.len() && 0 <= b < self.last_results@.len() && a != b
                            implies #[trigger] self.last_results@[a].key@ != #[trigger] self.last_results@[b].key@ by {
                        assert(old(self).last_results@[a].key@ != old(self).last_results@[b].key@);
                    }
                    assert forall|j: int| 0 <= j < self.last_results@.len() implies {
                        &&& #[trigger] self.model@.contains_key(self.last_results@[j].key@)
                        &&& self.model@[self.last_results@[j].key@] == self.last_results@[j]
                        &&& self.last_results@[j].key@ == key_of(self.last_results@[j].result)
                    } by {
                        if j != i as int {
                            assert(old(self).last_results@[j].key@ != old(self).last_results@[i as int].key@);
                            assert(old(self).model@.contains_key(old(self).last_results@[j].key@));
                        }
                    }
                }
                detect_transition(prior, new)
            },
            None => {
                let entry = TrackedEntry { key, result, synchronizing: false };
                self.insert_new(entry);
                detect_transition(None, new)
            },
        }
    }

    /// The stored result for `key`, if any.
    pub fn get(&self, key: &String) -> (r: Option<CheckResult>)
        requires
            self.wf(),
        ensures
            r == lookup(self@, key@),
    {
        match self.find(key) {
            Some(i) => {
                proof {
                    assert(self.model@.contains_key(self.last_results@[i as int].key@));
                }
                Some(self.last_results[i].result.duplicate())
            },
            None => None,
        }
    }

    /// Every stored result, in no particular order.
    pub fn snapshot(&self) -> (r: Vec<CheckResult>)
        requires
            self.wf(),
        ensures
            r@.len() == self@.dom().len(),
            forall|k: Seq<char>| #[trigger] self@.contains_key(k) ==> r@.contains(self@[k].result),
            forall|i: int| 0 <= i < r@.len() ==> lookup(self@, key_of(#[trigger] r@[i])) == Some(r@[i]),
    {
        let mut out: Vec<CheckResult> = Vec::new();
        let mut i: usize = 0;
        while i < self.last_results.len()
            invariant
                self.wf(),
                i <= self.last_results@.len(),
                out@.len() == i,
                forall|j: int| 0 <= j < i ==> out@[j] == self.last_results@[j].result,
            decreases self.last_results@.len() - i,
        {
            out.push(self.last_results[i].result.duplicate());
            i = i + 1;
        }
        proof {
            self.lemma_dom_is_keys();
            assert forall|k: Seq<char>| #[trigger] self@.contains_key(k) implies out@.contains(self@[k].result) by {
                let j = choose|j: int| 0 <= j < self.last_results@.len() && #[trigger] self.last_results@[j].key@ == k;
                assert(out@[j] == self@[k].result);
            }
            assert forall|j: int| 0 <= j < out@.len() implies lookup(self@, key_of(#[trigger] out@[j])) == Some(out@[j]) by {
                assert(self.model@.contains_key(self.last_results@[j].key@));
            }
        }
        out
    }
}

/// Change detection is edge-triggered: once a key holds a measured result,
/// the next result for it reports a transition exactly when its derived
/// status differs; a first result, or one after a placeholder, reports one
/// exactly when it is a failure.
pub proof fn lemma_transition_iff_status_changes(
    m: Map<Seq<char>, TrackedEntry>,
    a: CheckResult,
    b: CheckResult,
    e: TrackedEntry,
)
    requires
        key_of(a) == key_of(b),
        e.result == a,
        !e.synchronizing,
    ensures
        (transition_from(baseline(m.insert(key_of(a), e), key_of(b)), status_of(b.status)) is Some)
            <==> (a.status != b.status),
        baseline(m, key_of(a)) is None ==> ((transition_from(baseline(m, key_of(a)), status_of(a.status)) is Some)
            <==> !a.status),
{
}

/// A result stored under its key is read back unchanged until a result with
/// the same key replaces it.
pub proof fn lemma_stored_result_read_back(
    m: Map<Seq<char>, TrackedEntry>,
    e: TrackedEntry,
    others: Seq<TrackedEntry>,
)
    requires
        forall|i: int| 0 <= i < others.len() ==> key_of((#[trigger] others[i]).result) != key_of(e.result),
    ensures
        lookup(
            others.fold_left(m.insert(key_of(e.result), e), |acc: Map<Seq<char>, TrackedEntry>, o: TrackedEntry| acc.insert(key_of(o.result), o)),
            key_of(e.result),
        ) == Some(e.result),
    decreases others.len(),
{
    if others.len() > 0 {
        let init = others.drop_last();
        lemma_stored_result_read_back(m, e, init);
        assert(init.len() < others.len());
        assert forall|i: int| 0 <= i < init.len() implies key_of((#[trigger] init[i]).result) != key_of(e.result) by {
            assert(init[i] == others[i]);
        }
    }
}

} // verus!
