//! The deployment update worker.
//!
//! Change notifications arrive as `DeploymentUpdate` intents; the queue
//! coalesces bursts per `(namespace, deployment)` and releases an
//! intent only once it has been quiet for the debounce window.  For a
//! released intent, `plan_update` decides whether to patch and builds
//! the two annotation maps; the Kubernetes PATCH itself happens
//! outside.

use vstd::prelude::*;

use crate::key_manager::{annotations_of, KeyManager};
use crate::seqs::{
    lemma_filter_distinct_by, lemma_filter_push, lemma_map_values_push, lemma_take_succ,
};
use crate::state::{debounce_elapsed, elapsed, same_target, DeploymentUpdate};
use crate::text::concat_strs;
use vstd::string::StringExecFns;

verus! {

/// The `(path, value)` views of a vector of string pairs.
pub open spec fn pairs_view(v: Seq<(String, String)>) -> Seq<(Seq<char>, Seq<char>)> {
    v.map_values(|p: (String, String)| (p.0@, p.1@))
}

/// The target of an update intent, as contracts see it.
pub open spec fn target_of(w: DeploymentUpdate) -> (Seq<char>, Seq<char>) {
    (w.namespace@, w.deployment@)
}

/// No two queued intents aim at the same deployment.
pub open spec fn unique_targets(p: Seq<DeploymentUpdate>) -> bool {
    forall|i: int, j: int|
        0 <= i < j < p.len() ==> target_of(#[trigger] p[i]) != target_of(#[trigger] p[j])
}

/// The debounce queue of the update worker.
pub struct UpdateQueue {
    pending: Vec<DeploymentUpdate>,
}

impl UpdateQueue {
    /// The queued intents, in arrival order.
    pub closed spec fn pending_work(&self) -> Seq<DeploymentUpdate> {
        self.pending@
    }

    /// Internal well-formedness: one intent per deployment.
    pub closed spec fn inv(&self) -> bool {
        unique_targets(self.pending@)
    }

    /// An empty queue.
    pub fn new() -> (r: UpdateQueue)
        ensures
            r.inv(),
            r.pending_work() == Seq::<DeploymentUpdate>::empty(),
    {
        UpdateQueue { pending: Vec::new() }
    }

    /// Takes one intent in: every queued intent for the same
    /// deployment is dropped, then the new one is appended — a burst
    /// collapses to its newest intent and the debounce clock restarts.
    pub fn submit(&mut self, w: DeploymentUpdate)
        requires
            old(self).inv(),
        ensures
            final(self).inv(),
            final(self).pending_work() == old(self).pending_work().filter(
                |x: DeploymentUpdate| !same_target(x, w),
            ).push(w),
    {
        let ghost p0 = self.pending@;
        let ghost pred = |x: DeploymentUpdate| !same_target(x, w);
        let n = self.pending.len();
        let mut kept: Vec<DeploymentUpdate> = Vec::new();
        let mut i: usize = 0;
        while i < n
            invariant
                self.pending@ == p0,
                pred == (|x: DeploymentUpdate| !same_target(x, w)),
                n == p0.len(),
                0 <= i <= n,
                kept@ == p0.take(i as int).filter(pred),
            decreases n - i,
        {
            proof {
                lemma_take_succ(p0, i as int);
                lemma_filter_push(p0.take(i as int), pred, p0[i as int]);
            }
            if !(self.pending[i].namespace == w.namespace && self.pending[i].deployment
                == w.deployment) {
                kept.push(self.pending[i].clone());
            }
            i += 1;
        }
        proof {
            assert(p0.take(n as int) =~= p0);
        }
        kept.push(w);
        self.pending = kept;
        proof {
            lemma_filter_distinct_by(p0, pred, |x: DeploymentUpdate| target_of(x));
            crate::seqs::lemma_filter_sound(p0, pred);
            let f = p0.filter(pred);
            assert forall|a: int, b: int|
                0 <= a < b < self.pending@.len() implies target_of(#[trigger] self.pending@[a])
                != target_of(#[trigger] self.pending@[b]) by {
                if b == f.len() as int {
                    assert(pred(f[a]));
                }
            }
        }
    }

    /// Releases every intent whose debounce window has elapsed, in
    /// arrival order; the young ones stay queued.
    pub fn take_due(&mut self, now: u64, debounce: u64) -> (due: Vec<DeploymentUpdate>)
        requires
            old(self).inv(),
        ensures
            final(self).inv(),
            due@ == old(self).pending_work().filter(
                |x: DeploymentUpdate| elapsed(x.occurred, debounce, now),
            ),
            final(self).pending_work() == old(self).pending_work().filter(
                |x: DeploymentUpdate| !elapsed(x.occurred, debounce, now),
            ),
            unique_targets(due@),
    {
        let ghost p0 = self.pending@;
        let ghost due_pred = |x: DeploymentUpdate| elapsed(x.occurred, debounce, now);
        let ghost keep_pred = |x: DeploymentUpdate| !elapsed(x.occurred, debounce, now);
        let n = self.pending.len();
        let mut kept: Vec<DeploymentUpdate> = Vec::new();
        let mut due: Vec<DeploymentUpdate> = Vec::new();
        let mut i: usize = 0;
        while i < n
            invariant
                self.pending@ == p0,
                due_pred == (|x: DeploymentUpdate| elapsed(x.occurred, debounce, now)),
                keep_pred == (|x: DeploymentUpdate| !elapsed(x.occurred, debounce, now)),
                n == p0.len(),
                0 <= i <= n,
                kept@ == p0.take(i as int).filter(keep_pred),
                due@ == p0.take(i as int).filter(due_pred),
            decreases n - i,
        {
            proof {
                lemma_take_succ(p0, i as int);
                lemma_filter_push(p0.take(i as int), keep_pred, p0[i as int]);
                lemma_filter_push(p0.take(i as int), due_pred, p0[i as int]);
            }
            if debounce_elapsed(self.pending[i].occurred, debounce, now) {
                due.push(self.pending[i].clone());
            } else {
                kept.push(self.pending[i].clone());
            }
            i += 1;
        }
        proof {
            assert(p0.take(n as int) =~= p0);
        }
        self.pending = kept;
        proof {
            lemma_filter_distinct_by(p0, keep_pred, |x: DeploymentUpdate| target_of(x));
            lemma_filter_distinct_by(p0, due_pred, |x: DeploymentUpdate| target_of(x));
        }
        due
    }
}

/// The annotation written for a slot's checksum.
pub open spec fn checksum_annotation_of(slot: Seq<char>) -> Seq<char> {
    "k8s-consul-mutator.io/checksum-"@ + slot
}

/// The `(annotation, value)` pairs written for a deployment: one per
/// slot checksum when `include_checksums`, plus the `last-updated`
/// stamp when `include_timestamp`.
pub open spec fn annotation_map_of(
    slot_sums: Seq<(Seq<char>, Seq<char>)>,
    include_checksums: bool,
    include_timestamp: bool,
    timestamp: Seq<char>,
) -> Seq<(Seq<char>, Seq<char>)> {
    (if include_checksums {
        slot_sums.map_values(|p: (Seq<char>, Seq<char>)| (checksum_annotation_of(p.0), p.1))
    } else {
        Seq::empty()
    }) + (if include_timestamp {
        seq![("k8s-consul-mutator.io/last-updated"@, timestamp)]
    } else {
        Seq::empty()
    })
}

/// Builds one annotation map from the registry's `(slot, checksum)`
/// pairs.
pub fn build_annotations(
    slot_sums: &Vec<(String, String)>,
    include_checksums: bool,
    include_timestamp: bool,
    timestamp: &String,
) -> (r: Vec<(String, String)>)
    ensures
        pairs_view(r@) == annotation_map_of(
            pairs_view(slot_sums@),
            include_checksums,
            include_timestamp,
            timestamp@,
        ),
{
    let ghost ss = pairs_view(slot_sums@);
    let ghost f = |p: (Seq<char>, Seq<char>)| (checksum_annotation_of(p.0), p.1);
    let mut r: Vec<(String, String)> = Vec::new();
    if include_checksums {
        let n = slot_sums.len();
        let mut i: usize = 0;
        while i < n
            invariant
                ss == pairs_view(slot_sums@),
                f == (|p: (Seq<char>, Seq<char>)| (checksum_annotation_of(p.0), p.1)),
                n == slot_sums@.len(),
                0 <= i <= n,
                pairs_view(r@) == ss.take(i as int).map_values(f),
            decreases n - i,
        {
            proof {
                lemma_take_succ(ss, i as int);
                lemma_map_values_push(ss.take(i as int), f, ss[i as int]);
                assert(ss[i as int] == (slot_sums@[i as int].0@, slot_sums@[i as int].1@));
            }
            let ghost r0 = r@;
            let key = concat_strs("k8s-consul-mutator.io/checksum-", slot_sums[i].0.as_str());
            r.push((key, slot_sums[i].1.clone()));
            proof {
                lemma_map_values_push(
                    r0,
                    |p: (String, String)| (p.0@, p.1@),
                    r@[r0.len() as int],
                );
            }
            i += 1;
        }
        proof {
            assert(ss.take(n as int) =~= ss);
        }
    }
    proof {
        if include_checksums {
            assert(pairs_view(r@) == ss.map_values(f));
        } else {
            assert(pairs_view(r@) =~= Seq::<(Seq<char>, Seq<char>)>::empty());
        }
    }
    if include_timestamp {
        let ghost r1 = r@;
        let key = String::from_str("k8s-consul-mutator.io/last-updated");
        r.push((key, timestamp.clone()));
        proof {
            lemma_map_values_push(
                r1,
                |p: (String, String)| (p.0@, p.1@),
                r@[r1.len() as int],
            );
            assert(pairs_view(r@) =~= pairs_view(r1) + seq![
                ("k8s-consul-mutator.io/last-updated"@, timestamp@),
            ]);
        }
    } else {
        proof {
            assert(pairs_view(r@) =~= pairs_view(r@) + Seq::<(Seq<char>, Seq<char>)>::empty());
        }
    }
    r
}

/// What the runtime's Deployment lookup reported for one intent.
pub enum DeploymentLookup {
    Found,
    Missing,
    LookupFailed,
}

/// A PATCH to apply to one Deployment: its name and the two annotation
/// maps — the top-level one and the pod-template one, whose change is
/// what actually rolls the pods.
pub struct PatchPlan {
    pub deployment: String,
    pub annotations: Vec<(String, String)>,
    pub spec_annotations: Vec<(String, String)>,
}

/// What to do for one released intent.
pub enum UpdateAction {
    Patch(PatchPlan),
    Skip,
}

/// Decides what to do for one released intent: a Deployment that was
/// found is patched with the registry's current slot checksums; a
/// missing Deployment, or a failed lookup, is skipped without harm —
/// the next change or reconcile resurfaces it.
pub fn plan_update<K: KeyManager>(
    km: &K,
    work: &DeploymentUpdate,
    lookup: DeploymentLookup,
    set_annotations: bool,
    set_spec_annotations: bool,
    set_timestamp: bool,
    set_spec_timestamp: bool,
    timestamp: &String,
) -> (r: UpdateAction)
    requires
        km.inv(),
    ensures
        (r is Patch) <==> (lookup is Found),
        r matches UpdateAction::Patch(p) ==> {
            &&& p.deployment@ == work.deployment@
            &&& K::obeys_registry() ==> {
                let slot_sums = annotations_of(
                    km.subs(),
                    km.checksums(),
                    work.namespace@,
                    work.deployment@,
                );
                &&& pairs_view(p.annotations@) == annotation_map_of(
                    slot_sums,
                    set_annotations,
                    set_timestamp,
                    timestamp@,
                )
                &&& pairs_view(p.spec_annotations@) == annotation_map_of(
                    slot_sums,
                    set_spec_annotations,
                    set_spec_timestamp,
                    timestamp@,
                )
            }
        },
{
    match lookup {
        DeploymentLookup::Found => {
            let ann_res = km.deployment_annotations(work.namespace.clone(), work.deployment.clone());
            let slot_sums = match ann_res {
                Ok(v) => v,
                Err(_) => {
                    proof {
                        assert(false);
                    }
                    Vec::new()
                },
            };
            let annotations = build_annotations(
                &slot_sums,
                set_annotations,
                set_timestamp,
                timestamp,
            );
            let spec_annotations = build_annotations(
                &slot_sums,
                set_spec_annotations,
                set_spec_timestamp,
                timestamp,
            );
            UpdateAction::Patch(
                PatchPlan { deployment: work.deployment.clone(), annotations, spec_annotations },
            )
        },
        DeploymentLookup::Missing => UpdateAction::Skip,
        DeploymentLookup::LookupFailed => UpdateAction::Skip,
    }
}

/// Law: a released intent has always rested for the full debounce
/// window — nothing is flushed before `occurred + debounce` has passed.
pub proof fn lemma_flush_respects_debounce(
    pending: Seq<DeploymentUpdate>,
    due: Seq<DeploymentUpdate>,
    now: u64,
    debounce: u64,
    i: int,
)
    requires
        due == pending.filter(|x: DeploymentUpdate| elapsed(x.occurred, debounce, now)),
        0 <= i < due.len(),
    ensures
        due[i].occurred + debounce < now,
{
    crate::seqs::lemma_filter_sound(pending, |x: DeploymentUpdate| elapsed(x.occurred, debounce, now));
}

/// Law: two intents for the same deployment within one debounce window
/// release exactly one intent — the queue keeps one per target, so one
/// PATCH follows.
pub proof fn lemma_coalesced_single_release(
    p0: Seq<DeploymentUpdate>,
    w1: DeploymentUpdate,
    w2: DeploymentUpdate,
    due: Seq<DeploymentUpdate>,
    now: u64,
    debounce: u64,
)
    requires
        unique_targets(p0),
        same_target(w1, w2),
        elapsed(w2.occurred, debounce, now),
        due == p0.filter(|x: DeploymentUpdate| !same_target(x, w1)).push(w1).filter(
            |x: DeploymentUpdate| !same_target(x, w2),
        ).push(w2).filter(|x: DeploymentUpdate| elapsed(x.occurred, debounce, now)),
    ensures
        due.contains(w2),
        forall|j: int|
            0 <= j < due.len() && same_target(#[trigger] due[j], w2) ==> due[j] == w2,
{
    let p1 = p0.filter(|x: DeploymentUpdate| !same_target(x, w1)).push(w1);
    let p2 = p1.filter(|x: DeploymentUpdate| !same_target(x, w2)).push(w2);
    let due_pred = |x: DeploymentUpdate| elapsed(x.occurred, debounce, now);
    lemma_filter_push(p1.filter(|x: DeploymentUpdate| !same_target(x, w2)), due_pred, w2);
    assert(due.last() == w2);
    assert(due.contains(w2));
    assert forall|j: int|
        0 <= j < due.len() && same_target(#[trigger] due[j], w2) implies due[j] == w2 by {
        crate::seqs::lemma_filter_sound(p1, |x: DeploymentUpdate| !same_target(x, w2));
        if j < due.len() - 1 {
            crate::seqs::lemma_filter_membership(p2, due_pred, j);
            let m = choose|m: int| 0 <= m < p2.len() && due[j] == p2[m];
            if m < p2.len() - 1 {
                assert(p2[m] == p1.filter(|x: DeploymentUpdate| !same_target(x, w2))[m]);
                assert(!same_target(p2[m], w2));
            }
        }
    }
}

} // verus!
