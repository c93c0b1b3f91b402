//! The Deployment-watch side: turning a Deployment's annotations into
//! subscriptions.
//!
//! The list-watch plumbing lives outside; it hands each applied
//! Deployment's namespace, name and annotation map in, and records the
//! subscriptions read from them in the registry.

use vstd::prelude::*;

use crate::api::{found_keys, has_skip, key_prefix, slot_of};
use crate::key_manager::{has_id, id_of, key_of_id, KeyManager, SubEntry};
use crate::seqs::{lemma_filter_push, lemma_map_values_push, lemma_take_succ};
use crate::text::{is_prefix_of, str_eq, str_starts_with, suffix_string};
use crate::updater::pairs_view;
use vstd::string::StrSliceExecFns;

verus! {

/// A subscription as read off a Deployment: the identity triple and
/// the consul key it binds.
#[derive(Hash, Eq, PartialEq, Debug)]
pub struct FullSubscription {
    pub namespace: String,
    pub deployment: String,
    pub config_key: String,
    pub consul_key: String,
}

impl Clone for FullSubscription {
    fn clone(&self) -> (r: Self)
        ensures
            r == *self,
    {
        FullSubscription {
            namespace: self.namespace.clone(),
            deployment: self.deployment.clone(),
            config_key: self.config_key.clone(),
            consul_key: self.consul_key.clone(),
        }
    }
}

/// The subscriptions a Deployment's annotations declare: none when the
/// skip annotation is present, else one per key-binding annotation, in
/// order.
pub fn subscriptions_from_deployment(
    namespace: &String,
    name: &String,
    annotations: &Vec<(String, String)>,
) -> (r: Vec<FullSubscription>)
    ensures
        ({
            let anns = pairs_view(annotations@);
            if has_skip(anns) {
                r@.len() == 0
            } else {
                let f = found_keys(anns);
                &&& r@.len() == f.len()
                &&& forall|i: int|
                    0 <= i < f.len() ==> {
                        &&& (#[trigger] r@[i]).namespace@ == namespace@
                        &&& r@[i].deployment@ == name@
                        &&& r@[i].config_key@ == slot_of(f[i].0)
                        &&& r@[i].consul_key@ == f[i].1
                    }
            }
        }),
{
    let ghost anns = pairs_view(annotations@);
    let n = annotations.len();
    let mut i: usize = 0;
    while i < n
        invariant
            anns == pairs_view(annotations@),
            n == annotations@.len(),
            0 <= i <= n,
            forall|j: int| 0 <= j < i ==> (#[trigger] anns[j]).0 != crate::api::skip_annotation(),
        decreases n - i,
    {
        proof {
            assert(anns[i as int] == (annotations@[i as int].0@, annotations@[i as int].1@));
        }
        if str_eq(annotations[i].0.as_str(), "k8s-consul-mutator.io/skip") {
            proof {
                assert(has_skip(anns));
            }
            return Vec::new();
        }
        i += 1;
    }
    assert(!has_skip(anns));
    let ghost pred = |p: (Seq<char>, Seq<char>)| is_prefix_of(key_prefix(), p.0);
    let prefix_len = "k8s-consul-mutator.io/key-".unicode_len();
    assert(prefix_len == key_prefix().len());
    let mut results: Vec<FullSubscription> = Vec::new();
    let mut j: usize = 0;
    while j < n
        invariant
            anns == pairs_view(annotations@),
            pred == (|p: (Seq<char>, Seq<char>)| is_prefix_of(key_prefix(), p.0)),
            prefix_len == key_prefix().len(),
            n == annotations@.len(),
            0 <= j <= n,
            results@.len() == anns.take(j as int).filter(pred).len(),
            forall|i: int|
                0 <= i < results@.len() ==> {
                    &&& (#[trigger] results@[i]).namespace@ == namespace@
                    &&& results@[i].deployment@ == name@
                    &&& results@[i].config_key@ == slot_of(anns.take(j as int).filter(pred)[i].0)
                    &&& results@[i].consul_key@ == anns.take(j as int).filter(pred)[i].1
                },
        decreases n - j,
    {
        proof {
            lemma_take_succ(anns, j as int);
            lemma_filter_push(anns.take(j as int), pred, anns[j as int]);
            assert(anns[j as int] == (annotations@[j as int].0@, annotations@[j as int].1@));
        }
        if str_starts_with(annotations[j].0.as_str(), "k8s-consul-mutator.io/key-") {
            let slot = suffix_string(annotations[j].0.as_str(), prefix_len);
            results.push(
                FullSubscription {
                    namespace: namespace.clone(),
                    deployment: name.clone(),
                    config_key: slot,
                    consul_key: annotations[j].1.clone(),
                },
            );
        }
        j += 1;
    }
    proof {
        assert(anns.take(n as int) =~= anns);
    }
    results
}

/// What recording one read-off subscription does to the registry rows:
/// a fresh identity is appended; an existing one — matching key or not
/// — leaves the rows unchanged, as the conflict is only logged.
pub open spec fn record_one(subs: Seq<SubEntry>, sub: FullSubscription) -> Seq<SubEntry> {
    let id = id_of(sub.namespace@, sub.deployment@, sub.config_key@);
    if has_id(subs, id) {
        subs
    } else {
        subs.push(SubEntry { id, consul_key: sub.consul_key@ })
    }
}

/// What recording a list of read-off subscriptions does, in order.
pub open spec fn record_all(subs: Seq<SubEntry>, list: Seq<FullSubscription>) -> Seq<SubEntry>
    decreases list.len(),
{
    if list.len() == 0 {
        subs
    } else {
        record_all(record_one(subs, list.first()), list.drop_first())
    }
}

/// How many of the read-off subscriptions, recorded in order, hit an
/// identity already bound to a different key.
pub open spec fn conflict_count(subs: Seq<SubEntry>, list: Seq<FullSubscription>) -> int
    decreases list.len(),
{
    if list.len() == 0 {
        0
    } else {
        let sub = list.first();
        let id = id_of(sub.namespace@, sub.deployment@, sub.config_key@);
        (if has_id(subs, id) && key_of_id(subs, id) != sub.consul_key@ {
            1int
        } else {
            0int
        }) + conflict_count(record_one(subs, sub), list.drop_first())
    }
}

/// Records the subscriptions read off an applied Deployment, from
/// `idx` on, and reports how many conflicted.  A conflicting binding is
/// left for the log and skipped; the rest are still recorded.
pub fn record_subscriptions<K: KeyManager>(
    km: &mut K,
    subs: &Vec<FullSubscription>,
    idx: usize,
) -> (conflicts: usize)
    requires
        old(km).inv(),
        idx <= subs@.len(),
    ensures
        final(km).inv(),
        conflicts <= subs@.len() - idx,
        K::obeys_registry() ==> {
            &&& final(km).subs() == record_all(old(km).subs(), subs@.skip(idx as int))
            &&& final(km).checksums() == old(km).checksums()
            &&& conflicts == conflict_count(old(km).subs(), subs@.skip(idx as int))
        },
    decreases subs@.len() - idx,
{
    if idx == subs.len() {
        proof {
            assert(subs@.skip(idx as int) =~= Seq::<FullSubscription>::empty());
        }
        return 0;
    }
    proof {
        assert(subs@.skip(idx as int).first() == subs@[idx as int]);
        assert(subs@.skip(idx as int).drop_first() =~= subs@.skip(idx as int + 1));
    }
    let watch_res = km.watch(
        subs[idx].namespace.clone(),
        subs[idx].deployment.clone(),
        subs[idx].config_key.clone(),
        subs[idx].consul_key.clone(),
    );
    let here: usize = match watch_res {
        Ok(_) => 0,
        Err(_) => 1,
    };
    let rest = record_subscriptions(km, subs, idx + 1);
    here + rest
}

} // verus!
