//! The admission mutation planner.
//!
//! An incoming object is seen here as its namespace, its name and its
//! annotation map.  Keys of the form `k8s-consul-mutator.io/key-{slot}`
//! bind the slot to the consul key in the annotation's value: each one
//! is recorded in the registry, a create command for the watcher
//! supervisor is queued, and — when a checksum is already known — two
//! JSON Patch `add` operations are produced.  An object carrying the
//! skip annotation passes unchanged.  The HTTP and AdmissionReview
//! framing around this lives outside.

use vstd::prelude::*;
use vstd::string::StrSliceExecFns;

use crate::error::{ConMutError, ErrorKind};
use crate::key_manager::{has_id, id_of, key_of_id, KeyManager, SubEntry};
use crate::seqs::{lemma_filter_push, lemma_filter_sound, lemma_map_values_push, lemma_take_succ};
use crate::state::{is_create, key_of, when_of, ConsulWatch};
use crate::text::{concat_strs, is_prefix_of, str_eq, str_starts_with, suffix_string};
use crate::updater::pairs_view;

verus! {

/// The prefix of an annotation that binds a slot to a consul key.
pub open spec fn key_prefix() -> Seq<char> {
    "k8s-consul-mutator.io/key-"@
}

/// The annotation that exempts an object from mutation.
pub open spec fn skip_annotation() -> Seq<char> {
    "k8s-consul-mutator.io/skip"@
}

/// The slot named by a key-binding annotation: what follows the prefix.
pub open spec fn slot_of(k: Seq<char>) -> Seq<char> {
    k.skip(key_prefix().len() as int)
}

/// The JSON Patch path of a slot's checksum in the object's metadata.
pub open spec fn meta_path_of(slot: Seq<char>) -> Seq<char> {
    "/metadata/annotations/k8s-consul-mutator.io~1checksum-"@ + slot
}

/// The JSON Patch path of a slot's checksum in the pod template.
pub open spec fn spec_path_of(slot: Seq<char>) -> Seq<char> {
    "/spec/template/metadata/annotations/k8s-consul-mutator.io~1checksum-"@ + slot
}

/// Whether an annotation map carries the skip annotation.
pub open spec fn has_skip(anns: Seq<(Seq<char>, Seq<char>)>) -> bool {
    exists|i: int| 0 <= i < anns.len() && (#[trigger] anns[i]).0 == skip_annotation()
}

/// The key-binding annotations, in order.
pub open spec fn found_keys(anns: Seq<(Seq<char>, Seq<char>)>) -> Seq<(Seq<char>, Seq<char>)> {
    anns.filter(|p: (Seq<char>, Seq<char>)| is_prefix_of(key_prefix(), p.0))
}

/// What planning a mutation yields, as contracts see it: the registry
/// rows afterwards, the patch operations and create commands in order,
/// and whether it succeeded — `ok` is false exactly when some binding
/// conflicted with an existing subscription.
pub ghost struct PlanSpec {
    pub subs: Seq<SubEntry>,
    pub patches: Seq<(Seq<char>, Seq<char>)>,
    pub commands: Seq<(Seq<char>, u64)>,
    pub ok: bool,
}

/// Processes the key-binding annotations in order.  Each one is
/// recorded in the registry — a re-binding of an existing identity to a
/// different key stops everything with a conflict — and queues a create
/// command; when the checksum table already knows the consul key, two
/// patch operations are produced.
pub open spec fn process_keys(
    subs: Seq<SubEntry>,
    sums: Map<Seq<char>, Seq<char>>,
    ns: Seq<char>,
    name: Seq<char>,
    found: Seq<(Seq<char>, Seq<char>)>,
    now: u64,
) -> PlanSpec
    decreases found.len(),
{
    if found.len() == 0 {
        PlanSpec { subs, patches: Seq::empty(), commands: Seq::empty(), ok: true }
    } else {
        let k = found[0].0;
        let v = found[0].1;
        let slot = slot_of(k);
        let id = id_of(ns, name, slot);
        if has_id(subs, id) && key_of_id(subs, id) != v {
            PlanSpec { subs, patches: Seq::empty(), commands: Seq::empty(), ok: false }
        } else {
            let subs1 = if has_id(subs, id) {
                subs
            } else {
                subs.push(SubEntry { id, consul_key: v })
            };
            let rest = process_keys(subs1, sums, ns, name, found.drop_first(), now);
            PlanSpec {
                subs: rest.subs,
                patches: (if sums.contains_key(v) {
                    seq![(meta_path_of(slot), sums[v]), (spec_path_of(slot), sums[v])]
                } else {
                    Seq::empty()
                }) + rest.patches,
                commands: seq![(v, now)] + rest.commands,
                ok: rest.ok,
            }
        }
    }
}

/// One JSON Patch `add` operation: a path and the string value added
/// there.
#[derive(Debug)]
pub struct PatchOp {
    pub path: String,
    pub value: String,
}

/// What an admission mutation asks the runtime to do: apply these
/// patch operations to the object, and send these commands to the
/// watcher supervisor.
#[derive(Debug)]
pub struct MutationPlan {
    pub patches: Vec<PatchOp>,
    pub commands: Vec<ConsulWatch>,
}

/// The `(path, value)` views of patch operations.
pub open spec fn ops_view(v: Seq<PatchOp>) -> Seq<(Seq<char>, Seq<char>)> {
    v.map_values(|op: PatchOp| (op.path@, op.value@))
}

/// The `(key, instant)` views of supervisor commands.
pub open spec fn cmds_view(v: Seq<ConsulWatch>) -> Seq<(Seq<char>, u64)> {
    v.map_values(|c: ConsulWatch| (key_of(c), when_of(c)))
}

/// Processes the key-binding annotations from `idx` on, mirroring
/// `process_keys`.
fn process_found<K: KeyManager>(
    km: &mut K,
    namespace: &String,
    name: &String,
    found: &Vec<(String, String)>,
    idx: usize,
    now: u64,
) -> (r: Result<MutationPlan, ConMutError>)
    requires
        old(km).inv(),
        idx <= found@.len(),
        forall|i: int|
            0 <= i < found@.len() ==> is_prefix_of(
                key_prefix(),
                (#[trigger] pairs_view(found@)[i]).0,
            ),
    ensures
        final(km).inv(),
        K::obeys_registry() ==> ({
            let ps = process_keys(
                old(km).subs(),
                old(km).checksums(),
                namespace@,
                name@,
                pairs_view(found@).skip(idx as int),
                now,
            );
            &&& final(km).subs() == ps.subs
            &&& final(km).checksums() == old(km).checksums()
            &&& if ps.ok {
                r matches Ok(p) && ops_view(p.patches@) == ps.patches && cmds_view(p.commands@)
                    == ps.commands && (forall|i: int|
                    0 <= i < p.commands@.len() ==> is_create(#[trigger] p.commands@[i]))
            } else {
                r matches Err(e) && e.spec_kind() == ErrorKind::Conflict
            }
        }),
    decreases found@.len() - idx,
{
    let ghost fv = pairs_view(found@);
    if idx == found.len() {
        proof {
            assert(fv.skip(idx as int) =~= Seq::<(Seq<char>, Seq<char>)>::empty());
        }
        return Ok(MutationPlan { patches: Vec::new(), commands: Vec::new() });
    }
    proof {
        assert(fv.skip(idx as int)[0] == fv[idx as int]);
        assert(fv.skip(idx as int).drop_first() =~= fv.skip(idx as int + 1));
        assert(fv[idx as int] == (found@[idx as int].0@, found@[idx as int].1@));
    }
    let prefix_len = "k8s-consul-mutator.io/key-".unicode_len();
    assert(prefix_len == key_prefix().len());
    let slot = suffix_string(found[idx].0.as_str(), prefix_len);
    assert(slot@ == slot_of(fv[idx as int].0));
    let watch_res = km.watch(
        namespace.clone(),
        name.clone(),
        slot.clone(),
        found[idx].1.clone(),
    );
    match watch_res {
        Err(e) => {
            return Err(e);
        },
        Ok(_) => {},
    }
    let mut commands: Vec<ConsulWatch> = Vec::new();
    commands.push(ConsulWatch::Create(found[idx].1.clone(), now));
    let mut patches: Vec<PatchOp> = Vec::new();
    let sum_res = km.get(found[idx].1.clone());
    match sum_res {
        Ok(Some(sum)) => {
            patches.push(
                PatchOp {
                    path: concat_strs(
                        "/metadata/annotations/k8s-consul-mutator.io~1checksum-",
                        slot.as_str(),
                    ),
                    value: sum.clone(),
                },
            );
            patches.push(
                PatchOp {
                    path: concat_strs(
                        "/spec/template/metadata/annotations/k8s-consul-mutator.io~1checksum-",
                        slot.as_str(),
                    ),
                    value: sum,
                },
            );
        },
        Ok(None) => {},
        Err(_) => {},
    }
    let rest = process_found(km, namespace, name, found, idx + 1, now);
    let mut rest_plan = match rest {
        Ok(p) => p,
        Err(e) => {
            return Err(e);
        },
    };
    let ghost my_patches = patches@;
    let ghost my_commands = commands@;
    let ghost rest_patches = rest_plan.patches@;
    let ghost rest_commands = rest_plan.commands@;
    patches.append(&mut rest_plan.patches);
    commands.append(&mut rest_plan.commands);
    proof {
        assert(ops_view(patches@) =~= ops_view(my_patches) + ops_view(rest_patches));
        assert(cmds_view(commands@) =~= cmds_view(my_commands) + cmds_view(rest_commands));
    }
    Ok(MutationPlan { patches, commands })
}

/// Plans the mutation of an admitted object: an object carrying the
/// skip annotation passes unchanged; otherwise every key-binding
/// annotation is recorded in the registry and queues a create command,
/// and slots whose consul key already has a checksum get two patch
/// operations.  Fails with a conflict iff some binding re-binds an
/// existing identity to a different key; bindings before the conflict
/// stay recorded.
pub fn plan_mutation<K: KeyManager>(
    km: &mut K,
    namespace: &String,
    name: &String,
    annotations: &Vec<(String, String)>,
    now: u64,
) -> (r: Result<MutationPlan, ConMutError>)
    requires
        old(km).inv(),
    ensures
        final(km).inv(),
        K::obeys_registry() ==> ({
            let anns = pairs_view(annotations@);
            if has_skip(anns) {
                &&& final(km).subs() == old(km).subs()
                &&& final(km).checksums() == old(km).checksums()
                &&& (r matches Ok(p) && p.patches@.len() == 0 && p.commands@.len() == 0)
            } else {
                let ps = process_keys(
                    old(km).subs(),
                    old(km).checksums(),
                    namespace@,
                    name@,
                    found_keys(anns),
                    now,
                );
                &&& final(km).subs() == ps.subs
                &&& final(km).checksums() == old(km).checksums()
                &&& if ps.ok {
                    r matches Ok(p) && ops_view(p.patches@) == ps.patches && cmds_view(
                        p.commands@,
                    ) == ps.commands && (forall|i: int|
                        0 <= i < p.commands@.len() ==> is_create(#[trigger] p.commands@[i]))
                } else {
                    r matches Err(e) && e.spec_kind() == ErrorKind::Conflict
                }
            }
        }),
{
    let ghost anns = pairs_view(annotations@);
    let n = annotations.len();
    let mut i: usize = 0;
    while i < n
        invariant
            *km == *old(km),
            old(km).inv(),
            anns == pairs_view(annotations@),
            n == annotations@.len(),
            0 <= i <= n,
            forall|j: int| 0 <= j < i ==> (#[trigger] anns[j]).0 != skip_annotation(),
        decreases n - i,
    {
        proof {
            assert(anns[i as int] == (annotations@[i as int].0@, annotations@[i as int].1@));
        }
        if str_eq(annotations[i].0.as_str(), "k8s-consul-mutator.io/skip") {
            proof {
                assert(has_skip(anns));
            }
            return Ok(MutationPlan { patches: Vec::new(), commands: Vec::new() });
        }
        i += 1;
    }
    assert(!has_skip(anns));
    let ghost pred = |p: (Seq<char>, Seq<char>)| is_prefix_of(key_prefix(), p.0);
    let mut found: Vec<(String, String)> = Vec::new();
    let mut j: usize = 0;
    while j < n
        invariant
            *km == *old(km),
            old(km).inv(),
            anns == pairs_view(annotations@),
            pred == (|p: (Seq<char>, Seq<char>)| is_prefix_of(key_prefix(), p.0)),
            n == annotations@.len(),
            0 <= j <= n,
            pairs_view(found@) == anns.take(j as int).filter(pred),
        decreases n - j,
    {
        proof {
            lemma_take_succ(anns, j as int);
            lemma_filter_push(anns.take(j as int), pred, anns[j as int]);
            assert(anns[j as int] == (annotations@[j as int].0@, annotations@[j as int].1@));
        }
        if str_starts_with(annotations[j].0.as_str(), "k8s-consul-mutator.io/key-") {
            let ghost f0 = found@;
            found.push((annotations[j].0.clone(), annotations[j].1.clone()));
            proof {
                lemma_map_values_push(
                    f0,
                    |p: (String, String)| (p.0@, p.1@),
                    found@[f0.len() as int],
                );
            }
        }
        j += 1;
    }
    proof {
        assert(anns.take(n as int) =~= anns);
        lemma_filter_sound(anns, pred);
        assert(pairs_view(found@).skip(0) =~= pairs_view(found@));
    }
    process_found(km, namespace, name, &found, 0, now)
}

} // verus!
