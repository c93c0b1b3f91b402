//! The consul side of the pipeline: the per-key watcher and the
//! watcher supervisor.
//!
//! A `KeyWatcher` holds the state of one long-poll loop over one consul
//! key; its step functions take what the loop observed — the subscriber
//! count, the outcome of a blocking read — and decide what the loop
//! does next.  The `WatchDispatcher` owns the supervisor state: the
//! pending commands, the set of keys with a running watcher, and the
//! reconcile clock.  The surrounding runtime performs the reads, sleeps
//! and spawns; every decision is made here.

use vstd::prelude::*;

use crate::checksum::Checksummer;
use crate::key_manager::{contains_string, key_subscribed, subs_for_key, KeyManager, SubEntry};
use crate::seqs::{
    lemma_contains_push, lemma_contains_take_succ, lemma_filter_distinct_by,
    lemma_filter_membership, lemma_filter_push, lemma_filter_sound, lemma_map_values_push,
    lemma_take_succ, strs_view,
};
use crate::state::{
    debounce_elapsed, elapsed, is_create, key_of, when_of, ConsulWatch, DeploymentUpdate,
};

verus! {

/// The state of one per-key watcher: the last seen modify-index and,
/// while the key has no subscribers, the instant at which the watcher
/// gives up.
pub struct KeyWatcher {
    pub consul_key: String,
    pub key_index: u64,
    pub stop_countdown: Option<u64>,
}

/// What the idle check decides: carry on with the blocking read, or
/// emit a destroy command and exit.
pub enum IdleStep {
    Proceed,
    EmitDestroy,
}

/// What the idle check does: with subscribers present the countdown is
/// cleared; with none it is started at `now + grace`, and once `now`
/// has passed it the watcher is told to emit a destroy command and
/// exit.
pub open spec fn idle_post(
    pre: KeyWatcher,
    post: KeyWatcher,
    count: usize,
    now: u64,
    grace: u64,
    r: IdleStep,
) -> bool {
    &&& post.consul_key == pre.consul_key
    &&& post.key_index == pre.key_index
    &&& if count > 0 {
        r is Proceed && post.stop_countdown is None
    } else {
        match pre.stop_countdown {
            None => r is Proceed && post.stop_countdown == Some((now + grace) as u64),
            Some(deadline) => {
                post.stop_countdown == pre.stop_countdown && if now > deadline {
                    r is EmitDestroy
                } else {
                    r is Proceed
                }
            },
        }
    }
}

/// The outcome of one blocking read, as handed in by the runtime: the
/// transport failed, the key was absent, or the key was found with a
/// modify-index and possibly a value.
pub enum KvReadOutcome {
    Failed,
    Missing,
    Found(u64, Option<Vec<u8>>),
}

/// What the watcher does after a read: back off and retry, continue at
/// once, or publish the changed value.
pub enum ReadStep {
    Backoff,
    Unchanged,
    Changed(Vec<u8>),
}

/// What handling a read does: errors and absent keys back off without
/// advancing the index; an unchanged modify-index continues at once;
/// an advanced index is recorded, and its value — when present — is
/// published.
pub open spec fn read_post(
    pre: KeyWatcher,
    post: KeyWatcher,
    outcome: KvReadOutcome,
    r: ReadStep,
) -> bool {
    &&& post.consul_key == pre.consul_key
    &&& post.stop_countdown == pre.stop_countdown
    &&& match outcome {
        KvReadOutcome::Failed => post.key_index == pre.key_index && r is Backoff,
        KvReadOutcome::Missing => post.key_index == pre.key_index && r is Backoff,
        KvReadOutcome::Found(idx, value) => {
            if idx == pre.key_index {
                post.key_index == pre.key_index && r is Unchanged
            } else {
                &&& post.key_index == idx
                &&& match value {
                    None => r is Backoff,
                    Some(bytes) => r matches ReadStep::Changed(b) && b == bytes,
                }
            }
        },
    }
}

impl KeyWatcher {
    /// A fresh watcher for a key: no index seen yet, no countdown.
    pub fn new(consul_key: String) -> (r: KeyWatcher)
        ensures
            r.consul_key@ == consul_key@,
            r.key_index == 0,
            r.stop_countdown is None,
    {
        KeyWatcher { consul_key, key_index: 0, stop_countdown: None }
    }

    /// The idle check at the head of each loop iteration.
    pub fn idle_step(&mut self, subscriber_count: usize, now: u64, idle_grace: u64) -> (r:
        IdleStep)
        requires
            now + idle_grace <= u64::MAX,
        ensures
            idle_post(*old(self), *final(self), subscriber_count, now, idle_grace, r),
    {
        if subscriber_count == 0 {
            match self.stop_countdown {
                None => {
                    self.stop_countdown = Some(now + idle_grace);
                    IdleStep::Proceed
                },
                Some(deadline) => {
                    if now > deadline {
                        IdleStep::EmitDestroy
                    } else {
                        IdleStep::Proceed
                    }
                },
            }
        } else {
            self.stop_countdown = None;
            IdleStep::Proceed
        }
    }

    /// The destroy command this watcher emits when it gives up.
    pub fn destroy_command(&self, now: u64) -> (c: ConsulWatch)
        ensures
            !is_create(c),
            key_of(c) == self.consul_key@,
            when_of(c) == now,
    {
        ConsulWatch::Destroy(self.consul_key.clone(), now)
    }

    /// Handles the outcome of one blocking read.
    pub fn read_step(&mut self, outcome: KvReadOutcome) -> (r: ReadStep)
        ensures
            read_post(*old(self), *final(self), outcome, r),
    {
        match outcome {
            KvReadOutcome::Failed => ReadStep::Backoff,
            KvReadOutcome::Missing => ReadStep::Backoff,
            KvReadOutcome::Found(idx, value) => {
                if idx == self.key_index {
                    ReadStep::Unchanged
                } else {
                    self.key_index = idx;
                    match value {
                        None => ReadStep::Backoff,
                        Some(bytes) => ReadStep::Changed(bytes),
                    }
                }
            },
        }
    }
}

/// Whether a fan-out list notifies exactly these subscriptions, in
/// order, all stamped `now`.
pub open spec fn fan_out_matches(
    updates: Seq<DeploymentUpdate>,
    subs: Seq<SubEntry>,
    now: u64,
) -> bool {
    &&& updates.len() == subs.len()
    &&& forall|i: int|
        0 <= i < updates.len() ==> {
            &&& (#[trigger] updates[i]).namespace@ == subs[i].id.namespace
            &&& updates[i].deployment@ == subs[i].id.deployment
            &&& updates[i].occurred == now
        }
}

/// Publishes a changed value: stores its checksum in the registry
/// first, then builds one update intent per subscription of the key —
/// so any reader of the checksum table during the fan-out already sees
/// the new value.  Returns the checksum and the intents to send.
pub fn publish_change<K: KeyManager, C: Checksummer>(
    km: &mut K,
    checksummer: &C,
    consul_key: &String,
    bytes: Vec<u8>,
    now: u64,
) -> (r: (String, Vec<DeploymentUpdate>))
    requires
        old(km).inv(),
    ensures
        final(km).inv(),
        r.0@ == checksummer.checksum_spec(bytes@),
        K::obeys_registry() ==> {
            &&& final(km).subs() == old(km).subs()
            &&& final(km).checksums() == old(km).checksums().insert(
                consul_key@,
                checksummer.checksum_spec(bytes@),
            )
            &&& fan_out_matches(r.1@, subs_for_key(old(km).subs(), consul_key@), now)
        },
{
    let checksum = checksummer.checksum(bytes);
    let set_res = km.set(consul_key.clone(), checksum.clone());
    match set_res {
        Ok(_) => {},
        Err(_) => {
            proof {
                assert(false);
            }
        },
    }
    let subs_res = km.subscriptions_for_consul_key(consul_key.clone());
    let subs = match subs_res {
        Ok(v) => v,
        Err(_) => {
            proof {
                assert(false);
            }
            Vec::new()
        },
    };
    let ghost targets = subs_for_key(old(km).subs(), consul_key@);
    let mut updates: Vec<DeploymentUpdate> = Vec::new();
    let n = subs.len();
    let mut i: usize = 0;
    while i < n
        invariant
            n == subs@.len(),
            0 <= i <= n,
            updates@.len() == i,
            K::obeys_registry() ==> subs@.map_values(|s: crate::key_manager::Subscription| s@)
                == targets.map_values(|e: SubEntry| e.id),
            forall|j: int|
                0 <= j < i ==> {
                    &&& (#[trigger] updates@[j]).namespace@ == subs@[j].namespace@
                    &&& updates@[j].deployment@ == subs@[j].deployment@
                    &&& updates@[j].occurred == now
                },
        decreases n - i,
    {
        updates.push(
            DeploymentUpdate {
                namespace: subs[i].namespace.clone(),
                deployment: subs[i].deployment.clone(),
                occurred: now,
            },
        );
        i += 1;
    }
    proof {
        if K::obeys_registry() {
            assert(subs@.map_values(|s: crate::key_manager::Subscription| s@).len()
                == targets.map_values(|e: SubEntry| e.id).len());
            assert forall|j: int| 0 <= j < updates@.len() implies {
                &&& (#[trigger] updates@[j]).namespace@ == targets[j].id.namespace
                &&& updates@[j].deployment@ == targets[j].id.deployment
                &&& updates@[j].occurred == now
            } by {
                assert(subs@.map_values(|s: crate::key_manager::Subscription| s@)[j] == subs@[j]@);
                assert(targets.map_values(|e: SubEntry| e.id)[j] == targets[j].id);
            }
        }
    }
    (checksum, updates)
}

/// Whether no two pending commands are about the same key.
pub open spec fn keys_unique(p: Seq<ConsulWatch>) -> bool {
    forall|i: int, j: int|
        0 <= i < j < p.len() ==> key_of(#[trigger] p[i]) != key_of(#[trigger] p[j])
}

/// Whether a pending set holds a destroy command for this key.
pub open spec fn has_destroy(p: Seq<ConsulWatch>, k: Seq<char>) -> bool {
    exists|i: int| 0 <= i < p.len() && !is_create(#[trigger] p[i]) && key_of(p[i]) == k
}

/// Whether a pending set holds a create command for this key whose
/// debounce window has elapsed.
pub open spec fn has_due_create(p: Seq<ConsulWatch>, k: Seq<char>, now: u64, debounce: u64) -> bool {
    exists|i: int|
        0 <= i < p.len() && is_create(#[trigger] p[i]) && elapsed(when_of(p[i]), debounce, now)
            && key_of(p[i]) == k
}

/// Whether draining must start a watcher for this command: a create
/// past its debounce whose key has no running watcher.
pub open spec fn spawnable(
    c: ConsulWatch,
    running: Seq<Seq<char>>,
    now: u64,
    debounce: u64,
) -> bool {
    is_create(c) && elapsed(when_of(c), debounce, now) && !running.contains(key_of(c))
}

/// What one debounced drain does: due creates leave the pending set
/// and spawn a watcher unless one runs already; destroys leave the
/// pending set and stop being tracked; creates still inside their
/// debounce window stay.
pub open spec fn drain_post(
    pre_pending: Seq<ConsulWatch>,
    pre_running: Seq<Seq<char>>,
    post_pending: Seq<ConsulWatch>,
    post_running: Seq<Seq<char>>,
    spawned: Seq<Seq<char>>,
    now: u64,
    debounce: u64,
) -> bool {
    &&& post_pending == pre_pending.filter(
        |c: ConsulWatch| is_create(c) && !elapsed(when_of(c), debounce, now),
    )
    &&& spawned == pre_pending.filter(
        |c: ConsulWatch| spawnable(c, pre_running, now, debounce),
    ).map_values(|c: ConsulWatch| key_of(c))
    &&& spawned.no_duplicates()
    &&& forall|k: Seq<char>|
        #[trigger] post_running.contains(k) <==> (if has_destroy(pre_pending, k) {
            false
        } else {
            pre_running.contains(k) || has_due_create(pre_pending, k, now, debounce)
        })
    &&& post_running.no_duplicates()
}

/// What one reconcile does: every handed-in key without a running
/// watcher is spawned exactly once and tracked from then on.
pub open spec fn reconcile_post(
    pre_running: Seq<Seq<char>>,
    post_running: Seq<Seq<char>>,
    spawned: Seq<Seq<char>>,
    keys: Seq<Seq<char>>,
) -> bool {
    &&& spawned.no_duplicates()
    &&& forall|k: Seq<char>|
        #[trigger] spawned.contains(k) <==> keys.contains(k) && !pre_running.contains(k)
    &&& forall|k: Seq<char>|
        #[trigger] post_running.contains(k) <==> pre_running.contains(k) || keys.contains(k)
    &&& post_running.no_duplicates()
}

/// Like `reconcile_post`, with the handed-in keys replaced by the live
/// consul keys of a registry.
pub open spec fn reconcile_live(
    pre_running: Seq<Seq<char>>,
    post_running: Seq<Seq<char>>,
    spawned: Seq<Seq<char>>,
    subs: Seq<SubEntry>,
) -> bool {
    &&& spawned.no_duplicates()
    &&& forall|k: Seq<char>|
        #[trigger] spawned.contains(k) <==> key_subscribed(subs, k) && !pre_running.contains(k)
    &&& forall|k: Seq<char>|
        #[trigger] post_running.contains(k) <==> pre_running.contains(k) || key_subscribed(
            subs,
            k,
        )
    &&& post_running.no_duplicates()
}

/// The pending set after a command arrives: any command for the same
/// key is dropped, then the new one is added — last writer wins.
pub open spec fn submitted(pending: Seq<ConsulWatch>, cmd: Option<ConsulWatch>) -> Seq<
    ConsulWatch,
> {
    match cmd {
        None => pending,
        Some(c) => pending.filter(|x: ConsulWatch| key_of(x) != key_of(c)).push(c),
    }
}

/// Growing a pending set by one command keeps or adds a destroy.
proof fn lemma_has_destroy_take_succ(p: Seq<ConsulWatch>, i: int, k: Seq<char>)
    requires
        0 <= i < p.len(),
    ensures
        has_destroy(p.take(i + 1), k) <==> (has_destroy(p.take(i), k) || (!is_create(p[i])
            && key_of(p[i]) == k)),
{
    lemma_take_succ(p, i);
    let t0 = p.take(i);
    let t1 = p.take(i + 1);
    if !is_create(p[i]) && key_of(p[i]) == k {
        assert(!is_create(t1[i]) && key_of(t1[i]) == k);
    }
    if has_destroy(t0, k) {
        let w = choose|w: int| 0 <= w < t0.len() && !is_create(t0[w]) && key_of(t0[w]) == k;
        assert(!is_create(t1[w]) && key_of(t1[w]) == k);
    }
    if has_destroy(t1, k) {
        let w = choose|w: int| 0 <= w < t1.len() && !is_create(t1[w]) && key_of(t1[w]) == k;
        if w < i {
            assert(!is_create(t0[w]) && key_of(t0[w]) == k);
        }
    }
}

/// Growing a pending set by one command keeps or adds a due create.
proof fn lemma_has_due_create_take_succ(
    p: Seq<ConsulWatch>,
    i: int,
    k: Seq<char>,
    now: u64,
    debounce: u64,
)
    requires
        0 <= i < p.len(),
    ensures
        has_due_create(p.take(i + 1), k, now, debounce) <==> (has_due_create(
            p.take(i),
            k,
            now,
            debounce,
        ) || (is_create(p[i]) && elapsed(when_of(p[i]), debounce, now) && key_of(p[i]) == k)),
{
    lemma_take_succ(p, i);
    let t0 = p.take(i);
    let t1 = p.take(i + 1);
    if is_create(p[i]) && elapsed(when_of(p[i]), debounce, now) && key_of(p[i]) == k {
        assert(is_create(t1[i]) && elapsed(when_of(t1[i]), debounce, now) && key_of(t1[i]) == k);
    }
    if has_due_create(t0, k, now, debounce) {
        let w = choose|w: int|
            0 <= w < t0.len() && is_create(t0[w]) && elapsed(when_of(t0[w]), debounce, now)
                && key_of(t0[w]) == k;
        assert(is_create(t1[w]) && elapsed(when_of(t1[w]), debounce, now) && key_of(t1[w]) == k);
    }
    if has_due_create(t1, k, now, debounce) {
        let w = choose|w: int|
            0 <= w < t1.len() && is_create(t1[w]) && elapsed(when_of(t1[w]), debounce, now)
                && key_of(t1[w]) == k;
        if w < i {
            assert(is_create(t0[w]) && elapsed(when_of(t0[w]), debounce, now) && key_of(t0[w])
                == k);
        }
    }
}

/// Removes the string with these characters from a duplicate-free
/// vector, if present.
fn remove_string(v: &mut Vec<String>, key: &String)
    requires
        strs_view(old(v)@).no_duplicates(),
    ensures
        strs_view(final(v)@).no_duplicates(),
        forall|k: Seq<char>|
            #[trigger] strs_view(final(v)@).contains(k) <==> (strs_view(old(v)@).contains(k) && k
                != key@),
{
    let ghost v0 = v@;
    let ghost vv0 = strs_view(v@);
    let n = v.len();
    let mut kept: Vec<String> = Vec::new();
    let mut i: usize = 0;
    while i < n
        invariant
            v@ == v0,
            vv0 == strs_view(v0),
            vv0.no_duplicates(),
            n == v0.len(),
            0 <= i <= n,
            strs_view(kept@).no_duplicates(),
            forall|k: Seq<char>|
                #[trigger] strs_view(kept@).contains(k) <==> (vv0.take(i as int).contains(k) && k
                    != key@),
        decreases n - i,
    {
        proof {
            assert(vv0[i as int] == v0[i as int]@);
        }
        if !(v[i] == *key) {
            let ghost k0 = kept@;
            kept.push(v[i].clone());
            proof {
                lemma_map_values_push(k0, |s: String| s@, v0[i as int]);
                let kv0 = strs_view(k0);
                let kv1 = strs_view(kept@);
                assert(kv1 == kv0.push(vv0[i as int]));
                assert forall|k: Seq<char>| #[trigger]
                    kv1.contains(k) <==> (vv0.take(i as int + 1).contains(k) && k != key@) by {
                    lemma_contains_push(kv0, vv0[i as int], k);
                    lemma_contains_take_succ(vv0, i as int, k);
                }
                assert(!kv0.contains(vv0[i as int])) by {
                    if vv0.take(i as int).contains(vv0[i as int]) {
                        let w = choose|w: int|
                            0 <= w < i && vv0.take(i as int)[w] == vv0[i as int];
                        assert(vv0[w] == vv0[i as int]);
                        assert(false);
                    }
                }
                assert forall|a: int, b: int| 0 <= a < b < kv1.len() implies kv1[a] != kv1[b] by {
                    if b == kv0.len() as int {
                        if kv1[a] == kv1[b] {
                            assert(kv0[a] == vv0[i as int]);
                            assert(kv0.contains(vv0[i as int]));
                        }
                    }
                }
            }
        } else {
            proof {
                let kv = strs_view(kept@);
                assert forall|k: Seq<char>| #[trigger]
                    kv.contains(k) <==> (vv0.take(i as int + 1).contains(k) && k != key@) by {
                    lemma_contains_take_succ(vv0, i as int, k);
                }
            }
        }
        i += 1;
    }
    proof {
        assert(vv0.take(n as int) =~= vv0);
    }
    *v = kept;
}

/// The watcher supervisor: the pending commands, the keys whose
/// watchers run, and when the next reconcile is owed.
pub struct WatchDispatcher {
    pending: Vec<ConsulWatch>,
    running: Vec<String>,
    last_reconcile: Option<u64>,
}

impl WatchDispatcher {
    /// The pending commands, in arrival order.
    pub closed spec fn pending_cmds(&self) -> Seq<ConsulWatch> {
        self.pending@
    }

    /// The keys whose watchers are tracked as running.
    pub closed spec fn running_keys(&self) -> Seq<Seq<char>> {
        strs_view(self.running@)
    }

    /// When the next reconcile is owed, once the first tick has set it.
    pub closed spec fn reconcile_due(&self) -> Option<u64> {
        self.last_reconcile
    }

    /// Internal well-formedness: one pending command per key, one
    /// tracked entry per running key.
    pub closed spec fn inv(&self) -> bool {
        keys_unique(self.pending@) && strs_view(self.running@).no_duplicates()
    }

    /// A fresh supervisor: nothing pending, nothing running, first
    /// reconcile not yet scheduled.
    pub fn new() -> (r: WatchDispatcher)
        ensures
            r.inv(),
            r.pending_cmds() == Seq::<ConsulWatch>::empty(),
            r.running_keys() == Seq::<Seq<char>>::empty(),
            r.reconcile_due() is None,
    {
        let r = WatchDispatcher { pending: Vec::new(), running: Vec::new(), last_reconcile: None };
        proof {
            assert(r.running_keys() =~= Seq::<Seq<char>>::empty());
        }
        r
    }

    /// Takes one command in: any pending command for the same key is
    /// dropped, then the new one is appended — last writer wins, so a
    /// create and a destroy cannot oscillate within one window.
    pub fn submit(&mut self, cmd: ConsulWatch)
        requires
            old(self).inv(),
        ensures
            final(self).inv(),
            final(self).pending_cmds() == submitted(old(self).pending_cmds(), Some(cmd)),
            final(self).running_keys() == old(self).running_keys(),
            final(self).reconcile_due() == old(self).reconcile_due(),
    {
        let ghost p0 = self.pending@;
        let ghost pred = |x: ConsulWatch| key_of(x) != key_of(cmd);
        let cmd_key = command_key(&cmd);
        let n = self.pending.len();
        let mut kept: Vec<ConsulWatch> = Vec::new();
        let mut i: usize = 0;
        while i < n
            invariant
                self.pending@ == p0,
                self.running@ == old(self).running@,
                self.last_reconcile == old(self).last_reconcile,
                pred == (|x: ConsulWatch| key_of(x) != key_of(cmd)),
                cmd_key@ == key_of(cmd),
                n == p0.len(),
                0 <= i <= n,
                kept@ == p0.take(i as int).filter(pred),
            decreases n - i,
        {
            proof {
                lemma_take_succ(p0, i as int);
                lemma_filter_push(p0.take(i as int), pred, p0[i as int]);
            }
            let row_key = command_key(&self.pending[i]);
            if !(*row_key == *cmd_key) {
                kept.push(self.pending[i].clone());
            }
            i += 1;
        }
        proof {
            assert(p0.take(n as int) =~= p0);
        }
        kept.push(cmd);
        self.pending = kept;
        proof {
            lemma_filter_distinct_by(p0, pred, |x: ConsulWatch| key_of(x));
            lemma_filter_sound(p0, pred);
            let f = p0.filter(pred);
            assert forall|a: int, b: int|
                0 <= a < b < self.pending@.len() implies key_of(#[trigger] self.pending@[a])
                != key_of(#[trigger] self.pending@[b]) by {
                if b == f.len() as int {
                    assert(pred(f[a]));
                }
            }
        }
    }

    /// Starts watchers for handed-in keys that have none, and tracks
    /// them; schedules the next reconcile.  Returns the keys to spawn,
    /// each exactly once.
    pub fn reconcile(&mut self, keys: &Vec<String>, now: u64, reconcile_period: u64) -> (spawned:
        Vec<String>)
        requires
            old(self).inv(),
            now + reconcile_period <= u64::MAX,
        ensures
            final(self).inv(),
            final(self).pending_cmds() == old(self).pending_cmds(),
            final(self).reconcile_due() == Some((now + reconcile_period) as u64),
            reconcile_post(
                old(self).running_keys(),
                final(self).running_keys(),
                strs_view(spawned@),
                strs_view(keys@),
            ),
    {
        self.last_reconcile = Some(now + reconcile_period);
        let ghost r0 = old(self).running_keys();
        let ghost kv = strs_view(keys@);
        let n = keys.len();
        let mut spawned: Vec<String> = Vec::new();
        let mut i: usize = 0;
        while i < n
            invariant
                old(self).inv(),
                self.pending@ == old(self).pending@,
                self.last_reconcile == Some((now + reconcile_period) as u64),
                r0 == old(self).running_keys(),
                kv == strs_view(keys@),
                n == keys@.len(),
                0 <= i <= n,
                self.running_keys().no_duplicates(),
                strs_view(spawned@).no_duplicates(),
                forall|k: Seq<char>|
                    #[trigger] self.running_keys().contains(k) <==> (r0.contains(k) || kv.take(
                        i as int,
                    ).contains(k)),
                forall|k: Seq<char>|
                    #[trigger] strs_view(spawned@).contains(k) <==> (kv.take(i as int).contains(
                        k,
                    ) && !r0.contains(k)),
            decreases n - i,
        {
            proof {
                assert(kv[i as int] == keys@[i as int]@);
            }
            let present = contains_string(&self.running, &keys[i]);
            if !present {
                let ghost s0 = spawned@;
                let ghost run0 = self.running@;
                spawned.push(keys[i].clone());
                self.running.push(keys[i].clone());
                proof {
                    lemma_map_values_push(s0, |s: String| s@, spawned@[s0.len() as int]);
                    lemma_map_values_push(run0, |s: String| s@, self.running@[run0.len() as int]);
                    let sv0 = strs_view(s0);
                    let sv1 = strs_view(spawned@);
                    let rv0 = strs_view(run0);
                    let rv1 = strs_view(self.running@);
                    assert(sv1 == sv0.push(kv[i as int]));
                    assert(rv1 == rv0.push(kv[i as int]));
                    assert forall|k: Seq<char>| #[trigger]
                        rv1.contains(k) <==> (r0.contains(k) || kv.take(i as int + 1).contains(
                            k,
                        )) by {
                        lemma_contains_push(rv0, kv[i as int], k);
                        lemma_contains_take_succ(kv, i as int, k);
                    }
                    assert forall|k: Seq<char>| #[trigger]
                        sv1.contains(k) <==> (kv.take(i as int + 1).contains(k) && !r0.contains(
                            k,
                        )) by {
                        lemma_contains_push(sv0, kv[i as int], k);
                        lemma_contains_take_succ(kv, i as int, k);
                    }
                    assert forall|a: int, b: int|
                        0 <= a < b < rv1.len() implies rv1[a] != rv1[b] by {
                        if b == rv0.len() as int {
                            if rv1[a] == rv1[b] {
                                assert(rv0.contains(kv[i as int]));
                            }
                        }
                    }
                    assert forall|a: int, b: int|
                        0 <= a < b < sv1.len() implies sv1[a] != sv1[b] by {
                        if b == sv0.len() as int {
                            if sv1[a] == sv1[b] {
                                assert(sv0.contains(kv[i as int]));
                            }
                        }
                    }
                }
            } else {
                proof {
                    let sv = strs_view(spawned@);
                    let rv = strs_view(self.running@);
                    assert forall|k: Seq<char>| #[trigger]
                        rv.contains(k) <==> (r0.contains(k) || kv.take(i as int + 1).contains(
                            k,
                        )) by {
                        lemma_contains_take_succ(kv, i as int, k);
                    }
                    assert forall|k: Seq<char>| #[trigger]
                        sv.contains(k) <==> (kv.take(i as int + 1).contains(k) && !r0.contains(
                            k,
                        )) by {
                        lemma_contains_take_succ(kv, i as int, k);
                    }
                }
            }
            i += 1;
        }
        proof {
            assert(kv.take(n as int) =~= kv);
        }
        spawned
    }

    /// Drains the pending set: due creates spawn (unless running) and
    /// leave, destroys untrack their key and leave, young creates stay.
    /// Returns the keys to spawn, each exactly once.
    pub fn drain(&mut self, now: u64, debounce: u64) -> (spawned: Vec<String>)
        requires
            old(self).inv(),
        ensures
            final(self).inv(),
            final(self).reconcile_due() == old(self).reconcile_due(),
            drain_post(
                old(self).pending_cmds(),
                old(self).running_keys(),
                final(self).pending_cmds(),
                final(self).running_keys(),
                strs_view(spawned@),
                now,
                debounce,
            ),
    {
        let ghost p0 = self.pending@;
        let ghost r0 = old(self).running_keys();
        let ghost keep_pred = |c: ConsulWatch| is_create(c) && !elapsed(when_of(c), debounce, now);
        let ghost spawn_pred = |c: ConsulWatch| spawnable(c, r0, now, debounce);
        let n = self.pending.len();
        let mut kept: Vec<ConsulWatch> = Vec::new();
        let mut spawned: Vec<String> = Vec::new();
        let mut i: usize = 0;
        while i < n
            invariant
                keys_unique(p0),
                self.pending@ == p0,
                self.last_reconcile == old(self).last_reconcile,
                r0 == old(self).running_keys(),
                keep_pred == (|c: ConsulWatch| is_create(c) && !elapsed(when_of(c), debounce, now)),
                spawn_pred == (|c: ConsulWatch| spawnable(c, r0, now, debounce)),
                n == p0.len(),
                0 <= i <= n,
                kept@ == p0.take(i as int).filter(keep_pred),
                strs_view(spawned@) == p0.take(i as int).filter(
                    spawn_pred,
                ).map_values(|c: ConsulWatch| key_of(c)),
                self.running_keys().no_duplicates(),
                forall|k: Seq<char>|
                    #[trigger] self.running_keys().contains(k) <==> (if has_destroy(
                        p0.take(i as int),
                        k,
                    ) {
                        false
                    } else {
                        r0.contains(k) || has_due_create(p0.take(i as int), k, now, debounce)
                    }),
            decreases n - i,
        {
            let ghost key = key_of(p0[i as int]);
            proof {
                lemma_take_succ(p0, i as int);
                lemma_filter_push(p0.take(i as int), keep_pred, p0[i as int]);
                lemma_filter_push(p0.take(i as int), spawn_pred, p0[i as int]);
                assert forall|j: int| 0 <= j < i implies key_of(#[trigger] p0.take(i as int)[j])
                    != key by {
                    assert(p0.take(i as int)[j] == p0[j]);
                }
                assert(!has_destroy(p0.take(i as int), key)) by {
                    if has_destroy(p0.take(i as int), key) {
                        let w = choose|w: int|
                            0 <= w < i && !is_create(p0.take(i as int)[w]) && key_of(
                                p0.take(i as int)[w],
                            ) == key;
                        assert(key_of(p0.take(i as int)[w]) != key);
                    }
                }
                assert(!has_due_create(p0.take(i as int), key, now, debounce)) by {
                    if has_due_create(p0.take(i as int), key, now, debounce) {
                        let w = choose|w: int|
                            0 <= w < i && is_create(p0.take(i as int)[w]) && elapsed(
                                when_of(p0.take(i as int)[w]),
                                debounce,
                                now,
                            ) && key_of(p0.take(i as int)[w]) == key;
                        assert(key_of(p0.take(i as int)[w]) != key);
                    }
                }
                assert(self.running_keys().contains(key) <==> r0.contains(key));
            }
            let cmd = self.pending[i].clone();
            match cmd {
                ConsulWatch::Create(cmd_key, occurred) => {
                    if debounce_elapsed(occurred, debounce, now) {
                        let present = contains_string(&self.running, &cmd_key);
                        if !present {
                            let ghost s0 = spawned@;
                            let ghost run0 = self.running@;
                            spawned.push(cmd_key.clone());
                            self.running.push(cmd_key);
                            proof {
                                lemma_map_values_push(
                                    s0,
                                    |s: String| s@,
                                    spawned@[s0.len() as int],
                                );
                                lemma_map_values_push(
                                    run0,
                                    |s: String| s@,
                                    self.running@[run0.len() as int],
                                );
                                lemma_map_values_push(
                                    p0.take(i as int).filter(spawn_pred),
                                    |c: ConsulWatch| key_of(c),
                                    p0[i as int],
                                );
                                let rv0 = strs_view(run0);
                                let rv1 = strs_view(self.running@);
                                assert(rv1 == rv0.push(key));
                                assert forall|k: Seq<char>| #[trigger]
                                    rv1.contains(k) <==> (if has_destroy(
                                        p0.take(i as int + 1),
                                        k,
                                    ) {
                                        false
                                    } else {
                                        r0.contains(k) || has_due_create(
                                            p0.take(i as int + 1),
                                            k,
                                            now,
                                            debounce,
                                        )
                                    }) by {
                                    lemma_contains_push(rv0, key, k);
                                    lemma_has_destroy_take_succ(p0, i as int, k);
                                    lemma_has_due_create_take_succ(p0, i as int, k, now, debounce);
                                }
                                assert forall|a: int, b: int|
                                    0 <= a < b < rv1.len() implies rv1[a] != rv1[b] by {
                                    if b == rv0.len() as int {
                                        if rv1[a] == rv1[b] {
                                            assert(rv0.contains(key));
                                        }
                                    }
                                }
                            }
                        } else {
                            proof {
                                assert(!spawn_pred(p0[i as int]));
                                let rv = strs_view(self.running@);
                                assert forall|k: Seq<char>| #[trigger]
                                    rv.contains(k) <==> (if has_destroy(
                                        p0.take(i as int + 1),
                                        k,
                                    ) {
                                        false
                                    } else {
                                        r0.contains(k) || has_due_create(
                                            p0.take(i as int + 1),
                                            k,
                                            now,
                                            debounce,
                                        )
                                    }) by {
                                    lemma_has_destroy_take_succ(p0, i as int, k);
                                    lemma_has_due_create_take_succ(p0, i as int, k, now, debounce);
                                }
                            }
                        }
                    } else {
                        let ghost k0 = kept@;
                        kept.push(ConsulWatch::Create(cmd_key, occurred));
                        proof {
                            assert(kept@ == k0.push(p0[i as int]));
                            let rv = strs_view(self.running@);
                            assert forall|k: Seq<char>| #[trigger]
                                rv.contains(k) <==> (if has_destroy(p0.take(i as int + 1), k) {
                                    false
                                } else {
                                    r0.contains(k) || has_due_create(
                                        p0.take(i as int + 1),
                                        k,
                                        now,
                                        debounce,
                                    )
                                }) by {
                                lemma_has_destroy_take_succ(p0, i as int, k);
                                lemma_has_due_create_take_succ(p0, i as int, k, now, debounce);
                            }
                        }
                    }
                },
                ConsulWatch::Destroy(cmd_key, _) => {
                    remove_string(&mut self.running, &cmd_key);
                    proof {
                        let rv = strs_view(self.running@);
                        assert forall|k: Seq<char>| #[trigger]
                            rv.contains(k) <==> (if has_destroy(p0.take(i as int + 1), k) {
                                false
                            } else {
                                r0.contains(k) || has_due_create(
                                    p0.take(i as int + 1),
                                    k,
                                    now,
                                    debounce,
                                )
                            }) by {
                            lemma_has_destroy_take_succ(p0, i as int, k);
                            lemma_has_due_create_take_succ(p0, i as int, k, now, debounce);
                        }
                    }
                },
            }
            i += 1;
        }
        proof {
            assert(p0.take(n as int) =~= p0);
        }
        self.pending = kept;
        proof {
            lemma_filter_distinct_by(p0, keep_pred, |c: ConsulWatch| key_of(c));
            lemma_filter_distinct_by(p0, spawn_pred, |c: ConsulWatch| key_of(c));
            let fs = p0.filter(spawn_pred);
            let sv = strs_view(spawned@);
            assert forall|a: int, b: int| 0 <= a < b < sv.len() implies sv[a] != sv[b] by {
                assert(sv[a] == key_of(fs[a]));
                assert(sv[b] == key_of(fs[b]));
            }
        }
        spawned
    }

    /// One turn of the supervisor loop: take in the command, if one
    /// arrived; on the first turn schedule the first reconcile; run a
    /// reconcile against the registry when one is owed and nothing is
    /// pending; otherwise drain.  Returns the keys to spawn a watcher
    /// for.
    pub fn step<K: KeyManager>(
        &mut self,
        km: &K,
        cmd: Option<ConsulWatch>,
        now: u64,
        first_reconcile: u64,
        reconcile_period: u64,
        debounce: u64,
    ) -> (spawned: Vec<String>)
        requires
            old(self).inv(),
            km.inv(),
            now + first_reconcile <= u64::MAX,
            now + reconcile_period <= u64::MAX,
        ensures
            final(self).inv(),
            ({
                let mid = submitted(old(self).pending_cmds(), cmd);
                if old(self).reconcile_due() is None {
                    &&& final(self).reconcile_due() == Some((now + first_reconcile) as u64)
                    &&& drain_post(
                        mid,
                        old(self).running_keys(),
                        final(self).pending_cmds(),
                        final(self).running_keys(),
                        strs_view(spawned@),
                        now,
                        debounce,
                    )
                } else if (old(self).reconcile_due() matches Some(d) && now > d) && mid.len()
                    == 0 {
                    &&& final(self).reconcile_due() == Some((now + reconcile_period) as u64)
                    &&& final(self).pending_cmds() == mid
                    &&& K::obeys_registry() ==> reconcile_live(
                        old(self).running_keys(),
                        final(self).running_keys(),
                        strs_view(spawned@),
                        km.subs(),
                    )
                } else {
                    &&& final(self).reconcile_due() == old(self).reconcile_due()
                    &&& drain_post(
                        mid,
                        old(self).running_keys(),
                        final(self).pending_cmds(),
                        final(self).running_keys(),
                        strs_view(spawned@),
                        now,
                        debounce,
                    )
                }
            }),
    {
        match cmd {
            Some(c) => self.submit(c),
            None => {},
        }
        let due = self.last_reconcile;
        match due {
            None => {
                self.last_reconcile = Some(now + first_reconcile);
                self.drain(now, debounce)
            },
            Some(d) => {
                if now > d && self.pending.len() == 0 {
                    let keys_res = km.consul_keys();
                    match keys_res {
                        Ok(keys) => {
                            let spawned = self.reconcile(&keys, now, reconcile_period);
                            proof {
                                if K::obeys_registry() {
                                    let kv = strs_view(keys@);
                                    let sv = strs_view(spawned@);
                                    assert forall|k: Seq<char>| #[trigger]
                                        sv.contains(k) <==> key_subscribed(km.subs(), k)
                                            && !old(self).running_keys().contains(k) by {
                                        assert(kv.contains(k) <==> key_subscribed(km.subs(), k));
                                    }
                                    assert forall|k: Seq<char>| #[trigger]
                                        self.running_keys().contains(k) <==> old(
                                            self,
                                        ).running_keys().contains(k) || key_subscribed(
                                            km.subs(),
                                            k,
                                        ) by {
                                        assert(kv.contains(k) <==> key_subscribed(km.subs(), k));
                                    }
                                }
                            }
                            spawned
                        },
                        Err(_) => {
                            proof {
                                assert(false);
                            }
                            Vec::new()
                        },
                    }
                } else {
                    self.drain(now, debounce)
                }
            },
        }
    }
}

/// The key a command is about.
fn command_key(c: &ConsulWatch) -> (r: &String)
    ensures
        r@ == key_of(*c),
{
    match c {
        ConsulWatch::Create(k, _) => k,
        ConsulWatch::Destroy(k, _) => k,
    }
}

/// Law: with a key-value store whose modify-index never moves
/// backwards, the watcher's stored index never moves backwards either.
pub proof fn lemma_key_index_monotone(
    pre: KeyWatcher,
    post: KeyWatcher,
    outcome: KvReadOutcome,
    r: ReadStep,
)
    requires
        read_post(pre, post, outcome, r),
        outcome matches KvReadOutcome::Found(idx, _) ==> idx >= pre.key_index,
    ensures
        post.key_index >= pre.key_index,
{
}

/// Law: a drain starts a watcher only for a key that has none running,
/// and tracks it from then on — at most one watcher is ever alive per
/// key.
pub proof fn lemma_single_watcher_per_key(
    pending: Seq<ConsulWatch>,
    pre_running: Seq<Seq<char>>,
    post_pending: Seq<ConsulWatch>,
    post_running: Seq<Seq<char>>,
    spawned: Seq<Seq<char>>,
    k: Seq<char>,
    now: u64,
    debounce: u64,
)
    requires
        keys_unique(pending),
        drain_post(pending, pre_running, post_pending, post_running, spawned, now, debounce),
        spawned.contains(k),
    ensures
        !pre_running.contains(k),
        post_running.contains(k),
{
    let spawn_pred = |c: ConsulWatch| spawnable(c, pre_running, now, debounce);
    let f = pending.filter(spawn_pred);
    let w = choose|w: int| 0 <= w < spawned.len() && spawned[w] == k;
    assert(key_of(f[w]) == k);
    lemma_filter_sound(pending, spawn_pred);
    assert(spawnable(f[w], pre_running, now, debounce));
    lemma_filter_membership(pending, spawn_pred, w);
    let j = choose|j: int| 0 <= j < pending.len() && f[w] == pending[j];
    assert(is_create(pending[j]) && elapsed(when_of(pending[j]), debounce, now));
    assert(has_due_create(pending, k, now, debounce));
    assert(!has_destroy(pending, k)) by {
        if has_destroy(pending, k) {
            let d = choose|d: int|
                0 <= d < pending.len() && !is_create(pending[d]) && key_of(pending[d]) == k;
            assert(d != j);
            assert(key_of(pending[d]) != key_of(pending[j]));
        }
    }
}

/// Law: two creates for the same key within one debounce window spawn
/// exactly one watcher — the pending set keeps one command per key,
/// and the drain spawns each pending key at most once.
pub proof fn lemma_repeated_create_single_spawn(
    p0: Seq<ConsulWatch>,
    r0: Seq<Seq<char>>,
    cmd1: ConsulWatch,
    cmd2: ConsulWatch,
    post_pending: Seq<ConsulWatch>,
    post_running: Seq<Seq<char>>,
    spawned: Seq<Seq<char>>,
    k: Seq<char>,
    now: u64,
    debounce: u64,
)
    requires
        key_of(cmd1) == k,
        key_of(cmd2) == k,
        is_create(cmd2),
        elapsed(when_of(cmd2), debounce, now),
        !r0.contains(k),
        drain_post(
            submitted(submitted(p0, Some(cmd1)), Some(cmd2)),
            r0,
            post_pending,
            post_running,
            spawned,
            now,
            debounce,
        ),
    ensures
        spawned.contains(k),
        spawned.no_duplicates(),
{
    let p1 = submitted(p0, Some(cmd1));
    let p2 = submitted(p1, Some(cmd2));
    let spawn_pred = |c: ConsulWatch| spawnable(c, r0, now, debounce);
    assert(p2 == p1.filter(|x: ConsulWatch| key_of(x) != k).push(cmd2));
    lemma_filter_push(p1.filter(|x: ConsulWatch| key_of(x) != k), spawn_pred, cmd2);
    assert(spawnable(cmd2, r0, now, debounce));
    let f = p2.filter(spawn_pred);
    assert(f.last() == cmd2);
    lemma_map_values_push(
        p1.filter(|x: ConsulWatch| key_of(x) != k).filter(spawn_pred),
        |c: ConsulWatch| key_of(c),
        cmd2,
    );
    assert(spawned.last() == k);
    assert(spawned.contains(k));
}

/// Law: a create followed by a destroy for the same key within one
/// debounce window spawns nothing for that key, and its watcher is no
/// longer tracked after the drain.
pub proof fn lemma_create_then_destroy_no_spawn(
    p0: Seq<ConsulWatch>,
    r0: Seq<Seq<char>>,
    cmd1: ConsulWatch,
    cmd2: ConsulWatch,
    post_pending: Seq<ConsulWatch>,
    post_running: Seq<Seq<char>>,
    spawned: Seq<Seq<char>>,
    k: Seq<char>,
    now: u64,
    debounce: u64,
)
    requires
        key_of(cmd1) == k,
        key_of(cmd2) == k,
        !is_create(cmd2),
        drain_post(
            submitted(submitted(p0, Some(cmd1)), Some(cmd2)),
            r0,
            post_pending,
            post_running,
            spawned,
            now,
            debounce,
        ),
    ensures
        !spawned.contains(k),
        !post_running.contains(k),
{
    let p1 = submitted(p0, Some(cmd1));
    let p2 = submitted(p1, Some(cmd2));
    let spawn_pred = |c: ConsulWatch| spawnable(c, r0, now, debounce);
    let f = p2.filter(spawn_pred);
    if spawned.contains(k) {
        let w = choose|w: int| 0 <= w < spawned.len() && spawned[w] == k;
        assert(key_of(f[w]) == k);
        lemma_filter_sound(p2, spawn_pred);
        lemma_filter_membership(p2, spawn_pred, w);
        let j = choose|j: int| 0 <= j < p2.len() && f[w] == p2[j];
        if j < p2.len() - 1 {
            lemma_filter_sound(p1, |x: ConsulWatch| key_of(x) != k);
            assert(p2[j] == p1.filter(|x: ConsulWatch| key_of(x) != k)[j]);
            assert(key_of(p2[j]) != k);
        } else {
            assert(p2[j] == cmd2);
            assert(!is_create(f[w]));
        }
        assert(false);
    }
    assert(has_destroy(p2, k)) by {
        assert(p2.last() == cmd2);
        assert(!is_create(p2[p2.len() - 1]) && key_of(p2[p2.len() - 1]) == k);
    }
}

/// Law: a reconcile spawns exactly one watcher for a key that is
/// subscribed in the handed-in listing but not yet running.
pub proof fn lemma_reconcile_heals(
    pre_running: Seq<Seq<char>>,
    post_running: Seq<Seq<char>>,
    spawned: Seq<Seq<char>>,
    keys: Seq<Seq<char>>,
    k: Seq<char>,
)
    requires
        reconcile_post(pre_running, post_running, spawned, keys),
        keys.contains(k),
        !pre_running.contains(k),
    ensures
        spawned.contains(k),
        spawned.no_duplicates(),
        post_running.contains(k),
{
}

/// Law: a watcher whose key drops to zero subscribers proceeds through
/// the grace window and emits a destroy command on the first check
/// after the window has passed.
pub proof fn lemma_idle_destroy_after_grace(
    w0: KeyWatcher,
    w1: KeyWatcher,
    w2: KeyWatcher,
    t0: u64,
    t1: u64,
    grace: u64,
    r1: IdleStep,
    r2: IdleStep,
)
    requires
        w0.stop_countdown is None,
        t0 + grace <= u64::MAX,
        idle_post(w0, w1, 0, t0, grace, r1),
        idle_post(w1, w2, 0, t1, grace, r2),
        t1 > t0 + grace,
    ensures
        r1 is Proceed,
        r2 is EmitDestroy,
{
}

} // verus!
