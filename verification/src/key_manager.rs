//! The subscription registry.
//!
//! A subscription binds an identity `(namespace, deployment, config_key)`
//! to a consul key; the registry also keeps the latest checksum per
//! consul key and answers the inverse queries the watcher supervisor and
//! the deployment updater need.  `KeyManager` is the capability
//! interface; `MemoryKeyManager` is the in-memory backend that honours
//! the full registry semantics, `NullKeyManager` a stub that stores
//! nothing.

use vstd::prelude::*;
use vstd::string::StringExecFns;

use crate::error::{ConMutError, ErrorKind};
use crate::seqs::{
    lemma_filter_distinct_by, lemma_filter_excluded, lemma_filter_push, lemma_map_values_push,
    lemma_take_succ, strs_view,
};

verus! {

/// The identity of a subscription, as contracts see it.
pub ghost struct SubId {
    pub namespace: Seq<char>,
    pub deployment: Seq<char>,
    pub config_key: Seq<char>,
}

/// One live subscription row: an identity and the consul key it is
/// bound to.
pub ghost struct SubEntry {
    pub id: SubId,
    pub consul_key: Seq<char>,
}

/// A subscription identity: a namespaced deployment resource and the
/// configuration slot it binds.
#[derive(Hash, Eq, PartialEq, Debug)]
pub struct Subscription {
    pub namespace: String,
    pub deployment: String,
    pub config_key: String,
}

impl View for Subscription {
    type V = SubId;

    open spec fn view(&self) -> SubId {
        SubId {
            namespace: self.namespace@,
            deployment: self.deployment@,
            config_key: self.config_key@,
        }
    }
}

impl Clone for Subscription {
    fn clone(&self) -> (r: Self)
        ensures
            r == *self,
    {
        Subscription {
            namespace: self.namespace.clone(),
            deployment: self.deployment.clone(),
            config_key: self.config_key.clone(),
        }
    }
}

/// Whether some row carries this identity.
pub open spec fn has_id(subs: Seq<SubEntry>, id: SubId) -> bool {
    exists|i: int| 0 <= i < subs.len() && subs[i].id == id
}

/// The consul key of the row carrying this identity.
pub open spec fn key_of_id(subs: Seq<SubEntry>, id: SubId) -> Seq<char> {
    subs[choose|i: int| 0 <= i < subs.len() && subs[i].id == id].consul_key
}

/// Whether some row is bound to this consul key.
pub open spec fn key_subscribed(subs: Seq<SubEntry>, key: Seq<char>) -> bool {
    exists|i: int| 0 <= i < subs.len() && subs[i].consul_key == key
}

/// No two rows carry the same identity.
pub open spec fn unique_ids(subs: Seq<SubEntry>) -> bool {
    forall|i: int, j: int|
        0 <= i < j < subs.len() ==> #[trigger] subs[i].id != #[trigger] subs[j].id
}

/// The rows of one deployment, in insertion order.
pub open spec fn subs_for_deployment(subs: Seq<SubEntry>, ns: Seq<char>, dep: Seq<char>) -> Seq<
    SubEntry,
> {
    subs.filter(|e: SubEntry| e.id.namespace == ns && e.id.deployment == dep)
}

/// The rows bound to one consul key, in insertion order.
pub open spec fn subs_for_key(subs: Seq<SubEntry>, key: Seq<char>) -> Seq<SubEntry> {
    subs.filter(|e: SubEntry| e.consul_key == key)
}

/// The rows that survive unwatching a namespace.
pub open spec fn keep_outside_namespace(subs: Seq<SubEntry>, ns: Seq<char>) -> Seq<SubEntry> {
    subs.filter(|e: SubEntry| e.id.namespace != ns)
}

/// The rows that survive unwatching a deployment.
pub open spec fn keep_outside_deployment(subs: Seq<SubEntry>, ns: Seq<char>, dep: Seq<char>) -> Seq<
    SubEntry,
> {
    subs.filter(|e: SubEntry| !(e.id.namespace == ns && e.id.deployment == dep))
}

/// The `(slot, checksum)` pairs of one deployment: each subscription's
/// slot paired with the current checksum of its consul key; slots whose
/// key has no checksum yet are omitted.
pub open spec fn annotations_of(
    subs: Seq<SubEntry>,
    sums: Map<Seq<char>, Seq<char>>,
    ns: Seq<char>,
    dep: Seq<char>,
) -> Seq<(Seq<char>, Seq<char>)> {
    subs_for_deployment(subs, ns, dep).filter(|e: SubEntry| sums.contains_key(e.consul_key))
        .map_values(|e: SubEntry| (e.id.config_key, sums[e.consul_key]))
}

/// The set of consul keys the live subscriptions are bound to.
pub open spec fn live_keys(subs: Seq<SubEntry>) -> Set<Seq<char>> {
    Set::new(|k: Seq<char>| key_subscribed(subs, k))
}

/// Whether `keys` lists exactly the live consul keys, without
/// repetition.
pub open spec fn names_live_keys(keys: Seq<Seq<char>>, subs: Seq<SubEntry>) -> bool {
    &&& keys.no_duplicates()
    &&& forall|k: Seq<char>| #[trigger] keys.contains(k) <==> key_subscribed(subs, k)
}

/// Builds the identity of a subscription.
pub open spec fn id_of(ns: Seq<char>, dep: Seq<char>, slot: Seq<char>) -> SubId {
    SubId { namespace: ns, deployment: dep, config_key: slot }
}

/// What `watch` does to a registry: re-binding an existing identity to
/// a different key is a conflict and changes nothing; re-binding to the
/// same key reports `false` and changes nothing; a fresh identity is
/// appended, and the call reports whether its key was subscribed for
/// the first time.
pub open spec fn watch_post(
    pre: Seq<SubEntry>,
    pre_sums: Map<Seq<char>, Seq<char>>,
    post: Seq<SubEntry>,
    post_sums: Map<Seq<char>, Seq<char>>,
    id: SubId,
    key: Seq<char>,
    r: Result<bool, ConMutError>,
) -> bool {
    &&& post_sums == pre_sums
    &&& if has_id(pre, id) {
        if key_of_id(pre, id) == key {
            post == pre && r == Result::<bool, ConMutError>::Ok(false)
        } else {
            post == pre && (r matches Result::Err(e) && e.spec_kind() == ErrorKind::Conflict)
        }
    } else {
        &&& post == pre.push(SubEntry { id, consul_key: key })
        &&& r == Result::<bool, ConMutError>::Ok(!key_subscribed(pre, key))
    }
}

/// The registry interface.
///
/// `obeys_registry` says whether a backend promises the full registry
/// semantics; contracts below are exact for such a backend and silent
/// for a stub.  `subs` is the live subscription table in insertion
/// order, `checksums` the checksum table.
pub trait KeyManager: Sized {
    /// Whether this backend honours the full registry semantics.
    spec fn obeys_registry() -> bool;

    /// The live subscription rows, in insertion order.
    spec fn subs(&self) -> Seq<SubEntry>;

    /// The checksum table: consul key to latest checksum.
    spec fn checksums(&self) -> Map<Seq<char>, Seq<char>>;

    /// Internal well-formedness.
    spec fn inv(&self) -> bool;

    /// Creates a subscription to a consul key.  Reports `true` iff the
    /// consul key is being subscribed to for the first time; reports
    /// `false` if the same identity is already bound to the same key;
    /// fails with a conflict iff the identity is bound to a different
    /// key.
    fn watch(
        &mut self,
        namespace: String,
        deployment: String,
        config_key: String,
        consul_key: String,
    ) -> (r: Result<bool, ConMutError>)
        requires
            old(self).inv(),
        ensures
            final(self).inv(),
            Self::obeys_registry() ==> watch_post(
                old(self).subs(),
                old(self).checksums(),
                final(self).subs(),
                final(self).checksums(),
                id_of(namespace@, deployment@, config_key@),
                consul_key@,
                r,
            ),
    ;

    /// Removes all subscriptions of a namespace and reports how many
    /// rows were removed.  Never fails.
    fn unwatch_namespace(&mut self, namespace: String) -> (r: Result<usize, ConMutError>)
        requires
            old(self).inv(),
        ensures
            final(self).inv(),
            r is Ok,
            Self::obeys_registry() ==> {
                &&& final(self).subs() == keep_outside_namespace(old(self).subs(), namespace@)
                &&& final(self).checksums() == old(self).checksums()
                &&& (r matches Result::Ok(n) && n == old(self).subs().len()
                    - final(self).subs().len())
            },
    ;

    /// Removes all subscriptions of a deployment within a namespace and
    /// reports how many rows were removed.  Never fails.
    fn unwatch_deployment(&mut self, namespace: String, deployment: String) -> (r: Result<
        usize,
        ConMutError,
    >)
        requires
            old(self).inv(),
        ensures
            final(self).inv(),
            r is Ok,
            Self::obeys_registry() ==> {
                &&& final(self).subs() == keep_outside_deployment(
                    old(self).subs(),
                    namespace@,
                    deployment@,
                )
                &&& final(self).checksums() == old(self).checksums()
                &&& (r matches Result::Ok(n) && n == old(self).subs().len()
                    - final(self).subs().len())
            },
    ;

    /// Upserts the checksum of a consul key.  Never fails.
    fn set(&mut self, key: String, value: String) -> (r: Result<(), ConMutError>)
        requires
            old(self).inv(),
        ensures
            final(self).inv(),
            r is Ok,
            Self::obeys_registry() ==> {
                &&& final(self).subs() == old(self).subs()
                &&& final(self).checksums() == old(self).checksums().insert(key@, value@)
            },
    ;

    /// Reads the checksum of a consul key, if one has been stored.
    /// Never fails.
    fn get(&self, key: String) -> (r: Result<Option<String>, ConMutError>)
        requires
            self.inv(),
        ensures
            r is Ok,
            Self::obeys_registry() ==> match r {
                Result::Ok(Some(v)) => self.checksums().contains_key(key@) && v@
                    == self.checksums()[key@],
                Result::Ok(None) => !self.checksums().contains_key(key@),
                Result::Err(_) => false,
            },
    ;

    /// All subscriptions of a deployment, in insertion order.  Never
    /// fails.
    fn subscriptions_for_deployment(&self, namespace: String, deployment: String) -> (r: Result<
        Vec<Subscription>,
        ConMutError,
    >)
        requires
            self.inv(),
        ensures
            r is Ok,
            Self::obeys_registry() ==> (r matches Result::Ok(v) && v@.map_values(
                |s: Subscription| s@,
            ) == subs_for_deployment(self.subs(), namespace@, deployment@).map_values(
                |e: SubEntry| e.id,
            )),
    ;

    /// All subscriptions bound to a consul key, in insertion order.
    /// Never fails.
    fn subscriptions_for_consul_key(&self, consul_key: String) -> (r: Result<
        Vec<Subscription>,
        ConMutError,
    >)
        requires
            self.inv(),
        ensures
            r is Ok,
            Self::obeys_registry() ==> (r matches Result::Ok(v) && v@.map_values(
                |s: Subscription| s@,
            ) == subs_for_key(self.subs(), consul_key@).map_values(|e: SubEntry| e.id)),
    ;

    /// How many subscriptions are bound to a consul key.  Never fails.
    fn consul_key_subscriber_count(&self, consul_key: String) -> (r: Result<usize, ConMutError>)
        requires
            self.inv(),
        ensures
            r is Ok,
            Self::obeys_registry() ==> (r matches Result::Ok(n) && n == subs_for_key(
                self.subs(),
                consul_key@,
            ).len()),
    ;

    /// The distinct consul keys currently subscribed.  Never fails.
    fn consul_keys(&self) -> (r: Result<Vec<String>, ConMutError>)
        requires
            self.inv(),
        ensures
            r is Ok,
            Self::obeys_registry() ==> (r matches Result::Ok(v) && names_live_keys(
                strs_view(v@),
                self.subs(),
            )),
    ;

    /// The `(slot, checksum)` pairs of a deployment: each subscription
    /// slot paired with the checksum of its consul key; slots whose key
    /// has no checksum yet are omitted.  Never fails.
    fn deployment_annotations(&self, namespace: String, deployment: String) -> (r: Result<
        Vec<(String, String)>,
        ConMutError,
    >)
        requires
            self.inv(),
        ensures
            r is Ok,
            Self::obeys_registry() ==> (r matches Result::Ok(v) && v@.map_values(
                |p: (String, String)| (p.0@, p.1@),
            ) == annotations_of(self.subs(), self.checksums(), namespace@, deployment@)),
    ;
}

/// A registry that stores nothing: `watch` always reports a first
/// subscription, every query comes back empty.
pub struct NullKeyManager;

impl Default for NullKeyManager {
    fn default() -> (r: Self)
        ensures
            r.inv(),
    {
        NullKeyManager
    }
}

impl KeyManager for NullKeyManager {
    open spec fn obeys_registry() -> bool {
        false
    }

    open spec fn subs(&self) -> Seq<SubEntry> {
        Seq::empty()
    }

    open spec fn checksums(&self) -> Map<Seq<char>, Seq<char>> {
        Map::empty()
    }

    open spec fn inv(&self) -> bool {
        true
    }

    fn watch(
        &mut self,
        namespace: String,
        deployment: String,
        config_key: String,
        consul_key: String,
    ) -> (r: Result<bool, ConMutError>)
        ensures
            r == Result::<bool, ConMutError>::Ok(true),
    {
        Ok(true)
    }

    fn unwatch_namespace(&mut self, namespace: String) -> (r: Result<usize, ConMutError>)
        ensures
            r == Result::<usize, ConMutError>::Ok(0usize),
    {
        Ok(0)
    }

    fn unwatch_deployment(&mut self, namespace: String, deployment: String) -> (r: Result<
        usize,
        ConMutError,
    >)
        ensures
            r == Result::<usize, ConMutError>::Ok(0usize),
    {
        Ok(0)
    }

    fn set(&mut self, key: String, value: String) -> (r: Result<(), ConMutError>) {
        Ok(())
    }

    fn get(&self, key: String) -> (r: Result<Option<String>, ConMutError>)
        ensures
            r matches Result::Ok(o) && o is None,
    {
        Ok(None)
    }

    fn subscriptions_for_deployment(&self, namespace: String, deployment: String) -> (r: Result<
        Vec<Subscription>,
        ConMutError,
    >)
        ensures
            r matches Result::Ok(v) && v@.len() == 0,
    {
        Ok(Vec::new())
    }

    fn subscriptions_for_consul_key(&self, consul_key: String) -> (r: Result<
        Vec<Subscription>,
        ConMutError,
    >)
        ensures
            r matches Result::Ok(v) && v@.len() == 0,
    {
        Ok(Vec::new())
    }

    fn consul_key_subscriber_count(&self, consul_key: String) -> (r: Result<usize, ConMutError>)
        ensures
            r == Result::<usize, ConMutError>::Ok(0usize),
    {
        Ok(0)
    }

    fn consul_keys(&self) -> (r: Result<Vec<String>, ConMutError>)
        ensures
            r matches Result::Ok(v) && v@.len() == 0,
    {
        Ok(Vec::new())
    }

    fn deployment_annotations(&self, namespace: String, deployment: String) -> (r: Result<
        Vec<(String, String)>,
        ConMutError,
    >)
        ensures
            r matches Result::Ok(v) && v@.len() == 0,
    {
        Ok(Vec::new())
    }
}

/// One stored row of the in-memory registry.
struct SubRow {
    namespace: String,
    deployment: String,
    config_key: String,
    consul_key: String,
}

impl View for SubRow {
    type V = SubEntry;

    closed spec fn view(&self) -> SubEntry {
        SubEntry {
            id: SubId {
                namespace: self.namespace@,
                deployment: self.deployment@,
                config_key: self.config_key@,
            },
            consul_key: self.consul_key@,
        }
    }
}

impl Clone for SubRow {
    fn clone(&self) -> (r: Self)
        ensures
            r == *self,
    {
        SubRow {
            namespace: self.namespace.clone(),
            deployment: self.deployment.clone(),
            config_key: self.config_key.clone(),
            consul_key: self.consul_key.clone(),
        }
    }
}

/// The `(key, checksum)` pairs of the table, as contracts see them.
spec fn pairs_view(v: Seq<(String, String)>) -> Seq<(Seq<char>, Seq<char>)> {
    v.map_values(|p: (String, String)| (p.0@, p.1@))
}

/// No two pairs share a key.
spec fn unique_keys(ps: Seq<(Seq<char>, Seq<char>)>) -> bool {
    forall|i: int, j: int| 0 <= i < j < ps.len() ==> (#[trigger] ps[i]).0 != (#[trigger] ps[j]).0
}

/// The mapping an association list denotes; later pairs win.
spec fn assoc_map(ps: Seq<(Seq<char>, Seq<char>)>) -> Map<Seq<char>, Seq<char>>
    decreases ps.len(),
{
    if ps.len() == 0 {
        Map::empty()
    } else {
        assoc_map(ps.drop_last()).insert(ps.last().0, ps.last().1)
    }
}

/// A key listed at some position of a duplicate-free association list
/// is in its map, with that position's value.
proof fn lemma_assoc_map_find(ps: Seq<(Seq<char>, Seq<char>)>, i: int)
    requires
        unique_keys(ps),
        0 <= i < ps.len(),
    ensures
        assoc_map(ps).contains_key(ps[i].0),
        assoc_map(ps)[ps[i].0] == ps[i].1,
    decreases ps.len(),
{
    if i < ps.len() - 1 {
        let dl = ps.drop_last();
        assert(forall|a: int, b: int|
            0 <= a < b < dl.len() ==> (#[trigger] dl[a]).0 != (#[trigger] dl[b]).0) by {
            assert(forall|a: int| 0 <= a < dl.len() ==> #[trigger] dl[a] == ps[a]);
        }
        lemma_assoc_map_find(dl, i);
        assert(ps[i].0 != ps.last().0);
    }
}

/// A key listed at no position of an association list is not in its
/// map.
proof fn lemma_assoc_map_absent(ps: Seq<(Seq<char>, Seq<char>)>, k: Seq<char>)
    requires
        forall|j: int| 0 <= j < ps.len() ==> (#[trigger] ps[j]).0 != k,
    ensures
        !assoc_map(ps).contains_key(k),
    decreases ps.len(),
{
    if ps.len() > 0 {
        let dl = ps.drop_last();
        assert(forall|j: int| 0 <= j < dl.len() ==> (#[trigger] dl[j]).0 != k) by {
            assert(forall|j: int| 0 <= j < dl.len() ==> #[trigger] dl[j] == ps[j]);
        }
        lemma_assoc_map_absent(dl, k);
        assert(ps.last().0 != k);
    }
}

/// Overwriting the value at some position of a duplicate-free
/// association list updates its map at that position's key.
proof fn lemma_assoc_map_update(ps: Seq<(Seq<char>, Seq<char>)>, i: int, v: Seq<char>)
    requires
        unique_keys(ps),
        0 <= i < ps.len(),
    ensures
        assoc_map(ps.update(i, (ps[i].0, v))) == assoc_map(ps).insert(ps[i].0, v),
    decreases ps.len(),
{
    let k = ps[i].0;
    let updated = ps.update(i, (k, v));
    if i == ps.len() - 1 {
        assert(updated.drop_last() =~= ps.drop_last());
        assert(updated.last() == (k, v));
        assert(assoc_map(ps.drop_last()).insert(k, ps.last().1).insert(k, v) =~= assoc_map(
            ps.drop_last(),
        ).insert(k, v));
    } else {
        let dl = ps.drop_last();
        assert(forall|a: int, b: int|
            0 <= a < b < dl.len() ==> (#[trigger] dl[a]).0 != (#[trigger] dl[b]).0) by {
            assert(forall|a: int| 0 <= a < dl.len() ==> #[trigger] dl[a] == ps[a]);
        }
        assert(updated.drop_last() =~= dl.update(i, (k, v)));
        assert(updated.last() == ps.last());
        lemma_assoc_map_update(dl, i, v);
        assert(k != ps.last().0);
        assert(assoc_map(dl).insert(k, v).insert(ps.last().0, ps.last().1) =~= assoc_map(
            dl,
        ).insert(ps.last().0, ps.last().1).insert(k, v));
    }
}

/// Growing by one row keeps or adds a key subscription.
proof fn lemma_key_subscribed_take_succ(s: Seq<SubEntry>, i: int, key: Seq<char>)
    requires
        0 <= i < s.len(),
    ensures
        key_subscribed(s.take(i + 1), key) <==> (key_subscribed(s.take(i), key) || s[i].consul_key
            == key),
{
    lemma_take_succ(s, i);
    let t0 = s.take(i);
    let t1 = s.take(i + 1);
    if s[i].consul_key == key {
        assert(t1[i].consul_key == key);
        assert(key_subscribed(t1, key));
    }
    if key_subscribed(t0, key) {
        let w = choose|w: int| 0 <= w < t0.len() && t0[w].consul_key == key;
        assert(t1[w] == t0[w]);
        assert(key_subscribed(t1, key));
    }
    if key_subscribed(t1, key) {
        let w = choose|w: int| 0 <= w < t1.len() && t1[w].consul_key == key;
        if w < i {
            assert(t0[w] == t1[w]);
            assert(key_subscribed(t0, key));
        } else {
            assert(s[i].consul_key == key);
        }
    }
}

/// The in-memory registry: the backend that honours the full registry
/// semantics, holding its tables as plain vectors.
pub struct MemoryKeyManager {
    subscriptions: Vec<SubRow>,
    checksums: Vec<(String, String)>,
}

impl Default for MemoryKeyManager {
    /// An empty registry.
    fn default() -> (r: Self)
        ensures
            r.inv(),
            r.subs() == Seq::<SubEntry>::empty(),
            r.checksums() == Map::<Seq<char>, Seq<char>>::empty(),
    {
        let r = MemoryKeyManager { subscriptions: Vec::new(), checksums: Vec::new() };
        proof {
            assert(r.subs() =~= Seq::<SubEntry>::empty());
            assert(pairs_view(r.checksums@) =~= Seq::<(Seq<char>, Seq<char>)>::empty());
        }
        r
    }
}

impl MemoryKeyManager {
    /// Looks a consul key up in the checksum table.
    fn find_checksum(&self, key: &String) -> (r: Option<String>)
        requires
            self.inv(),
        ensures
            match r {
                Some(v) => self.checksums().contains_key(key@) && v@ == self.checksums()[key@],
                None => !self.checksums().contains_key(key@),
            },
    {
        let ghost ps = pairs_view(self.checksums@);
        let n = self.checksums.len();
        let mut i: usize = 0;
        while i < n
            invariant
                self.inv(),
                ps == pairs_view(self.checksums@),
                n == self.checksums@.len(),
                0 <= i <= n,
                forall|j: int| 0 <= j < i ==> (#[trigger] ps[j]).0 != key@,
            decreases n - i,
        {
            if self.checksums[i].0 == *key {
                proof {
                    lemma_assoc_map_find(ps, i as int);
                }
                return Some(self.checksums[i].1.clone());
            }
            i += 1;
        }
        proof {
            lemma_assoc_map_absent(ps, key@);
        }
        None
    }
}

impl KeyManager for MemoryKeyManager {
    open spec fn obeys_registry() -> bool {
        true
    }

    closed spec fn subs(&self) -> Seq<SubEntry> {
        self.subscriptions@.map_values(|r: SubRow| r@)
    }

    closed spec fn checksums(&self) -> Map<Seq<char>, Seq<char>> {
        assoc_map(pairs_view(self.checksums@))
    }

    closed spec fn inv(&self) -> bool {
        unique_ids(self.subs()) && unique_keys(pairs_view(self.checksums@))
    }

    fn watch(
        &mut self,
        namespace: String,
        deployment: String,
        config_key: String,
        consul_key: String,
    ) -> (r: Result<bool, ConMutError>) {
        let ghost id = id_of(namespace@, deployment@, config_key@);
        let ghost s0 = self.subs();
        let n = self.subscriptions.len();
        let mut i: usize = 0;
        while i < n
            invariant
                *self == *old(self),
                old(self).inv(),
                s0 == self.subs(),
                unique_ids(s0),
                id == id_of(namespace@, deployment@, config_key@),
                n == self.subscriptions@.len(),
                0 <= i <= n,
                forall|j: int| 0 <= j < i ==> (#[trigger] s0[j]).id != id,
            decreases n - i,
        {
            proof {
                assert(s0[i as int] == self.subscriptions@[i as int]@);
            }
            if self.subscriptions[i].namespace == namespace && self.subscriptions[i].deployment
                == deployment && self.subscriptions[i].config_key == config_key {
                proof {
                    assert(s0[i as int].id == id);
                    assert(has_id(s0, id));
                    let j = choose|j: int| 0 <= j < s0.len() && s0[j].id == id;
                    if j != i as int {
                        assert(s0[j].id != s0[i as int].id);
                        assert(false);
                    }
                }
                if self.subscriptions[i].consul_key == consul_key {
                    return Ok(false);
                } else {
                    return Err(
                        ConMutError::new(
                            ErrorKind::Conflict,
                            String::from_str("subscription already exists"),
                        ),
                    );
                }
            }
            i += 1;
        }
        assert(!has_id(s0, id));
        let mut subscribed = false;
        let mut k: usize = 0;
        while k < n
            invariant
                *self == *old(self),
                s0 == self.subs(),
                n == self.subscriptions@.len(),
                0 <= k <= n,
                subscribed == key_subscribed(s0.take(k as int), consul_key@),
            decreases n - k,
        {
            proof {
                assert(s0[k as int] == self.subscriptions@[k as int]@);
                lemma_key_subscribed_take_succ(s0, k as int, consul_key@);
            }
            if self.subscriptions[k].consul_key == consul_key {
                subscribed = true;
            }
            k += 1;
        }
        proof {
            assert(s0.take(n as int) =~= s0);
        }
        let ghost v0 = self.subscriptions@;
        let row = SubRow { namespace, deployment, config_key, consul_key };
        let ghost entry = row@;
        self.subscriptions.push(row);
        proof {
            lemma_map_values_push(v0, |r: SubRow| r@, SubRow { namespace, deployment, config_key, consul_key });
            assert(self.subs() == s0.push(entry));
            assert(entry.id == id);
            assert forall|a: int, b: int|
                0 <= a < b < self.subs().len() implies (#[trigger] self.subs()[a]).id != (
            #[trigger] self.subs()[b]).id by {
                if b == s0.len() as int {
                    assert(self.subs()[a] == s0[a]);
                } else {
                    assert(self.subs()[a] == s0[a]);
                    assert(self.subs()[b] == s0[b]);
                }
            }
        }
        Ok(!subscribed)
    }

    fn unwatch_namespace(&mut self, namespace: String) -> (r: Result<usize, ConMutError>) {
        let ghost s0 = self.subs();
        let ghost pred = |e: SubEntry| e.id.namespace != namespace@;
        let n = self.subscriptions.len();
        let mut kept: Vec<SubRow> = Vec::new();
        let mut i: usize = 0;
        while i < n
            invariant
                *self == *old(self),
                s0 == self.subs(),
                pred == (|e: SubEntry| e.id.namespace != namespace@),
                n == self.subscriptions@.len(),
                0 <= i <= n,
                kept@.map_values(|r: SubRow| r@) == s0.take(i as int).filter(pred),
                kept@.len() <= i,
            decreases n - i,
        {
            proof {
                lemma_take_succ(s0, i as int);
                lemma_filter_push(s0.take(i as int), pred, s0[i as int]);
            }
            if !(self.subscriptions[i].namespace == namespace) {
                let ghost k0 = kept@;
                kept.push(self.subscriptions[i].clone());
                proof {
                    lemma_map_values_push(k0, |r: SubRow| r@, self.subscriptions@[i as int]);
                }
            }
            i += 1;
        }
        proof {
            assert(s0.take(n as int) =~= s0);
        }
        let removed = n - kept.len();
        self.subscriptions = kept;
        proof {
            lemma_filter_distinct_by(s0, pred, |e: SubEntry| e.id);
        }
        Ok(removed)
    }

    fn unwatch_deployment(&mut self, namespace: String, deployment: String) -> (r: Result<
        usize,
        ConMutError,
    >) {
        let ghost s0 = self.subs();
        let ghost pred = |e: SubEntry| !(e.id.namespace == namespace@ && e.id.deployment
            == deployment@);
        let n = self.subscriptions.len();
        let mut kept: Vec<SubRow> = Vec::new();
        let mut i: usize = 0;
        while i < n
            invariant
                *self == *old(self),
                s0 == self.subs(),
                pred == (|e: SubEntry| !(e.id.namespace == namespace@ && e.id.deployment
                    == deployment@)),
                n == self.subscriptions@.len(),
                0 <= i <= n,
                kept@.map_values(|r: SubRow| r@) == s0.take(i as int).filter(pred),
                kept@.len() <= i,
            decreases n - i,
        {
            proof {
                lemma_take_succ(s0, i as int);
                lemma_filter_push(s0.take(i as int), pred, s0[i as int]);
            }
            if !(self.subscriptions[i].namespace == namespace && self.subscriptions[i].deployment
                == deployment) {
                let ghost k0 = kept@;
                kept.push(self.subscriptions[i].clone());
                proof {
                    lemma_map_values_push(k0, |r: SubRow| r@, self.subscriptions@[i as int]);
                }
            }
            i += 1;
        }
        proof {
            assert(s0.take(n as int) =~= s0);
        }
        let removed = n - kept.len();
        self.subscriptions = kept;
        proof {
            lemma_filter_distinct_by(s0, pred, |e: SubEntry| e.id);
        }
        Ok(removed)
    }

    fn set(&mut self, key: String, value: String) -> (r: Result<(), ConMutError>) {
        let ghost ps = pairs_view(self.checksums@);
        let n = self.checksums.len();
        let mut i: usize = 0;
        while i < n
            invariant
                *self == *old(self),
                old(self).inv(),
                ps == pairs_view(self.checksums@),
                unique_keys(ps),
                unique_ids(self.subs()),
                n == self.checksums@.len(),
                0 <= i <= n,
                forall|j: int| 0 <= j < i ==> (#[trigger] ps[j]).0 != key@,
            decreases n - i,
        {
            proof {
                assert(ps[i as int] == (self.checksums@[i as int].0@, self.checksums@[i as int].1@));
            }
            if self.checksums[i].0 == key {
                self.checksums[i] = (key, value);
                proof {
                    assert(pairs_view(self.checksums@) =~= ps.update(i as int, (ps[i as int].0, value@)));
                    lemma_assoc_map_update(ps, i as int, value@);
                    assert forall|a: int, b: int|
                        0 <= a < b < pairs_view(self.checksums@).len() implies (
                    #[trigger] pairs_view(self.checksums@)[a]).0 != (#[trigger] pairs_view(
                        self.checksums@,
                    )[b]).0 by {
                        assert(pairs_view(self.checksums@)[a].0 == ps[a].0);
                        assert(pairs_view(self.checksums@)[b].0 == ps[b].0);
                    }
                }
                return Ok(());
            }
            i += 1;
        }
        self.checksums.push((key, value));
        proof {
            assert(pairs_view(self.checksums@) =~= ps.push((key@, value@)));
            assert(ps.push((key@, value@)).drop_last() =~= ps);
            assert(self.checksums() == assoc_map(ps).insert(key@, value@));
        }
        Ok(())
    }

    fn get(&self, key: String) -> (r: Result<Option<String>, ConMutError>) {
        Ok(self.find_checksum(&key))
    }

    fn subscriptions_for_deployment(&self, namespace: String, deployment: String) -> (r: Result<
        Vec<Subscription>,
        ConMutError,
    >) {
        let ghost s = self.subs();
        let ghost pred = |e: SubEntry| e.id.namespace == namespace@ && e.id.deployment
            == deployment@;
        let n = self.subscriptions.len();
        let mut result: Vec<Subscription> = Vec::new();
        let mut i: usize = 0;
        while i < n
            invariant
                self.inv(),
                s == self.subs(),
                pred == (|e: SubEntry| e.id.namespace == namespace@ && e.id.deployment
                    == deployment@),
                n == self.subscriptions@.len(),
                0 <= i <= n,
                result@.map_values(|x: Subscription| x@) == s.take(i as int).filter(
                    pred,
                ).map_values(|e: SubEntry| e.id),
            decreases n - i,
        {
            proof {
                lemma_take_succ(s, i as int);
                lemma_filter_push(s.take(i as int), pred, s[i as int]);
            }
            if self.subscriptions[i].namespace == namespace && self.subscriptions[i].deployment
                == deployment {
                let ghost r0 = result@;
                let sub = Subscription {
                    namespace: self.subscriptions[i].namespace.clone(),
                    deployment: self.subscriptions[i].deployment.clone(),
                    config_key: self.subscriptions[i].config_key.clone(),
                };
                result.push(sub);
                proof {
                    lemma_map_values_push(
                        r0,
                        |x: Subscription| x@,
                        result@[r0.len() as int],
                    );
                    lemma_map_values_push(
                        s.take(i as int).filter(pred),
                        |e: SubEntry| e.id,
                        s[i as int],
                    );
                }
            }
            i += 1;
        }
        proof {
            assert(s.take(n as int) =~= s);
        }
        Ok(result)
    }

    fn subscriptions_for_consul_key(&self, consul_key: String) -> (r: Result<
        Vec<Subscription>,
        ConMutError,
    >) {
        let ghost s = self.subs();
        let ghost pred = |e: SubEntry| e.consul_key == consul_key@;
        let n = self.subscriptions.len();
        let mut result: Vec<Subscription> = Vec::new();
        let mut i: usize = 0;
        while i < n
            invariant
                self.inv(),
                s == self.subs(),
                pred == (|e: SubEntry| e.consul_key == consul_key@),
                n == self.subscriptions@.len(),
                0 <= i <= n,
                result@.map_values(|x: Subscription| x@) == s.take(i as int).filter(
                    pred,
                ).map_values(|e: SubEntry| e.id),
            decreases n - i,
        {
            proof {
                lemma_take_succ(s, i as int);
                lemma_filter_push(s.take(i as int), pred, s[i as int]);
            }
            if self.subscriptions[i].consul_key == consul_key {
                let ghost r0 = result@;
                let sub = Subscription {
                    namespace: self.subscriptions[i].namespace.clone(),
                    deployment: self.subscriptions[i].deployment.clone(),
                    config_key: self.subscriptions[i].config_key.clone(),
                };
                result.push(sub);
                proof {
                    lemma_map_values_push(
                        r0,
                        |x: Subscription| x@,
                        result@[r0.len() as int],
                    );
                    lemma_map_values_push(
                        s.take(i as int).filter(pred),
                        |e: SubEntry| e.id,
                        s[i as int],
                    );
                }
            }
            i += 1;
        }
        proof {
            assert(s.take(n as int) =~= s);
        }
        Ok(result)
    }

    fn consul_key_subscriber_count(&self, consul_key: String) -> (r: Result<usize, ConMutError>) {
        let ghost s = self.subs();
        let ghost pred = |e: SubEntry| e.consul_key == consul_key@;
        let n = self.subscriptions.len();
        let mut count: usize = 0;
        let mut i: usize = 0;
        while i < n
            invariant
                self.inv(),
                s == self.subs(),
                pred == (|e: SubEntry| e.consul_key == consul_key@),
                n == self.subscriptions@.len(),
                0 <= i <= n,
                count <= i,
                count == s.take(i as int).filter(pred).len(),
            decreases n - i,
        {
            proof {
                lemma_take_succ(s, i as int);
                lemma_filter_push(s.take(i as int), pred, s[i as int]);
            }
            if self.subscriptions[i].consul_key == consul_key {
                count += 1;
            }
            i += 1;
        }
        proof {
            assert(s.take(n as int) =~= s);
        }
        Ok(count)
    }

    fn consul_keys(&self) -> (r: Result<Vec<String>, ConMutError>) {
        let ghost s = self.subs();
        let n = self.subscriptions.len();
        let mut result: Vec<String> = Vec::new();
        let mut i: usize = 0;
        while i < n
            invariant
                self.inv(),
                s == self.subs(),
                n == self.subscriptions@.len(),
                0 <= i <= n,
                strs_view(result@).no_duplicates(),
                forall|k: Seq<char>|
                    strs_view(result@).contains(k) <==> #[trigger] key_subscribed(
                        s.take(i as int),
                        k,
                    ),
            decreases n - i,
        {
            let present = contains_string(&result, &self.subscriptions[i].consul_key);
            if !present {
                let ghost r0 = result@;
                result.push(self.subscriptions[i].consul_key.clone());
                proof {
                    lemma_map_values_push(r0, |x: String| x@, result@[r0.len() as int]);
                    let kv0 = strs_view(r0);
                    let kv1 = strs_view(result@);
                    assert(kv1 == kv0.push(s[i as int].consul_key));
                    assert forall|k: Seq<char>|
                        kv1.contains(k) <==> #[trigger] key_subscribed(
                            s.take(i as int + 1),
                            k,
                        ) by {
                        lemma_key_subscribed_take_succ(s, i as int, k);
                        if kv1.contains(k) {
                            let w = choose|w: int| 0 <= w < kv1.len() && kv1[w] == k;
                            if w < kv0.len() {
                                assert(kv0[w] == k);
                                assert(kv0.contains(k));
                            }
                        }
                        if key_subscribed(s.take(i as int + 1), k) {
                            if k == s[i as int].consul_key {
                                assert(kv1[kv0.len() as int] == k);
                            } else {
                                assert(kv0.contains(k));
                                let w = choose|w: int| 0 <= w < kv0.len() && kv0[w] == k;
                                assert(kv1[w] == k);
                            }
                        }
                    }
                    assert forall|a: int, b: int|
                        0 <= a < b < kv1.len() implies kv1[a] != kv1[b] by {
                        if b == kv0.len() as int {
                            if kv1[a] == kv1[b] {
                                assert(kv0[a] == s[i as int].consul_key);
                                assert(kv0.contains(s[i as int].consul_key));
                                assert(key_subscribed(s.take(i as int), s[i as int].consul_key));
                            }
                        }
                    }
                }
            } else {
                proof {
                    let kv0 = strs_view(result@);
                    assert forall|k: Seq<char>|
                        kv0.contains(k) <==> #[trigger] key_subscribed(
                            s.take(i as int + 1),
                            k,
                        ) by {
                        lemma_key_subscribed_take_succ(s, i as int, k);
                        if key_subscribed(s.take(i as int + 1), k) {
                            if k != s[i as int].consul_key {
                                assert(key_subscribed(s.take(i as int), k));
                            }
                        }
                    }
                }
            }
            i += 1;
        }
        proof {
            assert(s.take(n as int) =~= s);
            let kv = strs_view(result@);
            assert forall|k: Seq<char>| #[trigger] kv.contains(k) <==> key_subscribed(s, k) by {
                assert(kv.contains(k) <==> key_subscribed(s.take(n as int), k));
            }
        }
        Ok(result)
    }

    fn deployment_annotations(&self, namespace: String, deployment: String) -> (r: Result<
        Vec<(String, String)>,
        ConMutError,
    >) {
        let ghost s = self.subs();
        let ghost sums = self.checksums();
        let ghost dpred = |e: SubEntry| e.id.namespace == namespace@ && e.id.deployment
            == deployment@;
        let ghost cpred = |e: SubEntry| sums.contains_key(e.consul_key);
        let ghost pair = |e: SubEntry| (e.id.config_key, sums[e.consul_key]);
        let n = self.subscriptions.len();
        let mut result: Vec<(String, String)> = Vec::new();
        let mut i: usize = 0;
        while i < n
            invariant
                self.inv(),
                s == self.subs(),
                sums == self.checksums(),
                dpred == (|e: SubEntry| e.id.namespace == namespace@ && e.id.deployment
                    == deployment@),
                cpred == (|e: SubEntry| sums.contains_key(e.consul_key)),
                pair == (|e: SubEntry| (e.id.config_key, sums[e.consul_key])),
                n == self.subscriptions@.len(),
                0 <= i <= n,
                result@.map_values(|p: (String, String)| (p.0@, p.1@)) == s.take(i as int).filter(
                    dpred,
                ).filter(cpred).map_values(pair),
            decreases n - i,
        {
            proof {
                lemma_take_succ(s, i as int);
                lemma_filter_push(s.take(i as int), dpred, s[i as int]);
            }
            if self.subscriptions[i].namespace == namespace && self.subscriptions[i].deployment
                == deployment {
                proof {
                    lemma_filter_push(s.take(i as int).filter(dpred), cpred, s[i as int]);
                }
                let found = self.find_checksum(&self.subscriptions[i].consul_key);
                match found {
                    Some(value) => {
                        let ghost r0 = result@;
                        let slot = self.subscriptions[i].config_key.clone();
                        result.push((slot, value));
                        proof {
                            lemma_map_values_push(
                                r0,
                                |p: (String, String)| (p.0@, p.1@),
                                result@[r0.len() as int],
                            );
                            lemma_map_values_push(
                                s.take(i as int).filter(dpred).filter(cpred),
                                pair,
                                s[i as int],
                            );
                        }
                    },
                    None => {
                        proof {
                            assert(!cpred(s[i as int]));
                        }
                    },
                }
            }
            i += 1;
        }
        proof {
            assert(s.take(n as int) =~= s);
        }
        Ok(result)
    }
}

/// Whether a vector of strings holds one with these characters.
pub(crate) fn contains_string(v: &Vec<String>, key: &String) -> (r: bool)
    ensures
        r == strs_view(v@).contains(key@),
{
    let ghost kv = strs_view(v@);
    let mut i: usize = 0;
    while i < v.len()
        invariant
            kv == strs_view(v@),
            0 <= i <= v@.len(),
            forall|j: int| 0 <= j < i ==> kv[j] != key@,
        decreases v@.len() - i,
    {
        if v[i] == *key {
            assert(kv[i as int] == key@);
            return true;
        }
        i += 1;
    }
    false
}

/// Law: a `watch` that succeeded, repeated with the same arguments,
/// reports `false` and leaves the registry unchanged.
pub proof fn lemma_rewatch_same_key(
    s0: Seq<SubEntry>,
    c0: Map<Seq<char>, Seq<char>>,
    s1: Seq<SubEntry>,
    c1: Map<Seq<char>, Seq<char>>,
    s2: Seq<SubEntry>,
    c2: Map<Seq<char>, Seq<char>>,
    id: SubId,
    key: Seq<char>,
    r1: Result<bool, ConMutError>,
    r2: Result<bool, ConMutError>,
)
    requires
        watch_post(s0, c0, s1, c1, id, key, r1),
        r1 is Ok,
        watch_post(s1, c1, s2, c2, id, key, r2),
    ensures
        r2 == Result::<bool, ConMutError>::Ok(false),
        s2 == s1,
{
    if has_id(s0, id) {
        assert(key_of_id(s0, id) == key);
    } else {
        assert(s1 == s0.push(SubEntry { id, consul_key: key }));
        assert(s1[s0.len() as int].id == id);
        assert(has_id(s1, id));
        let j = choose|j: int| 0 <= j < s1.len() && s1[j].id == id;
        assert(s1[j].consul_key == key);
    }
}

/// Law: a `watch` that succeeded, repeated with the same identity but a
/// different consul key, fails with a conflict and leaves the registry
/// unchanged.
pub proof fn lemma_rewatch_conflict(
    s0: Seq<SubEntry>,
    c0: Map<Seq<char>, Seq<char>>,
    s1: Seq<SubEntry>,
    c1: Map<Seq<char>, Seq<char>>,
    s2: Seq<SubEntry>,
    c2: Map<Seq<char>, Seq<char>>,
    id: SubId,
    key: Seq<char>,
    key2: Seq<char>,
    r1: Result<bool, ConMutError>,
    r2: Result<bool, ConMutError>,
)
    requires
        watch_post(s0, c0, s1, c1, id, key, r1),
        r1 is Ok,
        key2 != key,
        watch_post(s1, c1, s2, c2, id, key2, r2),
    ensures
        r2 matches Result::Err(e) && e.spec_kind() == ErrorKind::Conflict,
        s2 == s1,
{
    if has_id(s0, id) {
        assert(key_of_id(s0, id) == key);
    } else {
        assert(s1 == s0.push(SubEntry { id, consul_key: key }));
        assert(s1[s0.len() as int].id == id);
        assert(has_id(s1, id));
        let j = choose|j: int| 0 <= j < s1.len() && s1[j].id == id;
        assert(s1[j].consul_key == key);
    }
}

/// Law: after unwatching a deployment, the registry holds no
/// subscription of that deployment.
pub proof fn lemma_unwatch_deployment_clears(subs: Seq<SubEntry>, ns: Seq<char>, dep: Seq<char>)
    ensures
        subs_for_deployment(keep_outside_deployment(subs, ns, dep), ns, dep)
            == Seq::<SubEntry>::empty(),
{
    lemma_filter_excluded(
        subs,
        |e: SubEntry| !(e.id.namespace == ns && e.id.deployment == dep),
        |e: SubEntry| e.id.namespace == ns && e.id.deployment == dep,
    );
}

/// Law: the subscriber count of a consul key equals the number of
/// subscriptions listed for that key.
pub proof fn lemma_subscriber_count_matches(
    subs: Seq<SubEntry>,
    key: Seq<char>,
    n: int,
    ids: Seq<SubId>,
)
    requires
        n == subs_for_key(subs, key).len(),
        ids == subs_for_key(subs, key).map_values(|e: SubEntry| e.id),
    ensures
        n == ids.len(),
{
}

/// Law: the distinct key listing names exactly the set of consul keys
/// across all live subscriptions.
pub proof fn lemma_consul_keys_exact(keys: Seq<Seq<char>>, subs: Seq<SubEntry>)
    requires
        names_live_keys(keys, subs),
    ensures
        keys.to_set() == live_keys(subs),
{
    assert(keys.to_set() =~= live_keys(subs));
}

} // verus!
