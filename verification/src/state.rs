//! Shared envelope types of the pipeline.
//!
//! `DeploymentUpdate` is a debounce-coalesced intent to patch one
//! Deployment; `ConsulWatch` is a command to the watcher supervisor.
//! Instants are plain milliseconds; the surrounding runtime converts
//! wall-clock time to and from this form.

use vstd::prelude::*;

verus! {

/// An intent to patch one Deployment because some consul key it
/// subscribes to has a new checksum.  Coalescing is by
/// `(namespace, deployment)`; `occurred` restarts the debounce clock.
#[derive(Hash, Eq, PartialEq, Debug)]
pub struct DeploymentUpdate {
    pub namespace: String,
    pub deployment: String,
    /// When this intent was (re-)entered, in milliseconds.
    pub occurred: u64,
}

impl Clone for DeploymentUpdate {
    fn clone(&self) -> (r: Self)
        ensures
            r == *self,
    {
        DeploymentUpdate {
            namespace: self.namespace.clone(),
            deployment: self.deployment.clone(),
            occurred: self.occurred,
        }
    }
}

/// Whether two update intents target the same Deployment.
pub open spec fn same_target(a: DeploymentUpdate, b: DeploymentUpdate) -> bool {
    a.namespace@ == b.namespace@ && a.deployment@ == b.deployment@
}

/// A command to the watcher supervisor: start or stop watching a
/// consul key.  The instant records when the command was issued.
#[derive(Hash, Eq, PartialEq, Debug)]
pub enum ConsulWatch {
    Create(String, u64),
    Destroy(String, u64),
}

impl Clone for ConsulWatch {
    fn clone(&self) -> (r: Self)
        ensures
            r == *self,
    {
        match self {
            ConsulWatch::Create(k, t) => ConsulWatch::Create(k.clone(), *t),
            ConsulWatch::Destroy(k, t) => ConsulWatch::Destroy(k.clone(), *t),
        }
    }
}

/// The consul key a command is about.
pub open spec fn key_of(c: ConsulWatch) -> Seq<char> {
    match c {
        ConsulWatch::Create(k, _) => k@,
        ConsulWatch::Destroy(k, _) => k@,
    }
}

/// When a command was issued.
pub open spec fn when_of(c: ConsulWatch) -> u64 {
    match c {
        ConsulWatch::Create(_, t) => t,
        ConsulWatch::Destroy(_, t) => t,
    }
}

/// Whether a command asks for a watcher to be started.
pub open spec fn is_create(c: ConsulWatch) -> bool {
    c is Create
}

/// Whether a debounce window that started at `occurred` has elapsed at
/// `now`.
pub open spec fn elapsed(occurred: u64, debounce: u64, now: u64) -> bool {
    occurred + debounce < now
}

/// Decides whether a debounce window has elapsed.
pub fn debounce_elapsed(occurred: u64, debounce: u64, now: u64) -> (r: bool)
    ensures
        r == elapsed(occurred, debounce, now),
{
    (occurred as u128) + (debounce as u128) < (now as u128)
}

} // verus!
