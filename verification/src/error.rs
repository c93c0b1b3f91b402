//! Error taxonomy of the library.
//!
//! Every fallible operation reports a `ConMutError`, a message together
//! with a kind that tells the enclosing loop how to recover: a conflict
//! is surfaced to the caller, a transient fault is retried, a fatal one
//! aborts only the task that hit it, and a poisoned channel is logged
//! and healed by the next reconcile.

use vstd::prelude::*;

verus! {

/// How an error is to be handled by the loop that owns it.
#[derive(Clone, Copy, Debug, PartialEq, Eq, Structural)]
pub enum ErrorKind {
    /// A subscription identity was re-bound to a different consul key.
    Conflict,
    /// A retryable fault: KV read, lookup, or Kubernetes API call.
    Transient,
    /// A non-retryable fault that aborts the task that hit it.
    Fatal,
    /// A channel send failed because the receiver is gone.
    Poisoned,
}

/// An error of the library: a kind and a human-readable message.
#[derive(Debug)]
pub struct ConMutError {
    kind: ErrorKind,
    message: String,
}

impl Clone for ConMutError {
    fn clone(&self) -> (r: Self)
        ensures
            r.spec_kind() == self.spec_kind(),
            r.spec_message() == self.spec_message(),
    {
        ConMutError { kind: self.kind, message: self.message.clone() }
    }
}

impl ConMutError {
    /// The kind, as seen by contracts.
    pub closed spec fn spec_kind(&self) -> ErrorKind {
        self.kind
    }

    /// The message, as seen by contracts.
    pub closed spec fn spec_message(&self) -> Seq<char> {
        self.message@
    }

    /// Builds an error of the given kind carrying the given message.
    pub fn new(kind: ErrorKind, message: String) -> (r: ConMutError)
        ensures
            r.spec_kind() == kind,
            r.spec_message() == message@,
    {
        ConMutError { kind, message }
    }

    /// The kind of this error.
    pub fn kind(&self) -> (r: ErrorKind)
        ensures
            r == self.spec_kind(),
    {
        self.kind
    }

    /// The human-readable message of this error.
    pub fn message(&self) -> (r: &String)
        ensures
            r@ == self.spec_message(),
    {
        &self.message
    }
}

} // verus!
