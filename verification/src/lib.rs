//! Subscription fabric for keeping Kubernetes Deployments in step with
//! values in a Consul key-value store.
//!
//! The crate holds the verified core of an admission controller and
//! background reconciler: a subscription registry mapping
//! `(namespace, deployment, config slot)` to a consul key, the decision
//! logic of the per-key watcher, the watcher supervisor, the debounced
//! deployment updater, and the admission mutation planner.  I/O — HTTP,
//! the Kubernetes API, the Consul long poll — stays outside; the library
//! works on plain values handed in and returns plain values and plans.

pub mod api;
pub mod checksum;
pub mod config;
pub mod consul;
pub mod error;
pub mod k8s;
pub mod key_manager;
pub mod state;
pub mod seqs;
pub mod text;
pub mod updater;

pub use error::{ConMutError, ErrorKind};
