use k8s_consul_mutator_rs::consul::WatchDispatcher;
use k8s_consul_mutator_rs::key_manager::{KeyManager, MemoryKeyManager};
use k8s_consul_mutator_rs::state::ConsulWatch;

const DEBOUNCE: u64 = 60;

#[test]
fn repeated_create_spawns_once() {
    let mut d = WatchDispatcher::new();
    d.submit(ConsulWatch::Create("apps/foo".to_string(), 1_000));
    d.submit(ConsulWatch::Create("apps/foo".to_string(), 1_010));
    // both arrivals lie inside one debounce window; drain well after it
    let spawned = d.drain(2_000, DEBOUNCE);
    assert_eq!(spawned, vec!["apps/foo".to_string()]);
    // the command was consumed: another drain spawns nothing
    let again = d.drain(3_000, DEBOUNCE);
    assert!(again.is_empty());
}

#[test]
fn create_then_destroy_spawns_nothing() {
    let mut d = WatchDispatcher::new();
    d.submit(ConsulWatch::Create("apps/foo".to_string(), 1_000));
    d.submit(ConsulWatch::Destroy("apps/foo".to_string(), 1_010));
    let spawned = d.drain(2_000, DEBOUNCE);
    assert!(spawned.is_empty());
}

#[test]
fn young_create_waits_for_debounce() {
    let mut d = WatchDispatcher::new();
    d.submit(ConsulWatch::Create("apps/foo".to_string(), 1_000));
    // not yet due: occurred + debounce is not in the past
    let early = d.drain(1_030, DEBOUNCE);
    assert!(early.is_empty());
    let late = d.drain(1_061, DEBOUNCE);
    assert_eq!(late, vec!["apps/foo".to_string()]);
}

#[test]
fn second_create_while_running_does_not_respawn() {
    let mut d = WatchDispatcher::new();
    d.submit(ConsulWatch::Create("apps/foo".to_string(), 1_000));
    let first = d.drain(2_000, DEBOUNCE);
    assert_eq!(first, vec!["apps/foo".to_string()]);
    d.submit(ConsulWatch::Create("apps/foo".to_string(), 3_000));
    let second = d.drain(4_000, DEBOUNCE);
    assert!(second.is_empty());
}

#[test]
fn destroy_untracks_so_create_spawns_again() {
    let mut d = WatchDispatcher::new();
    d.submit(ConsulWatch::Create("apps/foo".to_string(), 1_000));
    assert_eq!(d.drain(2_000, DEBOUNCE), vec!["apps/foo".to_string()]);
    // the watcher gave up and sent a destroy; the supervisor forgets it
    d.submit(ConsulWatch::Destroy("apps/foo".to_string(), 3_000));
    assert!(d.drain(4_000, DEBOUNCE).is_empty());
    // a new subscriber arrives: the key spawns again
    d.submit(ConsulWatch::Create("apps/foo".to_string(), 5_000));
    assert_eq!(d.drain(6_000, DEBOUNCE), vec!["apps/foo".to_string()]);
}

#[test]
fn reconcile_spawns_registered_keys() {
    let mut d = WatchDispatcher::new();
    let keys = vec!["apps/foo".to_string(), "apps/bar".to_string()];
    let spawned = d.reconcile(&keys, 10_000, 1_800);
    assert_eq!(spawned, vec!["apps/foo".to_string(), "apps/bar".to_string()]);
    // running now: a second reconcile spawns nothing new
    let again = d.reconcile(&keys, 20_000, 1_800);
    assert!(again.is_empty());
}

#[test]
fn reconcile_heals_lost_create_command() {
    // the create command for a registered key was lost: the first
    // reconcile of the supervisor spawns its watcher anyway
    let mut km = MemoryKeyManager::default();
    km.watch(
        "default".to_string(),
        "app-foo".to_string(),
        "config".to_string(),
        "apps/foo".to_string(),
    )
    .unwrap();
    let mut d = WatchDispatcher::new();
    // first turn only schedules the first reconcile
    let first = d.step(&km, None, 1_000, 30, 1_800, DEBOUNCE);
    assert!(first.is_empty());
    // after the first-reconcile delay, the key is spawned
    let healed = d.step(&km, None, 1_031, 30, 1_800, DEBOUNCE);
    assert_eq!(healed, vec!["apps/foo".to_string()]);
}

#[test]
fn step_prefers_pending_commands_over_reconcile() {
    let mut km = MemoryKeyManager::default();
    km.watch(
        "default".to_string(),
        "app-foo".to_string(),
        "config".to_string(),
        "apps/foo".to_string(),
    )
    .unwrap();
    let mut d = WatchDispatcher::new();
    assert!(d.step(&km, None, 1_000, 30, 1_800, DEBOUNCE).is_empty());
    // a pending command postpones the reconcile and is debounced first
    let spawned = d.step(
        &km,
        Some(ConsulWatch::Create("apps/bar".to_string(), 1_031)),
        1_031,
        30,
        1_800,
        DEBOUNCE,
    );
    assert!(spawned.is_empty());
    let later = d.step(&km, None, 1_100, 30, 1_800, DEBOUNCE);
    assert_eq!(later, vec!["apps/bar".to_string()]);
}
