use k8s_consul_mutator_rs::key_manager::{KeyManager, MemoryKeyManager};
use k8s_consul_mutator_rs::state::DeploymentUpdate;
use k8s_consul_mutator_rs::updater::{
    build_annotations, plan_update, DeploymentLookup, UpdateAction, UpdateQueue,
};

const DEBOUNCE: u64 = 60;

fn work(ns: &str, dep: &str, at: u64) -> DeploymentUpdate {
    DeploymentUpdate {
        namespace: ns.to_string(),
        deployment: dep.to_string(),
        occurred: at,
    }
}

#[test]
fn burst_for_one_deployment_releases_once() {
    let mut q = UpdateQueue::new();
    q.submit(work("default", "app-foo", 1_000));
    q.submit(work("default", "app-foo", 1_010));
    let due = q.take_due(1_071, DEBOUNCE);
    assert_eq!(due.len(), 1);
    assert_eq!(due[0], work("default", "app-foo", 1_010));
    assert!(q.take_due(2_000, DEBOUNCE).is_empty());
}

#[test]
fn reentry_restarts_the_debounce_clock() {
    let mut q = UpdateQueue::new();
    q.submit(work("default", "app-foo", 1_000));
    // re-entered late: the first occurred-at no longer counts
    q.submit(work("default", "app-foo", 1_050));
    assert!(q.take_due(1_061, DEBOUNCE).is_empty());
    let due = q.take_due(1_111, DEBOUNCE);
    assert_eq!(due.len(), 1);
    assert_eq!(due[0].occurred, 1_050);
}

#[test]
fn distinct_deployments_release_separately() {
    let mut q = UpdateQueue::new();
    q.submit(work("default", "app-foo", 1_000));
    q.submit(work("default", "app-bar", 1_030));
    q.submit(work("other", "app-foo", 1_040));
    let due = q.take_due(1_065, DEBOUNCE);
    assert_eq!(due, vec![work("default", "app-foo", 1_000)]);
    let rest = q.take_due(1_200, DEBOUNCE);
    assert_eq!(
        rest,
        vec![work("default", "app-bar", 1_030), work("other", "app-foo", 1_040)]
    );
}

#[test]
fn missing_deployment_is_skipped() {
    let km = MemoryKeyManager::default();
    let w = work("default", "app-foo", 1_000);
    let ts = "2024-05-01T00:00:00+00:00".to_string();
    let action = plan_update(&km, &w, DeploymentLookup::Missing, true, true, true, false, &ts);
    assert!(matches!(action, UpdateAction::Skip));
    let failed = plan_update(
        &km,
        &w,
        DeploymentLookup::LookupFailed,
        true,
        true,
        true,
        false,
        &ts,
    );
    assert!(matches!(failed, UpdateAction::Skip));
}

#[test]
fn found_deployment_is_patched_with_registry_checksums() {
    let mut km = MemoryKeyManager::default();
    km.watch(
        "default".to_string(),
        "app-foo".to_string(),
        "config".to_string(),
        "apps/foo".to_string(),
    )
    .unwrap();
    km.set("apps/foo".to_string(), "md5-cafe".to_string()).unwrap();
    let w = work("default", "app-foo", 1_000);
    let ts = "2024-05-01T00:00:00+00:00".to_string();
    let action = plan_update(&km, &w, DeploymentLookup::Found, true, true, true, false, &ts);
    match action {
        UpdateAction::Patch(p) => {
            assert_eq!(p.deployment, "app-foo");
            assert_eq!(
                p.annotations,
                vec![
                    (
                        "k8s-consul-mutator.io/checksum-config".to_string(),
                        "md5-cafe".to_string()
                    ),
                    (
                        "k8s-consul-mutator.io/last-updated".to_string(),
                        ts.clone()
                    ),
                ]
            );
            // the pod-template map carries the checksums but, with the
            // spec timestamp toggle off, no last-updated stamp
            assert_eq!(
                p.spec_annotations,
                vec![(
                    "k8s-consul-mutator.io/checksum-config".to_string(),
                    "md5-cafe".to_string()
                )]
            );
        }
        UpdateAction::Skip => panic!("a found deployment must be patched"),
    }
}

#[test]
fn annotation_toggles_are_honoured() {
    let slot_sums = vec![("config".to_string(), "md5-cafe".to_string())];
    let ts = "2024-05-01T00:00:00+00:00".to_string();
    let none = build_annotations(&slot_sums, false, false, &ts);
    assert!(none.is_empty());
    let only_ts = build_annotations(&slot_sums, false, true, &ts);
    assert_eq!(
        only_ts,
        vec![("k8s-consul-mutator.io/last-updated".to_string(), ts.clone())]
    );
    let only_sums = build_annotations(&slot_sums, true, false, &ts);
    assert_eq!(
        only_sums,
        vec![(
            "k8s-consul-mutator.io/checksum-config".to_string(),
            "md5-cafe".to_string()
        )]
    );
}
