//! One pass through the whole pipeline on concrete values: two
//! deployments subscribe to a shared key through admission, the
//! supervisor starts exactly one watcher, a KV change fans out to both,
//! and the debounced updater patches each deployment with the new
//! checksum.

use k8s_consul_mutator_rs::api::plan_mutation;
use k8s_consul_mutator_rs::checksum::Md5Checksummer;
use k8s_consul_mutator_rs::consul::{publish_change, KeyWatcher, KvReadOutcome, ReadStep, WatchDispatcher};
use k8s_consul_mutator_rs::key_manager::MemoryKeyManager;
use k8s_consul_mutator_rs::updater::{plan_update, DeploymentLookup, UpdateAction, UpdateQueue};

const DEBOUNCE: u64 = 60;

#[test]
fn kv_change_rolls_both_subscribers() {
    let mut km = MemoryKeyManager::default();

    // admission: deployments app-a and app-b both bind the shared key
    let annotations = vec![(
        "k8s-consul-mutator.io/key-config".to_string(),
        "apps/shared".to_string(),
    )];
    let mut commands = Vec::new();
    for name in ["app-a", "app-b"] {
        let plan = plan_mutation(
            &mut km,
            &"default".to_string(),
            &name.to_string(),
            &annotations,
            1_000,
        )
        .expect("mutation must succeed");
        assert!(plan.patches.is_empty(), "no checksum is known yet");
        commands.extend(plan.commands);
    }
    assert_eq!(commands.len(), 2);

    // supervisor: the two create commands coalesce into one watcher
    let mut dispatcher = WatchDispatcher::new();
    for cmd in commands {
        dispatcher.submit(cmd);
    }
    let spawned = dispatcher.drain(2_000, DEBOUNCE);
    assert_eq!(spawned, vec!["apps/shared".to_string()]);

    // the watcher sees the key change and publishes
    let mut watcher = KeyWatcher::new("apps/shared".to_string());
    let value = b"max_connections = 100".to_vec();
    let step = watcher.read_step(KvReadOutcome::Found(5, Some(value)));
    let bytes = match step {
        ReadStep::Changed(bytes) => bytes,
        _ => panic!("an advanced index with a value must publish"),
    };
    let (checksum, updates) = publish_change(
        &mut km,
        &Md5Checksummer {},
        &"apps/shared".to_string(),
        bytes,
        3_000,
    );
    assert_eq!(updates.len(), 2);

    // the updater debounces and patches each deployment once
    let mut queue = UpdateQueue::new();
    for update in updates {
        queue.submit(update);
    }
    let due = queue.take_due(3_000 + DEBOUNCE + 1, DEBOUNCE);
    assert_eq!(due.len(), 2);
    let ts = "2024-05-01T00:00:00+00:00".to_string();
    let mut patched = Vec::new();
    for work in &due {
        match plan_update(&km, work, DeploymentLookup::Found, true, true, false, false, &ts) {
            UpdateAction::Patch(plan) => {
                assert_eq!(
                    plan.spec_annotations,
                    vec![(
                        "k8s-consul-mutator.io/checksum-config".to_string(),
                        checksum.clone()
                    )]
                );
                patched.push(plan.deployment);
            }
            UpdateAction::Skip => panic!("a found deployment must be patched"),
        }
    }
    patched.sort();
    assert_eq!(patched, vec!["app-a".to_string(), "app-b".to_string()]);
}
