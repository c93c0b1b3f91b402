use k8s_consul_mutator_rs::error::ErrorKind;
use k8s_consul_mutator_rs::key_manager::{
    KeyManager, MemoryKeyManager, NullKeyManager, Subscription,
};

#[test]
fn null_key_manager() {
    let mut key_manager = NullKeyManager::default();
    let watch_res = key_manager.watch(
        "default".to_string(),
        "app-foo".to_string(),
        "config".to_string(),
        "config".to_string(),
    );
    assert!(watch_res.is_ok());
    assert_eq!(watch_res.unwrap(), true);
}

#[test]
fn memory_key_manager() {
    let mut key_manager = MemoryKeyManager::default();
    {
        let watch_res = key_manager.watch(
            "default".to_string(),
            "app-foo".to_string(),
            "config".to_string(),
            "config".to_string(),
        );
        assert!(watch_res.is_ok());
        assert_eq!(watch_res.unwrap(), true);
    }
    {
        let watch_res2 = key_manager.watch(
            "default".to_string(),
            "app-foo".to_string(),
            "config".to_string(),
            "config".to_string(),
        );
        assert!(watch_res2.is_ok());
        assert_eq!(watch_res2.unwrap(), false);
    }
    {
        let watch_res3 = key_manager.watch(
            "default".to_string(),
            "app-foo".to_string(),
            "config".to_string(),
            "nah".to_string(),
        );
        assert!(watch_res3.is_err());
    }
    {
        let results =
            key_manager.subscriptions_for_deployment("default".to_string(), "app-foo".to_string());
        assert!(results.is_ok());
        let subscriptions = results.unwrap();
        assert_eq!(subscriptions.len(), 1);
        assert_eq!(
            subscriptions,
            vec![Subscription {
                namespace: "default".to_string(),
                deployment: "app-foo".to_string(),
                config_key: "config".to_string(),
            }]
        );
    }
}

#[test]
fn memory_key_manager_unwatch_deployment() {
    let mut key_manager = MemoryKeyManager::default();
    key_manager
        .watch(
            "default".to_string(),
            "app-foo".to_string(),
            "config".to_string(),
            "config".to_string(),
        )
        .expect("watch should succeed");

    assert_eq!(
        key_manager
            .subscriptions_for_deployment("default".to_string(), "app-foo".to_string())
            .expect("watch should succeed")
            .len(),
        1
    );

    key_manager
        .unwatch_deployment("default".to_string(), "app-foo".to_string())
        .expect("watch should succeed");

    assert_eq!(
        key_manager
            .subscriptions_for_deployment("default".to_string(), "app-foo".to_string())
            .expect("watch should succeed")
            .len(),
        0
    );
}

#[test]
fn memory_key_manager_unwatch_namespace() {
    let mut key_manager = MemoryKeyManager::default();
    key_manager
        .watch(
            "default".to_string(),
            "app-foo".to_string(),
            "config".to_string(),
            "config".to_string(),
        )
        .expect("watch should succeed");

    key_manager
        .watch(
            "secondary".to_string(),
            "app-bar".to_string(),
            "config".to_string(),
            "config".to_string(),
        )
        .expect("watch should succeed");

    assert_eq!(
        key_manager
            .subscriptions_for_deployment("default".to_string(), "app-foo".to_string())
            .expect("watch should succeed")
            .len(),
        1
    );
    assert_eq!(
        key_manager
            .subscriptions_for_deployment("secondary".to_string(), "app-bar".to_string())
            .expect("watch should succeed")
            .len(),
        1
    );

    key_manager
        .unwatch_namespace("default".to_string())
        .expect("watch should succeed");

    assert_eq!(
        key_manager
            .subscriptions_for_deployment("default".to_string(), "app-foo".to_string())
            .expect("watch should succeed")
            .len(),
        0
    );

    assert_eq!(
        key_manager
            .subscriptions_for_deployment("secondary".to_string(), "app-bar".to_string())
            .expect("watch should succeed")
            .len(),
        1
    );
}

#[test]
fn rebind_to_other_key_is_conflict() {
    let mut km = MemoryKeyManager::default();
    km.watch(
        "default".to_string(),
        "app-foo".to_string(),
        "config".to_string(),
        "apps/foo".to_string(),
    )
    .expect("watch should succeed");
    let err = km
        .watch(
            "default".to_string(),
            "app-foo".to_string(),
            "config".to_string(),
            "apps/bar".to_string(),
        )
        .expect_err("re-binding must conflict");
    assert_eq!(err.kind(), ErrorKind::Conflict);
    // the registry is unchanged: the old binding still answers
    assert_eq!(
        km.consul_key_subscriber_count("apps/foo".to_string()).unwrap(),
        1
    );
    assert_eq!(
        km.consul_key_subscriber_count("apps/bar".to_string()).unwrap(),
        0
    );
}

#[test]
fn unwatch_deployment_reports_exact_count() {
    let mut km = MemoryKeyManager::default();
    km.watch(
        "default".to_string(),
        "app-foo".to_string(),
        "config".to_string(),
        "k1".to_string(),
    )
    .unwrap();
    km.watch(
        "default".to_string(),
        "app-foo".to_string(),
        "extra".to_string(),
        "k2".to_string(),
    )
    .unwrap();
    km.watch(
        "default".to_string(),
        "app-bar".to_string(),
        "config".to_string(),
        "k1".to_string(),
    )
    .unwrap();
    let removed = km
        .unwatch_deployment("default".to_string(), "app-foo".to_string())
        .unwrap();
    assert_eq!(removed, 2);
    assert!(km
        .subscriptions_for_deployment("default".to_string(), "app-foo".to_string())
        .unwrap()
        .is_empty());
    assert_eq!(
        km.subscriptions_for_deployment("default".to_string(), "app-bar".to_string())
            .unwrap()
            .len(),
        1
    );
}

#[test]
fn subscriber_count_matches_listing() {
    let mut km = MemoryKeyManager::default();
    km.watch(
        "default".to_string(),
        "a".to_string(),
        "config".to_string(),
        "shared".to_string(),
    )
    .unwrap();
    km.watch(
        "default".to_string(),
        "b".to_string(),
        "config".to_string(),
        "shared".to_string(),
    )
    .unwrap();
    km.watch(
        "default".to_string(),
        "c".to_string(),
        "config".to_string(),
        "other".to_string(),
    )
    .unwrap();
    for key in ["shared", "other", "absent"] {
        let count = km.consul_key_subscriber_count(key.to_string()).unwrap();
        let listed = km.subscriptions_for_consul_key(key.to_string()).unwrap();
        assert_eq!(count, listed.len());
    }
    assert_eq!(km.consul_key_subscriber_count("shared".to_string()).unwrap(), 2);
}

#[test]
fn consul_keys_lists_distinct_live_keys() {
    let mut km = MemoryKeyManager::default();
    km.watch(
        "default".to_string(),
        "a".to_string(),
        "config".to_string(),
        "shared".to_string(),
    )
    .unwrap();
    km.watch(
        "default".to_string(),
        "b".to_string(),
        "config".to_string(),
        "shared".to_string(),
    )
    .unwrap();
    km.watch(
        "default".to_string(),
        "c".to_string(),
        "config".to_string(),
        "other".to_string(),
    )
    .unwrap();
    let keys = km.consul_keys().unwrap();
    assert_eq!(keys.len(), 2);
    assert!(keys.contains(&"shared".to_string()));
    assert!(keys.contains(&"other".to_string()));
}

#[test]
fn set_then_get_roundtrip() {
    let mut km = MemoryKeyManager::default();
    assert_eq!(km.get("apps/foo".to_string()).unwrap(), None);
    km.set("apps/foo".to_string(), "md5-aaaa".to_string()).unwrap();
    assert_eq!(
        km.get("apps/foo".to_string()).unwrap(),
        Some("md5-aaaa".to_string())
    );
    km.set("apps/foo".to_string(), "md5-bbbb".to_string()).unwrap();
    assert_eq!(
        km.get("apps/foo".to_string()).unwrap(),
        Some("md5-bbbb".to_string())
    );
}

#[test]
fn deployment_annotations_pairs_slots_with_checksums() {
    let mut km = MemoryKeyManager::default();
    km.watch(
        "default".to_string(),
        "app-foo".to_string(),
        "config".to_string(),
        "apps/foo".to_string(),
    )
    .unwrap();
    km.watch(
        "default".to_string(),
        "app-foo".to_string(),
        "extra".to_string(),
        "apps/extra".to_string(),
    )
    .unwrap();
    km.set("apps/foo".to_string(), "md5-cafe".to_string()).unwrap();
    let anns = km
        .deployment_annotations("default".to_string(), "app-foo".to_string())
        .unwrap();
    assert_eq!(anns, vec![("config".to_string(), "md5-cafe".to_string())]);
    km.set("apps/extra".to_string(), "md5-beef".to_string()).unwrap();
    let anns2 = km
        .deployment_annotations("default".to_string(), "app-foo".to_string())
        .unwrap();
    assert_eq!(
        anns2,
        vec![
            ("config".to_string(), "md5-cafe".to_string()),
            ("extra".to_string(), "md5-beef".to_string())
        ]
    );
}
