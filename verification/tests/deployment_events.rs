use k8s_consul_mutator_rs::k8s::{
    record_subscriptions, subscriptions_from_deployment, FullSubscription,
};
use k8s_consul_mutator_rs::key_manager::{KeyManager, MemoryKeyManager};

fn anns(pairs: &[(&str, &str)]) -> Vec<(String, String)> {
    pairs
        .iter()
        .map(|(k, v)| (k.to_string(), v.to_string()))
        .collect()
}

#[test]
fn annotations_become_subscriptions() {
    let annotations = anns(&[
        ("k8s-consul-mutator.io/key-config", "apps/foo/settings"),
        ("app.kubernetes.io/name", "app-foo"),
        ("k8s-consul-mutator.io/key-extra", "apps/foo/extra"),
    ]);
    let subs = subscriptions_from_deployment(
        &"default".to_string(),
        &"app-foo".to_string(),
        &annotations,
    );
    assert_eq!(
        subs,
        vec![
            FullSubscription {
                namespace: "default".to_string(),
                deployment: "app-foo".to_string(),
                config_key: "config".to_string(),
                consul_key: "apps/foo/settings".to_string(),
            },
            FullSubscription {
                namespace: "default".to_string(),
                deployment: "app-foo".to_string(),
                config_key: "extra".to_string(),
                consul_key: "apps/foo/extra".to_string(),
            }
        ]
    );
}

#[test]
fn skip_annotation_suppresses_subscriptions() {
    let annotations = anns(&[
        ("k8s-consul-mutator.io/key-config", "apps/foo/settings"),
        ("k8s-consul-mutator.io/skip", "true"),
    ]);
    let subs = subscriptions_from_deployment(
        &"default".to_string(),
        &"app-foo".to_string(),
        &annotations,
    );
    assert!(subs.is_empty());
}

#[test]
fn applied_deployment_is_recorded() {
    let mut km = MemoryKeyManager::default();
    let annotations = anns(&[("k8s-consul-mutator.io/key-config", "apps/foo/settings")]);
    let subs = subscriptions_from_deployment(
        &"default".to_string(),
        &"app-foo".to_string(),
        &annotations,
    );
    let conflicts = record_subscriptions(&mut km, &subs, 0);
    assert_eq!(conflicts, 0);
    assert_eq!(
        km.consul_key_subscriber_count("apps/foo/settings".to_string())
            .unwrap(),
        1
    );
    // recording the same list again changes nothing and conflicts nowhere
    let again = record_subscriptions(&mut km, &subs, 0);
    assert_eq!(again, 0);
    assert_eq!(
        km.consul_key_subscriber_count("apps/foo/settings".to_string())
            .unwrap(),
        1
    );
}

#[test]
fn conflicting_subscription_is_counted_and_skipped() {
    let mut km = MemoryKeyManager::default();
    km.watch(
        "default".to_string(),
        "app-foo".to_string(),
        "config".to_string(),
        "apps/original".to_string(),
    )
    .unwrap();
    let subs = vec![
        FullSubscription {
            namespace: "default".to_string(),
            deployment: "app-foo".to_string(),
            config_key: "config".to_string(),
            consul_key: "apps/rebound".to_string(),
        },
        FullSubscription {
            namespace: "default".to_string(),
            deployment: "app-foo".to_string(),
            config_key: "other".to_string(),
            consul_key: "apps/other".to_string(),
        },
    ];
    let conflicts = record_subscriptions(&mut km, &subs, 0);
    assert_eq!(conflicts, 1);
    // the conflicting binding was skipped, the clean one recorded
    assert_eq!(
        km.consul_key_subscriber_count("apps/rebound".to_string())
            .unwrap(),
        0
    );
    assert_eq!(
        km.consul_key_subscriber_count("apps/other".to_string())
            .unwrap(),
        1
    );
}
