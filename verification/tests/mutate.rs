use k8s_consul_mutator_rs::api::plan_mutation;
use k8s_consul_mutator_rs::error::ErrorKind;
use k8s_consul_mutator_rs::key_manager::{KeyManager, MemoryKeyManager};
use k8s_consul_mutator_rs::state::ConsulWatch;

fn anns(pairs: &[(&str, &str)]) -> Vec<(String, String)> {
    pairs
        .iter()
        .map(|(k, v)| (k.to_string(), v.to_string()))
        .collect()
}

#[test]
fn known_checksum_is_patched_in() {
    // the registry already holds a checksum for the bound key: the
    // response patches it into both annotation maps
    let mut km = MemoryKeyManager::default();
    km.set(
        "apps/foo/settings".to_string(),
        "md5-d41d8cd98f00b204e9800998ecf8427e".to_string(),
    )
    .unwrap();
    let annotations = anns(&[("k8s-consul-mutator.io/key-config", "apps/foo/settings")]);
    let plan = plan_mutation(
        &mut km,
        &"default".to_string(),
        &"app-foo".to_string(),
        &annotations,
        7_000,
    )
    .expect("mutation must succeed");
    assert_eq!(plan.patches.len(), 2);
    assert_eq!(
        plan.patches[0].path,
        "/metadata/annotations/k8s-consul-mutator.io~1checksum-config"
    );
    assert_eq!(
        plan.patches[0].value,
        "md5-d41d8cd98f00b204e9800998ecf8427e"
    );
    assert_eq!(
        plan.patches[1].path,
        "/spec/template/metadata/annotations/k8s-consul-mutator.io~1checksum-config"
    );
    assert_eq!(
        plan.patches[1].value,
        "md5-d41d8cd98f00b204e9800998ecf8427e"
    );
    assert_eq!(
        plan.commands,
        vec![ConsulWatch::Create("apps/foo/settings".to_string(), 7_000)]
    );
}

#[test]
fn first_subscribe_creates_watcher_but_no_patch() {
    // an empty registry: the subscription is recorded and a create
    // command queued, but there is no checksum to patch yet
    let mut km = MemoryKeyManager::default();
    let annotations = anns(&[("k8s-consul-mutator.io/key-config", "apps/foo/settings")]);
    let plan = plan_mutation(
        &mut km,
        &"default".to_string(),
        &"app-foo".to_string(),
        &annotations,
        7_000,
    )
    .expect("mutation must succeed");
    assert!(plan.patches.is_empty());
    assert_eq!(
        plan.commands,
        vec![ConsulWatch::Create("apps/foo/settings".to_string(), 7_000)]
    );
    assert_eq!(
        km.consul_key_subscriber_count("apps/foo/settings".to_string())
            .unwrap(),
        1
    );
}

#[test]
fn skip_annotation_passes_unchanged() {
    let mut km = MemoryKeyManager::default();
    let annotations = anns(&[
        ("k8s-consul-mutator.io/skip", "true"),
        ("k8s-consul-mutator.io/key-config", "apps/foo/settings"),
    ]);
    let plan = plan_mutation(
        &mut km,
        &"default".to_string(),
        &"app-foo".to_string(),
        &annotations,
        7_000,
    )
    .expect("mutation must succeed");
    assert!(plan.patches.is_empty());
    assert!(plan.commands.is_empty());
    assert_eq!(
        km.consul_key_subscriber_count("apps/foo/settings".to_string())
            .unwrap(),
        0
    );
}

#[test]
fn unrelated_annotations_produce_empty_plan() {
    let mut km = MemoryKeyManager::default();
    let annotations = anns(&[("app.kubernetes.io/name", "app-foo")]);
    let plan = plan_mutation(
        &mut km,
        &"default".to_string(),
        &"app-foo".to_string(),
        &annotations,
        7_000,
    )
    .expect("mutation must succeed");
    assert!(plan.patches.is_empty());
    assert!(plan.commands.is_empty());
}

#[test]
fn conflicting_binding_is_denied() {
    let mut km = MemoryKeyManager::default();
    km.watch(
        "default".to_string(),
        "app-foo".to_string(),
        "config".to_string(),
        "apps/other".to_string(),
    )
    .unwrap();
    let annotations = anns(&[("k8s-consul-mutator.io/key-config", "apps/foo/settings")]);
    let err = plan_mutation(
        &mut km,
        &"default".to_string(),
        &"app-foo".to_string(),
        &annotations,
        7_000,
    )
    .expect_err("a re-binding must be denied");
    assert_eq!(err.kind(), ErrorKind::Conflict);
}

#[test]
fn two_slots_patch_in_order() {
    let mut km = MemoryKeyManager::default();
    km.set("apps/a".to_string(), "md5-aaaa".to_string()).unwrap();
    km.set("apps/b".to_string(), "md5-bbbb".to_string()).unwrap();
    let annotations = anns(&[
        ("k8s-consul-mutator.io/key-alpha", "apps/a"),
        ("k8s-consul-mutator.io/key-beta", "apps/b"),
    ]);
    let plan = plan_mutation(
        &mut km,
        &"default".to_string(),
        &"app-foo".to_string(),
        &annotations,
        7_000,
    )
    .expect("mutation must succeed");
    assert_eq!(plan.patches.len(), 4);
    assert_eq!(
        plan.patches[0].path,
        "/metadata/annotations/k8s-consul-mutator.io~1checksum-alpha"
    );
    assert_eq!(plan.patches[0].value, "md5-aaaa");
    assert_eq!(
        plan.patches[2].path,
        "/metadata/annotations/k8s-consul-mutator.io~1checksum-beta"
    );
    assert_eq!(plan.patches[2].value, "md5-bbbb");
    assert_eq!(plan.commands.len(), 2);
}
