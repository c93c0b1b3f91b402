use k8s_consul_mutator_rs::checksum::Md5Checksummer;
use k8s_consul_mutator_rs::consul::{
    publish_change, IdleStep, KeyWatcher, KvReadOutcome, ReadStep,
};
use k8s_consul_mutator_rs::key_manager::{KeyManager, MemoryKeyManager};
use k8s_consul_mutator_rs::state::ConsulWatch;

#[test]
fn idle_watcher_emits_destroy_after_grace() {
    let mut w = KeyWatcher::new("apps/foo".to_string());
    // subscribers present: nothing happens
    assert!(matches!(w.idle_step(2, 1_000, 60), IdleStep::Proceed));
    assert_eq!(w.stop_countdown, None);
    // count drops to zero: the countdown starts
    assert!(matches!(w.idle_step(0, 1_000, 60), IdleStep::Proceed));
    assert_eq!(w.stop_countdown, Some(1_060));
    // still zero, but inside the grace window
    assert!(matches!(w.idle_step(0, 1_050, 60), IdleStep::Proceed));
    // past the window: emit the destroy command and exit
    assert!(matches!(w.idle_step(0, 1_061, 60), IdleStep::EmitDestroy));
    let cmd = w.destroy_command(1_061);
    assert_eq!(cmd, ConsulWatch::Destroy("apps/foo".to_string(), 1_061));
}

#[test]
fn returning_subscriber_clears_countdown() {
    let mut w = KeyWatcher::new("apps/foo".to_string());
    assert!(matches!(w.idle_step(0, 1_000, 60), IdleStep::Proceed));
    assert_eq!(w.stop_countdown, Some(1_060));
    // a subscriber came back: the countdown is dropped
    assert!(matches!(w.idle_step(1, 1_059, 60), IdleStep::Proceed));
    assert_eq!(w.stop_countdown, None);
    // even long after the old deadline, zero subscribers start afresh
    assert!(matches!(w.idle_step(0, 9_000, 60), IdleStep::Proceed));
    assert_eq!(w.stop_countdown, Some(9_060));
}

#[test]
fn modify_index_sequence_publishes_twice() {
    // a KV answering with modify-indexes [0, 5, 5, 7] causes exactly
    // two publishes: the repeats are waits that timed out
    let mut w = KeyWatcher::new("apps/foo".to_string());
    let reads = [0u64, 5, 5, 7];
    let mut published = 0;
    for idx in reads {
        let step = w.read_step(KvReadOutcome::Found(idx, Some(vec![idx as u8])));
        if matches!(step, ReadStep::Changed(_)) {
            published += 1;
        }
    }
    assert_eq!(published, 2);
    assert_eq!(w.key_index, 7);
}

#[test]
fn read_errors_keep_the_index() {
    let mut w = KeyWatcher::new("apps/foo".to_string());
    assert!(matches!(
        w.read_step(KvReadOutcome::Found(5, Some(vec![1]))),
        ReadStep::Changed(_)
    ));
    assert!(matches!(w.read_step(KvReadOutcome::Failed), ReadStep::Backoff));
    assert!(matches!(w.read_step(KvReadOutcome::Missing), ReadStep::Backoff));
    assert_eq!(w.key_index, 5);
    // an advanced index with an absent value still advances, but backs off
    assert!(matches!(
        w.read_step(KvReadOutcome::Found(9, None)),
        ReadStep::Backoff
    ));
    assert_eq!(w.key_index, 9);
}

#[test]
fn publish_fans_out_to_every_subscriber() {
    // two deployments subscribe to one key; a change notifies both,
    // and the checksum is readable before the intents go out
    let mut km = MemoryKeyManager::default();
    km.watch(
        "default".to_string(),
        "app-a".to_string(),
        "config".to_string(),
        "apps/shared".to_string(),
    )
    .unwrap();
    km.watch(
        "default".to_string(),
        "app-b".to_string(),
        "config".to_string(),
        "apps/shared".to_string(),
    )
    .unwrap();
    let checksummer = Md5Checksummer {};
    let (checksum, updates) = publish_change(
        &mut km,
        &checksummer,
        &"apps/shared".to_string(),
        b"hello".to_vec(),
        5_000,
    );
    assert_eq!(checksum, "md5-5d41402abc4b2a76b9719d911017c592");
    assert_eq!(
        km.get("apps/shared".to_string()).unwrap(),
        Some(checksum.clone())
    );
    assert_eq!(updates.len(), 2);
    assert_eq!(updates[0].namespace, "default");
    assert_eq!(updates[0].deployment, "app-a");
    assert_eq!(updates[0].occurred, 5_000);
    assert_eq!(updates[1].deployment, "app-b");
}
