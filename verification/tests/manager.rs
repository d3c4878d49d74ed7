//! Notification lifecycle: the post-or-update decision, recorded entries,
//! and the throttled eviction sweep.

use gocd_notify::build_info_manager::{
    BuildInfoIndex, BuildInfoManager, BuildInfoMonitor, MessageAction, NotificationSkip,
};
use gocd_notify::gocd::{HistoryRecord, LookupError};
use gocd_notify::slack::PassFail;

fn monitors() -> Vec<BuildInfoMonitor> {
    vec![BuildInfoMonitor {
        name: "Foo".to_string(),
        filter_prefix: "Foo_".to_string(),
        post_channel: "CCDJ9UWAZ".to_string(),
    }]
}

fn key(name: &str, rev: u64) -> BuildInfoIndex {
    BuildInfoIndex {
        monitor_name: name.to_string(),
        git_index: rev,
    }
}

#[test]
fn test_clear_old_message_entries() {
    let now: i64 = 200_000;
    // the previous sweep ran two days before `now`
    let mut manager = BuildInfoManager::new("test_token", "test_gocd", monitors(), now - 2 * 86400);
    manager.record_post_success(key("test", 1), false, "test".to_string(), now - 3600);
    manager.record_post_success(key("test", 2), false, "test".to_string(), now - 86400);
    assert_eq!(manager.entry_count(), 2);
    manager.clear_old_message_entries(now);
    assert_eq!(manager.entry_count(), 1);
}

#[test]
fn sweep_keeps_fresh_and_removes_stale() {
    let now: i64 = 500_000;
    let mut manager = BuildInfoManager::new("t", "g", monitors(), now - 86400);
    // five hours ago: removed; one hour ago: kept
    manager.record_post_success(key("a", 1), false, "h1".to_string(), now - 5 * 3600);
    manager.record_post_success(key("a", 2), true, "h2".to_string(), now - 3600);
    manager.clear_old_message_entries(now);
    assert!(!manager.contains_entry(&key("a", 1)));
    assert!(manager.contains_entry(&key("a", 2)));
}

#[test]
fn sweep_is_throttled() {
    let now: i64 = 500_000;
    // the sweep clock starts at `now`: no sweep is due for a day
    let mut manager = BuildInfoManager::new("t", "g", monitors(), now);
    manager.record_post_success(key("a", 1), false, "h1".to_string(), 0);
    manager.clear_old_message_entries(now);
    manager.clear_old_message_entries(now + 3600);
    manager.clear_old_message_entries(now + 86399);
    assert_eq!(manager.entry_count(), 1);
    // one full interval later the stale entry goes
    manager.clear_old_message_entries(now + 86400);
    assert_eq!(manager.entry_count(), 0);
}

#[test]
fn one_post_then_updates() {
    let now: i64 = 1_000;
    let mut manager = BuildInfoManager::new("t", "g", monitors(), now);
    let k = key("Foo", 777);

    // first event: the key is absent, so the decision is a post
    match manager.decide_message_action(&k, "text one", "CCDJ9UWAZ") {
        MessageAction::Post { channel, text } => {
            assert_eq!(channel, "CCDJ9UWAZ");
            assert_eq!(text, "text one");
        }
        MessageAction::Update { .. } => panic!("a first event must be posted"),
    }
    manager.record_post_success(k.clone(), false, "159.7".to_string(), now);

    // second event for the same key: an update at the recorded handle
    match manager.decide_message_action(&k, "text two", "CCDJ9UWAZ") {
        MessageAction::Update { ts, channel, text } => {
            assert_eq!(ts, "159.7");
            assert_eq!(channel, "CCDJ9UWAZ");
            assert_eq!(text, "text two");
        }
        MessageAction::Post { .. } => panic!("a second event must never be posted"),
    }
    manager.record_update_success(&k, true, now + 10);

    // replaying the same payload: still an update at the same handle
    match manager.decide_message_action(&k, "text two", "CCDJ9UWAZ") {
        MessageAction::Update { ts, .. } => assert_eq!(ts, "159.7"),
        MessageAction::Post { .. } => panic!("a replay must never be posted"),
    }
    let entry = manager.get_entry(&k).expect("the entry must remain");
    assert_eq!(entry.slack_timestamp, "159.7");
    assert!(entry.failed);
    assert_eq!(entry.last_update_time, now + 10);
}

#[test]
fn update_of_missing_key_changes_nothing() {
    let now: i64 = 1_000;
    let mut manager = BuildInfoManager::new("t", "g", monitors(), now);
    manager.record_update_success(&key("Foo", 1), true, now);
    assert_eq!(manager.entry_count(), 0);
}

#[test]
fn post_failure_leaves_no_entry_so_a_retry_posts_again() {
    let now: i64 = 1_000;
    let mut manager = BuildInfoManager::new("t", "g", monitors(), now);
    let k = key("Foo", 5);
    // a failed post records nothing; the next decision is a post again
    assert!(matches!(
        manager.decide_message_action(&k, "text", "c"),
        MessageAction::Post { .. }
    ));
    assert!(matches!(
        manager.decide_message_action(&k, "text", "c"),
        MessageAction::Post { .. }
    ));
}

#[test]
fn prepare_notification_resolves_monitor_key_and_text() {
    let manager = BuildInfoManager::new("t", "g", monitors(), 0);
    let records = vec![
        HistoryRecord { counter: 19, id: Some(700) },
        HistoryRecord { counter: 20, id: Some(777) },
    ];
    let p = manager
        .prepare_notification("Foo_Bar", 20, "Deploy", PassFail::Passed, &records)
        .expect("the event should prepare");
    assert_eq!(p.index.monitor_name, "Foo");
    assert_eq!(p.index.git_index, 777);
    assert_eq!(p.channel, "CCDJ9UWAZ");
    assert_eq!(
        p.message_text,
        "GoCD Build for Foo has reached step Deploy on Foo_Bar and passed"
    );
}

#[test]
fn prepare_notification_skips_unmatched_stage() {
    let manager = BuildInfoManager::new("t", "g", monitors(), 0);
    let records = vec![HistoryRecord { counter: 20, id: Some(777) }];
    let r = manager.prepare_notification("Bar_Baz", 20, "Deploy", PassFail::Passed, &records);
    assert!(matches!(r, Err(NotificationSkip::NoMonitor)));
}

#[test]
fn prepare_notification_reports_missing_build() {
    let manager = BuildInfoManager::new("t", "g", monitors(), 0);
    let records = vec![HistoryRecord { counter: 19, id: Some(700) }];
    let r = manager.prepare_notification("Foo_Bar", 20, "Deploy", PassFail::Passed, &records);
    assert!(matches!(
        r,
        Err(NotificationSkip::Lookup(LookupError::BuildNotFound))
    ));
}
