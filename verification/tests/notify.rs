use serpula::config::Config;
use serpula::notify::{
    failure_notification, judge_delivery, notify_failure, Delivery, Priority,
};

fn make_config() -> Config {
    Config {
        home_dir: "/root".to_string(),
        username: "testuser".to_string(),
        secrets_path: "/root/secrets/env".to_string(),
        runtime_dir: "/root/run".to_string(),
        log_dir: "/root/logs".to_string(),
        cache_dir: "/root/cache".to_string(),
        backup_source: "/root/backup".to_string(),
        hostname: "testhost".to_string(),
        ntfy_server: "https://ntfy.example.invalid".to_string(),
        ntfy_prefix: "prefix".into(),
        keep_hourly: "24".to_string(),
        keep_daily: "14".to_string(),
        keep_weekly: "4".to_string(),
        keep_monthly: "12".to_string(),
        keep_yearly: "10".to_string(),
        check_percent: "10".to_string(),
    }
}

#[test]
fn notify_failure_does_not_panic_with_invalid_topic_server() {
    let config = make_config();
    let n = notify_failure(&config, Some("some-topic"), "xyz", "any message").unwrap();
    assert_eq!(n.url, "https://ntfy.example.invalid/some-topic");
    assert_eq!(n.title, "restic-backup: xyz failed on testhost");
    assert_eq!(n.priority, Priority::Default);
    assert_eq!(n.message, "any message");
}

#[test]
fn no_topic_means_no_notification() {
    assert!(notify_failure(&make_config(), None, "xyz", "any message").is_none());
}

#[test]
fn trailing_slashes_of_the_server_are_dropped() {
    let mut config = make_config();
    config.ntfy_server = "https://ntfy.sh//".to_string();
    let n = notify_failure(&config, Some("t"), "backup", "m").unwrap();
    assert_eq!(n.url, "https://ntfy.sh/t");
}

#[test]
fn notifications_carry_their_priority() {
    let n = failure_notification(&make_config(), Priority::Max, "t", "check", "m");
    assert_eq!(n.url, "https://ntfy.example.invalid/t");
    assert_eq!(n.title, "restic-backup: check failed on testhost");
    assert_eq!(n.priority, Priority::Max);
    assert_eq!(n.message, "m");
}

#[test]
fn priorities_have_levels_and_words() {
    let all = [
        (Priority::Max, 5, "max"),
        (Priority::High, 4, "high"),
        (Priority::Default, 3, "default"),
        (Priority::Low, 2, "low"),
        (Priority::Min, 1, "min"),
    ];
    for (priority, level, word) in all {
        assert_eq!(usize::from(priority), level);
        assert_eq!(priority.to_string(), word);
    }
    assert_eq!(Priority::default(), Priority::Default);
}

#[test]
fn deliveries_are_judged_by_status() {
    for status in [200, 204, 299] {
        assert!(matches!(judge_delivery(Ok(status)), Delivery::Sent));
    }
    for status in [0, 99, 100, 199, 300, 404, 500, 999, 1000, 65535] {
        match judge_delivery(Ok(status)) {
            Delivery::Refused(s) => assert_eq!(s, status),
            other => panic!("unexpected judgement {other:?}"),
        }
    }
    match judge_delivery(Err("timeout".to_string())) {
        Delivery::Failed(reason) => assert_eq!(reason, "timeout"),
        other => panic!("unexpected judgement {other:?}"),
    }
}
