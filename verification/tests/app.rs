use serpula::app::{
    backup_args, check_args, cmd_proxy, forget_args, guarded_run, lock_error_message, lock_file,
    normalized_subset_percent, proxy_args, RunStage, RunStep, stage_after,
};
use serpula::config::Config;
use serpula::env_map::EnvMap;

fn dummy_config() -> Config {
    Config {
        home_dir: "/home/alice".to_string(),
        username: "alice".to_string(),
        secrets_path: "/home/alice/.secrets/env".to_string(),
        runtime_dir: "/home/alice/.run".to_string(),
        log_dir: "/home/alice/.logs".to_string(),
        cache_dir: "/home/alice/.cache".to_string(),
        backup_source: "/home/alice".to_string(),
        hostname: "myhost".to_string(),
        ntfy_server: "https://ntfy.sh".to_string(),
        ntfy_prefix: "prefix".into(),
        keep_hourly: "24".to_string(),
        keep_daily: "14".to_string(),
        keep_weekly: "4".to_string(),
        keep_monthly: "12".to_string(),
        keep_yearly: "10".to_string(),
        check_percent: "10".to_string(),
    }
}

fn strings(words: &[&str]) -> Vec<String> {
    words.iter().map(|w| w.to_string()).collect()
}

#[test]
fn normalizes_percent() {
    assert_eq!(normalized_subset_percent("10"), "10%");
    assert_eq!(normalized_subset_percent("10%"), "10%");
    assert_eq!(normalized_subset_percent(" 25% "), "25%");
}

#[test]
fn normalized_percent_empty_string() {
    // Edge: empty input gives just "%".
    assert_eq!(normalized_subset_percent(""), "%");
}

#[test]
fn normalized_percent_is_stable() {
    for raw in ["", "%", "%%", " 10 % ", "\t7%%%\n", "1%2"] {
        let once = normalized_subset_percent(raw);
        assert_eq!(normalized_subset_percent(&once), once);
        assert!(once.ends_with('%'));
        assert!(!once.ends_with("%%"));
    }
    assert_eq!(normalized_subset_percent(" 10 % "), "10 %");
    assert_eq!(normalized_subset_percent("50 %%%"), "50 %");
}

#[test]
fn backup_args_structure() {
    let cfg = dummy_config();
    let args = backup_args(&cfg);
    assert_eq!(args[0], "backup");
    assert_eq!(args[1], "/home/alice");
    assert!(args.contains(&"--tag".to_string()));
    assert!(args.contains(&"myhost".to_string()));
    assert!(args.contains(&"--exclude-caches".to_string()));
    assert!(args.contains(&"--exclude".to_string()));
    // The excluded path must be under home/Library/Caches.
    let excl_idx = args.iter().position(|a| a == "--exclude").unwrap();
    assert!(args[excl_idx + 1].contains("Caches"));
}

#[test]
fn backup_args_exact() {
    assert_eq!(
        backup_args(&dummy_config()),
        strings(&[
            "backup",
            "/home/alice",
            "--tag",
            "myhost",
            "--exclude-caches",
            "--exclude",
            "/home/alice/Library/Caches",
        ])
    );
}

#[test]
fn backup_args_uses_backup_source_not_home_when_different() {
    let mut cfg = dummy_config();
    cfg.backup_source = "/data/important".to_string();
    let args = backup_args(&cfg);
    assert_eq!(args[1], "/data/important");
}

#[test]
fn check_args_structure() {
    let cfg = dummy_config();
    let args = check_args(&cfg);
    assert_eq!(args[0], "check");
    assert_eq!(args[1], "--read-data-subset");
    assert_eq!(args[2], "10%");
}

#[test]
fn check_args_normalizes_percent() {
    let mut cfg = dummy_config();
    cfg.check_percent = "20%".to_string();
    let args = check_args(&cfg);
    assert_eq!(args[2], "20%");
}

#[test]
fn forget_args_structure() {
    let cfg = dummy_config();
    let args = forget_args(&cfg);
    assert_eq!(args[0], "forget");
    assert!(args.contains(&"--tag".to_string()));
    assert!(args.contains(&"myhost".to_string()));
    assert!(args.contains(&"--keep-hourly".to_string()));
    assert!(args.contains(&"24".to_string()));
    assert!(args.contains(&"--keep-daily".to_string()));
    assert!(args.contains(&"14".to_string()));
    assert!(args.contains(&"--keep-weekly".to_string()));
    assert!(args.contains(&"4".to_string()));
    assert!(args.contains(&"--keep-monthly".to_string()));
    assert!(args.contains(&"12".to_string()));
    assert!(args.contains(&"--keep-yearly".to_string()));
    assert!(args.contains(&"10".to_string()));
}

#[test]
fn forget_args_exact() {
    assert_eq!(
        forget_args(&dummy_config()),
        strings(&[
            "forget",
            "--prune",
            "--tag",
            "myhost",
            "--keep-hourly",
            "24",
            "--keep-daily",
            "14",
            "--keep-weekly",
            "4",
            "--keep-monthly",
            "12",
            "--keep-yearly",
            "10",
        ])
    );
}

#[test]
fn forget_args_uses_config_retention_values() {
    let mut cfg = dummy_config();
    cfg.keep_daily = "30".to_string();
    cfg.keep_yearly = "5".to_string();
    let args = forget_args(&cfg);
    assert!(args.contains(&"30".to_string()));
    assert!(args.contains(&"5".to_string()));
}

#[test]
fn proxy_puts_defaults_before_user_arguments() {
    let cfg = dummy_config();
    let out = proxy_args(&cfg, &strings(&["check", "--verbose", "check"]));
    assert_eq!(
        out,
        strings(&["check", "--read-data-subset", "10%", "--verbose", "check"])
    );
    assert_eq!(proxy_args(&cfg, &strings(&["backup"])), backup_args(&cfg));
    assert_eq!(proxy_args(&cfg, &strings(&["forget"])), forget_args(&cfg));
}

#[test]
fn proxy_passes_other_commands_through() {
    let cfg = dummy_config();
    let args = strings(&["snapshots", "--tag", "myhost"]);
    assert_eq!(proxy_args(&cfg, &args), args);
    assert_eq!(proxy_args(&cfg, &[]), strings(&[]));
    assert_eq!(proxy_args(&cfg, &strings(&["Backup"])), strings(&["Backup"]));
}

#[test]
fn cmd_proxy_combines_arguments_and_environment() {
    let cfg = dummy_config();
    let mut secrets = EnvMap::new();
    let err = cmd_proxy(&cfg, &strings(&["snapshots"]), &secrets, None).unwrap_err();
    assert_eq!(err.name, "RESTIC_REPOSITORY");
    secrets.insert("RESTIC_REPOSITORY".to_string(), "s3:bucket".to_string());
    secrets.insert("RESTIC_PASSWORD".to_string(), "secret".to_string());
    let call = cmd_proxy(&cfg, &strings(&["snapshots"]), &secrets, Some("/bin".to_string())).unwrap();
    assert_eq!(call.args, strings(&["snapshots"]));
    assert_eq!(call.env.len(), 4);
    assert_eq!(call.env.get("PATH"), Some(&"/bin".to_string()));
}

#[test]
fn lock_texts() {
    let cfg = dummy_config();
    let lock = lock_file(&cfg);
    assert_eq!(lock.path, "/home/alice/.run/resticbackup.lock");
    assert_eq!(lock.mode, 0o600);
    assert_eq!(
        lock_error_message("/tmp/x", "would block"),
        "lock error on /tmp/x: would block"
    );
}

#[test]
fn guarded_run_steps() {
    assert!(matches!(guarded_run(RunStage::Load, Ok(())), RunStep::AcquireLock));
    assert!(matches!(guarded_run(RunStage::Lock, Ok(())), RunStep::RunCommand));
    assert!(matches!(guarded_run(RunStage::Command, Ok(())), RunStep::Succeed));
}

#[test]
fn guarded_run_notifies_failures() {
    match guarded_run(RunStage::Load, Err("no home".to_string())) {
        RunStep::Fail { notify } => assert_eq!(notify, None),
        other => panic!("unexpected step {other:?}"),
    }
    match guarded_run(RunStage::Lock, Err("busy".to_string())) {
        RunStep::Fail { notify } => {
            assert_eq!(notify, Some("failed to acquire lock: busy".to_string()))
        }
        other => panic!("unexpected step {other:?}"),
    }
    match guarded_run(RunStage::Command, Err("boom".to_string())) {
        RunStep::Fail { notify } => assert_eq!(notify, Some("boom".to_string())),
        other => panic!("unexpected step {other:?}"),
    }
}

/// Runs with the given outcomes, stage by stage, and gives the stages that ended and the last step.
fn run_with(outcomes: [Result<(), String>; 3]) -> (Vec<RunStage>, RunStep) {
    let mut stages = vec![];
    let mut stage = RunStage::Load;
    let mut outcomes = outcomes.into_iter();
    loop {
        stages.push(stage);
        let step = guarded_run(stage, outcomes.next().unwrap());
        match stage_after(&step) {
            Some(next) => stage = next,
            None => return (stages, step),
        }
    }
}

#[test]
fn runs_pass_their_stages_in_order() {
    let (load, lock, command) = (RunStage::Load, RunStage::Lock, RunStage::Command);
    let fault = || Err("fault".to_string());
    let (stages, step) = run_with([Ok(()), Ok(()), Ok(())]);
    assert_eq!(stages, vec![load, lock, command]);
    assert!(matches!(step, RunStep::Succeed));
    let (stages, step) = run_with([Ok(()), Ok(()), fault()]);
    assert_eq!(stages, vec![load, lock, command]);
    assert!(matches!(step, RunStep::Fail { notify: Some(_) }));
    let (stages, step) = run_with([Ok(()), fault(), Ok(())]);
    assert_eq!(stages, vec![load, lock]);
    assert!(matches!(step, RunStep::Fail { notify: Some(_) }));
    let (stages, step) = run_with([fault(), Ok(()), Ok(())]);
    assert_eq!(stages, vec![load]);
    assert!(matches!(step, RunStep::Fail { notify: None }));
}
