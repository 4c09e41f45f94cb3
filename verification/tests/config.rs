use serpula::config::{
    get_hostname, hostname_from_command, hostname_from_variables, AppDirs, CommandOutput, Config,
    ConfigError, HostnameError, HostnameSource, HostnameStep, Layout, Overrides,
};

fn app_dirs() -> AppDirs {
    AppDirs {
        data_local_dir: "/data/local".to_string(),
        data_dir: "/data/roaming".to_string(),
        runtime_dir: None,
        cache_dir: "/cache".to_string(),
    }
}

fn no_overrides() -> Overrides {
    Overrides {
        backup_path: None,
        ntfy_server: None,
        keep_hourly: None,
        keep_daily: None,
        keep_weekly: None,
        keep_monthly: None,
        keep_yearly: None,
        check_percent: None,
    }
}

fn output(success: bool, stdout: &[u8]) -> Option<CommandOutput> {
    Some(CommandOutput {
        success,
        status: "exit status: 1".to_string(),
        stdout: stdout.to_vec(),
    })
}

#[test]
fn hostname_from_env_var_is_non_empty_and_not_sentinel() {
    let h = hostname_from_variables(None, Some("my-real-host")).unwrap();
    assert!(!h.trim().is_empty(), "hostname must not be empty");
    assert_ne!(h, "xyzzy", "hostname must not be the mutation sentinel");
    assert_eq!(h, "my-real-host");
}

#[test]
fn hostname_env_var_whitespace_only_is_not_accepted() {
    // Whitespace-only must not be treated as a host name.
    let h = "   ";
    assert!(
        h.trim().is_empty(),
        "whitespace-only hostname must be considered empty by the guard"
    );
    assert_eq!(hostname_from_variables(Some(h), None), None);
    assert_eq!(hostname_from_variables(None, Some(h)), None);
    // A blank HOSTNAME hides the other variable.
    assert_eq!(hostname_from_variables(Some(h), Some("other")), None);
}

#[test]
fn hostname_env_var_takes_precedence_over_system_hostname() {
    let h = hostname_from_variables(None, Some("override-host")).unwrap();
    assert_eq!(h.trim(), "override-host");
    assert_eq!(
        hostname_from_variables(Some(" upper\n"), Some("lower")),
        Some("upper".to_string())
    );
    assert_eq!(hostname_from_variables(None, None), None);
}

#[test]
fn hostname_command_outcomes() {
    assert_eq!(hostname_from_command(output(true, b"box.local\n")).unwrap(), "box.local");
    assert_eq!(
        hostname_from_command(output(true, "h\u{f6}st\n".as_bytes())).unwrap(),
        "h\u{f6}st"
    );
    let err = hostname_from_command(None).unwrap_err();
    assert!(matches!(err, HostnameError::Spawn));
    assert_eq!(err.message(), "failed to run hostname(1)");
    let err = hostname_from_command(output(false, b"box\n")).unwrap_err();
    assert!(matches!(err, HostnameError::Status(_)));
    assert_eq!(err.message(), "hostname(1) exited with status: exit status: 1");
    let err = hostname_from_command(output(true, &[0xff, 0xfe])).unwrap_err();
    assert!(matches!(err, HostnameError::NotUtf8));
    assert_eq!(err.message(), "hostname(1) output was not valid UTF-8");
    let err = hostname_from_command(output(true, b" \n")).unwrap_err();
    assert!(matches!(err, HostnameError::Empty));
    assert_eq!(err.message(), "hostname(1) returned empty output");
}

#[test]
fn the_command_is_asked_only_where_the_variables_give_nothing() {
    let variables = |upper: Option<&str>, lower: Option<&str>| HostnameSource::Variables {
        upper: upper.map(str::to_string),
        lower: lower.map(str::to_string),
    };
    let named = |step: HostnameStep, expected: &str| match step {
        HostnameStep::Use(name) => assert_eq!(name, expected),
        other => panic!("unexpected step {other:?}"),
    };
    named(get_hostname(variables(Some(" a "), Some("b"))), "a");
    named(get_hostname(variables(None, Some("b"))), "b");
    // A blank `HOSTNAME` hides `hostname`.
    assert!(matches!(get_hostname(variables(Some(" "), Some("b"))), HostnameStep::RunCommand));
    assert!(matches!(get_hostname(variables(None, None)), HostnameStep::RunCommand));
    named(get_hostname(HostnameSource::Command(output(true, b"box\n"))), "box");
    assert!(matches!(
        get_hostname(HostnameSource::Command(None)),
        HostnameStep::Fail(HostnameError::Spawn)
    ));
}

#[test]
fn layout_errors() {
    let err = Layout::new(None, None, Some(app_dirs())).unwrap_err();
    assert_eq!(err, ConfigError::NoHomeDir);
    assert_eq!(err.message(), "cannot determine home directory");
    let err = Layout::new(Some("/home/alice".to_string()), None, None).unwrap_err();
    assert_eq!(err, ConfigError::NoAppDirs);
    assert_eq!(err.message(), "cannot determine application directories");
    let err = Layout::new(None, None, None).unwrap_err();
    assert_eq!(err, ConfigError::NoHomeDir);
}

#[test]
fn layout_places_files() {
    let l = Layout::new(Some("/home/alice".to_string()), None, Some(app_dirs())).unwrap();
    assert_eq!(l.username, "alice");
    assert_eq!(l.runtime_dir, "/data/roaming");
    assert_eq!(l.cache_dir, "/cache");
    assert_eq!(l.log_dir, "/cache/logs");
    assert_eq!(l.secrets_dir, "/data/local/secrets");
    assert_eq!(l.secrets_path, "/data/local/secrets/env");

    let mut dirs = app_dirs();
    dirs.runtime_dir = Some("/run/user/1".to_string());
    let l = Layout::new(Some("/".to_string()), None, Some(dirs)).unwrap();
    assert_eq!(l.username, "user");
    assert_eq!(l.runtime_dir, "/run/user/1");

    let l = Layout::new(Some("/".to_string()), Some("bob".to_string()), Some(app_dirs())).unwrap();
    assert_eq!(l.username, "bob");
}

#[test]
fn layout_makes_directories() {
    let l = Layout::new(Some("/home/alice".to_string()), None, Some(app_dirs())).unwrap();
    let made: Vec<(String, Option<u32>)> =
        l.directories().into_iter().map(|d| (d.path, d.mode)).collect();
    assert_eq!(
        made,
        vec![
            ("/data/roaming".to_string(), None),
            ("/cache/logs".to_string(), None),
            ("/cache".to_string(), None),
            ("/data/local/secrets".to_string(), Some(0o700)),
        ]
    );
}

#[test]
fn load_fills_in_defaults() {
    let l = Layout::new(Some("/home/alice".to_string()), None, Some(app_dirs())).unwrap();
    let c = Config::load(l, "myhost".to_string(), no_overrides());
    assert_eq!(c.home_dir, "/home/alice");
    assert_eq!(c.username, "alice");
    assert_eq!(c.secrets_path, "/data/local/secrets/env");
    assert_eq!(c.runtime_dir, "/data/roaming");
    assert_eq!(c.log_dir, "/cache/logs");
    assert_eq!(c.cache_dir, "/cache");
    assert_eq!(c.backup_source, "/home/alice");
    assert_eq!(c.hostname, "myhost");
    assert_eq!(c.ntfy_server, "https://ntfy.sh");
    assert_eq!(c.ntfy_prefix, "restic-backup");
    assert_eq!(c.keep_hourly, "24");
    assert_eq!(c.keep_daily, "14");
    assert_eq!(c.keep_weekly, "4");
    assert_eq!(c.keep_monthly, "12");
    assert_eq!(c.keep_yearly, "10");
    assert_eq!(c.check_percent, "10");
}

#[test]
fn load_honours_overrides() {
    let l = Layout::new(Some("/home/alice".to_string()), None, Some(app_dirs())).unwrap();
    let overrides = Overrides {
        backup_path: Some("/data/important".to_string()),
        ntfy_server: Some("https://example.org".to_string()),
        keep_hourly: Some("1".to_string()),
        keep_daily: Some("2".to_string()),
        keep_weekly: Some("3".to_string()),
        keep_monthly: Some("4".to_string()),
        keep_yearly: Some("5".to_string()),
        check_percent: Some("6%".to_string()),
    };
    let c = Config::load(l, "myhost".to_string(), overrides);
    assert_eq!(c.backup_source, "/data/important");
    assert_eq!(c.ntfy_server, "https://example.org");
    assert_eq!(c.keep_hourly, "1");
    assert_eq!(c.keep_daily, "2");
    assert_eq!(c.keep_weekly, "3");
    assert_eq!(c.keep_monthly, "4");
    assert_eq!(c.keep_yearly, "5");
    assert_eq!(c.check_percent, "6%");
}
