use serpula::config::Config;
use serpula::env_map::EnvMap;
use serpula::secrets::{
    build_restic_env, ensure_secrets_scaffold, generate_topic, get_ntfy_topic, load_secrets,
    parse_secrets_content, save_secrets, serialize_secrets, TopicSource, TopicStep,
};

fn make_config() -> Config {
    Config {
        home_dir: "/root".to_string(),
        username: "testuser".to_string(),
        secrets_path: "/root/secrets/env".to_string(),
        runtime_dir: "/root/run".to_string(),
        log_dir: "/root/logs".to_string(),
        cache_dir: "/root/cache".to_string(),
        backup_source: "/root/backup".to_string(),
        hostname: "testhost".to_string(),
        ntfy_server: "https://ntfy.sh".to_string(),
        ntfy_prefix: "prefix".into(),
        keep_hourly: "24".to_string(),
        keep_daily: "14".to_string(),
        keep_weekly: "4".to_string(),
        keep_monthly: "12".to_string(),
        keep_yearly: "10".to_string(),
        check_percent: "10".to_string(),
    }
}

/// Follows the steps to the topic, with the given file and random bytes. Gives the topic and the
/// contents of the file afterwards.
fn resolve_topic(config: &Config, variable: Option<&str>, file: &str) -> (String, String) {
    let mut contents = file.to_string();
    let mut source = TopicSource::Variable(variable.map(str::to_string));
    loop {
        match get_ntfy_topic(config, source) {
            TopicStep::Use(topic) => return (topic, contents),
            TopicStep::ReadSecrets(path) => {
                assert_eq!(path, config.secrets_path);
                source = TopicSource::Secrets(load_secrets(Some(&contents)));
            }
            TopicStep::DrawRandom(secrets) => source = TopicSource::Random(secrets, [0xa5; 24]),
            TopicStep::Store { topic, file } => {
                assert_eq!(file.path, config.secrets_path);
                assert_eq!(file.mode, 0o600);
                assert_eq!(file.dir_mode, 0o700);
                contents = file.contents;
                return (topic, contents);
            }
        }
    }
}

#[test]
fn parse_ignores_comments_and_whitespace() {
    let input = r#"
            # comment
            KEY = value
            EMPTY=
            A=B=C
        "#;
    let m = parse_secrets_content(input);
    assert_eq!(m.get("KEY"), Some(&"value".to_string()));
    assert_eq!(m.get("EMPTY"), Some(&"".to_string()));
    assert_eq!(m.get("A"), Some(&"B=C".to_string()));
}

#[test]
fn parse_line_without_equals_is_ignored() {
    let m = parse_secrets_content("NOEQUALSSIGN\n");
    assert!(m.is_empty());
}

#[test]
fn parse_accepts_windows_line_ends_and_keeps_the_last_entry() {
    let m = parse_secrets_content("A=1\r\nB=2\r\nA=3");
    assert_eq!(m.len(), 2);
    assert_eq!(m.get("A"), Some(&"3".to_string()));
    assert_eq!(m.get("B"), Some(&"2".to_string()));
}

#[test]
fn an_added_line_adds_its_entry() {
    let content = "A=1\nB=2";
    let m = parse_secrets_content(&format!("{content}\n C = 3 "));
    assert_eq!(m.len(), 3);
    assert_eq!(m.get("C"), Some(&"3".to_string()));
    let m = parse_secrets_content(&format!("{content}\nA=9"));
    assert_eq!(m.len(), 2);
    assert_eq!(m.get("A"), Some(&"9".to_string()));
    for line in ["", "  # A=9", "A"] {
        let m = parse_secrets_content(&format!("{content}\n{line}"));
        assert_eq!(m.len(), 2);
        assert_eq!(m.get("A"), Some(&"1".to_string()));
    }
}

#[test]
fn serialize_sorts_keys() {
    let mut m = EnvMap::new();
    m.insert("B".to_string(), "2".to_string());
    m.insert("A".to_string(), "1".to_string());

    let s = serialize_secrets(&m);
    let idx_a = s.find("A=1").unwrap();
    let idx_b = s.find("B=2").unwrap();
    assert!(idx_a < idx_b);
}

#[test]
fn serialize_sorts_as_std_sorts() {
    let names = ["b", "", "a", "ab", "B", "\u{e9}", "\u{ffff}", "\u{1f680}", "a\u{0}", "_"];
    let mut m = EnvMap::new();
    for name in names {
        m.insert(name.to_string(), "v".to_string());
    }
    let mut sorted = names.to_vec();
    sorted.sort();
    let listed: Vec<&str> = (0..m.len()).map(|i| m.entry(i).0.as_str()).collect();
    assert_eq!(listed, sorted);
}

#[test]
fn serialize_includes_header_comment() {
    let m = EnvMap::new();
    let s = serialize_secrets(&m);
    assert!(s.starts_with("# restic-backup secrets"));
    assert_eq!(s, "# restic-backup secrets - keep this file private (mode 0600)\n");
}

#[test]
fn insert_replaces_a_value() {
    let mut m = EnvMap::new();
    m.insert("A".to_string(), "1".to_string());
    m.insert("A".to_string(), "2".to_string());
    assert_eq!(m.len(), 1);
    assert_eq!(m.get("A"), Some(&"2".to_string()));
    assert!(m.contains_key("A"));
    assert!(!m.contains_key("B"));
    assert_eq!(m.get("B"), None);
}

#[test]
fn load_secrets_returns_empty_for_missing_file() {
    let m = load_secrets(None);
    assert!(m.is_empty());
}

#[test]
fn save_and_load_secrets_roundtrip() {
    let mut m = EnvMap::new();
    m.insert("FOO".to_string(), "bar".to_string());
    let file = save_secrets("/tmp/secrets/env", &m);
    assert_eq!(file.path, "/tmp/secrets/env");
    assert_eq!(file.mode, 0o600);
    assert_eq!(file.dir_mode, 0o700);
    let loaded = load_secrets(Some(&file.contents));
    assert_eq!(loaded.get("FOO"), Some(&"bar".to_string()));
    assert_eq!(loaded.len(), 1);
}

#[test]
fn rewriting_keeps_secrets() {
    for content in ["", "A=1\nB = x = y \n#c\n=empty name\nA=2", "K=\u{a0}v\r w\r\n\n"] {
        let first = parse_secrets_content(content);
        let written = serialize_secrets(&first);
        let second = parse_secrets_content(&written);
        assert_eq!(serialize_secrets(&second), written);
        assert_eq!(first.len(), second.len());
        for i in 0..first.len() {
            assert_eq!(first.entry(i), second.entry(i));
        }
    }
}

#[test]
fn entries_that_the_format_cannot_hold_are_not_read_back() {
    for (name, value) in [(" a", "v"), ("a", "v "), ("a=b", "v"), ("#a", "v"), ("a", "v\nw"), ("a\nb", "v")] {
        let mut m = EnvMap::new();
        m.insert(name.to_string(), value.to_string());
        let back = parse_secrets_content(&serialize_secrets(&m));
        assert!(back.len() != 1 || back.get(name) != Some(&value.to_string()));
    }
}

#[test]
fn ensure_secrets_scaffold_creates_file_when_missing() {
    let config = make_config();
    let file = ensure_secrets_scaffold(&config, false).unwrap();
    assert_eq!(file.path, config.secrets_path);
    let content = file.contents;
    assert!(content.contains("RESTIC_REPOSITORY"));
    assert!(content.contains("RESTIC_PASSWORD"));
    assert_eq!(
        content,
        "# restic-backup secrets - keep this file private (mode 0600)\nAWS_ACCESS_KEY_ID=\nAWS_SECRET_ACCESS_KEY=\nRESTIC_PASSWORD=\nRESTIC_REPOSITORY=\n"
    );
    // The scaffold alone does not run restic.
    let err = build_restic_env(&config, &parse_secrets_content(&content), None).unwrap_err();
    assert_eq!(err.name, "RESTIC_REPOSITORY");
}

#[test]
fn ensure_secrets_scaffold_is_noop_when_file_exists() {
    assert!(ensure_secrets_scaffold(&make_config(), true).is_none());
}

#[test]
fn get_ntfy_topic_reads_from_secrets_file() {
    let (topic, _) = resolve_topic(&make_config(), None, "NTFY_TOPIC=my-test-topic\n");
    assert_eq!(topic, "my-test-topic");
}

#[test]
fn get_ntfy_topic_prefers_the_variable() {
    let file = "NTFY_TOPIC=my-test-topic\n";
    let (topic, contents) = resolve_topic(&make_config(), Some("  from-env "), file);
    assert_eq!(topic, "from-env");
    assert_eq!(contents, file);
    let (topic, _) = resolve_topic(&make_config(), Some("  "), file);
    assert_eq!(topic, "my-test-topic");
}

#[test]
fn get_ntfy_topic_generates_and_persists_when_absent() {
    let config = make_config();
    let (topic, contents) = resolve_topic(&config, None, "");
    assert!(topic.starts_with("prefix-"));
    assert_eq!(topic, format!("prefix-{}", "a5".repeat(24)));
    // A second call must return the same persisted topic.
    let (topic2, contents2) = resolve_topic(&config, None, &contents);
    assert_eq!(topic, topic2);
    assert_eq!(contents, contents2);
}

#[test]
fn storing_a_topic_keeps_the_other_secrets() {
    let (topic, contents) = resolve_topic(&make_config(), None, "OTHER=kept\n");
    let stored = parse_secrets_content(&contents);
    assert_eq!(stored.len(), 2);
    assert_eq!(stored.get("OTHER"), Some(&"kept".to_string()));
    assert_eq!(stored.get("NTFY_TOPIC"), Some(&topic));
}

#[test]
fn generated_topics() {
    let mut random = [0u8; 24];
    random[0] = 0x0f;
    random[23] = 0xf0;
    let hex = format!("0f{}f0", "00".repeat(22));
    assert_eq!(generate_topic(None, &random), hex);
    assert_eq!(generate_topic(Some("My Prefix!"), &random), format!("My-Prefix-{hex}"));
}

#[test]
fn build_restic_env_errors_when_required_keys_missing() {
    let config = make_config();
    let err = build_restic_env(&config, &load_secrets(Some("")), None).unwrap_err();
    let msg = err.message();
    assert!(
        msg.contains("missing RESTIC_REPOSITORY") || msg.contains("missing RESTIC_PASSWORD")
    );
    assert_eq!(
        msg,
        "missing RESTIC_REPOSITORY in secrets file /root/secrets/env; edit it and fill in the required values"
    );
    let err = build_restic_env(&config, &load_secrets(Some("RESTIC_REPOSITORY=r\nRESTIC_PASSWORD= \n")), None)
        .unwrap_err();
    assert_eq!(err.name, "RESTIC_PASSWORD");
}

#[test]
fn build_restic_env_happy_path() {
    let config = make_config();
    let secrets = load_secrets(Some(
        "RESTIC_REPOSITORY=s3:bucket\nRESTIC_PASSWORD=secret\nAWS_ACCESS_KEY_ID=AKID\n",
    ));
    let env_vars = build_restic_env(&config, &secrets, None).unwrap();
    assert_eq!(
        env_vars.get("RESTIC_REPOSITORY").map(String::as_str),
        Some("s3:bucket")
    );
    assert_eq!(
        env_vars.get("RESTIC_PASSWORD").map(String::as_str),
        Some("secret")
    );
    assert_eq!(
        env_vars.get("AWS_ACCESS_KEY_ID").map(String::as_str),
        Some("AKID")
    );
    // RESTIC_CACHE_DIR must always be injected.
    assert!(env_vars.contains_key("RESTIC_CACHE_DIR"));
    assert!(env_vars.contains_key("PATH"));
    assert_eq!(
        env_vars.get("PATH").map(String::as_str),
        Some("/usr/local/bin:/opt/homebrew/bin:/usr/bin:/bin")
    );
}

#[test]
fn build_restic_env_skips_blank_optional_keys() {
    let config = make_config();
    let secrets = load_secrets(Some(
        "RESTIC_REPOSITORY=s3:bucket\nRESTIC_PASSWORD=secret\nAWS_ACCESS_KEY_ID=\n",
    ));
    let env_vars = build_restic_env(&config, &secrets, None).unwrap();
    // Blank optional key must not appear.
    assert!(!env_vars.contains_key("AWS_ACCESS_KEY_ID"));
}

#[test]
fn build_restic_env_injects_cache_dir_from_config() {
    let config = make_config();
    let secrets = load_secrets(Some("RESTIC_REPOSITORY=s3:bucket\nRESTIC_PASSWORD=secret\n"));
    let env_vars = build_restic_env(&config, &secrets, None).unwrap();
    assert_eq!(
        env_vars.get("RESTIC_CACHE_DIR").map(String::as_str),
        Some(config.cache_dir.as_str())
    );
}

#[test]
fn build_restic_env_passes_nothing_else() {
    let secrets = load_secrets(Some(
        "RESTIC_REPOSITORY=r\nRESTIC_PASSWORD=p\nNTFY_TOPIC=t\nLD_PRELOAD=x\nPATH=/evil\nAWS_SESSION_TOKEN=s\nAWS_DEFAULT_REGION=eu\nAWS_SECRET_ACCESS_KEY=k\n",
    ));
    let env = build_restic_env(&make_config(), &secrets, Some("/bin".to_string())).unwrap();
    let names: Vec<&str> = (0..env.len()).map(|i| env.entry(i).0.as_str()).collect();
    assert_eq!(
        names,
        vec![
            "AWS_DEFAULT_REGION",
            "AWS_SECRET_ACCESS_KEY",
            "AWS_SESSION_TOKEN",
            "PATH",
            "RESTIC_CACHE_DIR",
            "RESTIC_PASSWORD",
            "RESTIC_REPOSITORY",
        ]
    );
    assert_eq!(env.get("PATH"), Some(&"/bin".to_string()));
}

#[test]
fn get_ntfy_topic_ignores_blank_topic_in_secrets_file() {
    let (topic, _) = resolve_topic(&make_config(), None, "NTFY_TOPIC=\n");
    assert!(
        topic.starts_with("prefix-"),
        "blank NTFY_TOPIC in file must trigger generation, got: {topic}"
    );
    assert!(!topic.trim().is_empty());
}

#[test]
fn get_ntfy_topic_ignores_whitespace_only_topic_in_secrets_file() {
    let (topic, _) = resolve_topic(&make_config(), None, "NTFY_TOPIC=   \n");
    assert!(
        topic.starts_with("prefix-"),
        "whitespace-only NTFY_TOPIC must trigger generation, got: {topic}"
    );
}

#[test]
fn parse_skips_comment_lines_regardless_of_emptiness() {
    // A non-empty comment line must be skipped.
    let m = parse_secrets_content("# this is a comment\nKEY=val\n");
    assert!(
        !m.contains_key("# this is a comment"),
        "comment line must be skipped"
    );
    assert_eq!(m.get("KEY"), Some(&"val".to_string()));
}

#[test]
fn parse_skips_empty_lines_regardless_of_comment_marker() {
    // An empty line (no '#') must also be skipped.
    let m = parse_secrets_content("\n\nKEY=val\n\n");
    assert_eq!(m.len(), 1);
    assert_eq!(m.get("KEY"), Some(&"val".to_string()));
}

#[test]
fn parse_comment_only_content_yields_empty_map() {
    // All lines are comments, so the map must be empty.
    let m = parse_secrets_content("# line1\n# line2\n");
    assert!(m.is_empty(), "only comments should produce an empty map");
}
