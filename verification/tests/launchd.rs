use serpula::config::Config;
use serpula::install::{agents_dir, closing_notes, cmd_install};
use serpula::launchd::{
    plist_document, plist_label, sanitize_as_domain_label, schedule_calendar, schedule_interval,
    xml_escape, FALLBACK_LABEL, MAX_LABEL_LEN,
};

fn dummy_config() -> Config {
    Config {
        home_dir: "/home/test".to_string(),
        username: "alice".to_string(),
        secrets_path: "/home/test/.secrets/env".to_string(),
        runtime_dir: "/home/test/.run".to_string(),
        log_dir: "/home/test/.logs".to_string(),
        cache_dir: "/home/test/.cache".to_string(),
        backup_source: "/home/test".to_string(),
        hostname: "myhost".to_string(),
        ntfy_server: "https://ntfy.sh".to_string(),
        ntfy_prefix: "prefix".into(),
        keep_hourly: "24".to_string(),
        keep_daily: "14".to_string(),
        keep_weekly: "4".to_string(),
        keep_monthly: "12".to_string(),
        keep_yearly: "10".to_string(),
        check_percent: "10".to_string(),
    }
}

#[test]
fn escapes_xml_chars() {
    assert_eq!(xml_escape(r#"<>&"'"#), "&lt;&gt;&amp;&quot;&apos;");
}

#[test]
fn xml_escape_plain_string_unchanged() {
    assert_eq!(xml_escape("hello world"), "hello world");
}

#[test]
fn sanitize_non_alnum() {
    assert_eq!(sanitize_as_domain_label("john.doe+mac"), "john-doe-mac");
}

#[test]
fn sanitize_alnum_unchanged() {
    assert_eq!(sanitize_as_domain_label("alice123"), "alice123");
}

#[test]
fn plist_label_format() {
    let cfg = dummy_config();
    let label = plist_label(&cfg, "backup");
    assert_eq!(label, "net.nausicaea.serpula.alice.backup");
}

#[test]
fn plist_label_sanitizes_username() {
    let mut cfg = dummy_config();
    cfg.username = "john.doe".to_string();
    let label = plist_label(&cfg, "check");
    assert_eq!(label, "net.nausicaea.serpula.john-doe.check");
}

#[test]
fn plist_label_is_cut_to_the_limit() {
    let cfg = dummy_config();
    let label = plist_label(&cfg, &"n".repeat(300));
    assert_eq!(label.len(), 255);
    assert!(label.starts_with("net.nausicaea.serpula.alice.nnn"));
    // "net.nausicaea.serpula.alice." has 28 bytes: one byte more, then two-byte characters.
    let name = format!("n{}", "\u{e9}".repeat(200));
    let label = plist_label(&cfg, &name);
    assert_eq!(label.len(), 255);
    assert!(label.ends_with('\u{e9}'));
    let whole = "n".repeat(227);
    assert_eq!(plist_label(&cfg, &whole), format!("net.nausicaea.serpula.alice.{whole}"));
}

#[test]
fn schedule_interval_format() {
    let xml = schedule_interval(3600);
    assert!(xml.contains("<key>StartInterval</key>"));
    assert!(xml.contains("<integer>3600</integer>"));
    assert_eq!(xml, "    <key>StartInterval</key>\n    <integer>3600</integer>");
}

#[test]
fn calendar_contains_weekday_when_present() {
    let xml = schedule_calendar(Some(0), 3, 30);
    assert!(xml.contains("<key>Weekday</key>"));
    assert!(xml.contains("<integer>0</integer>"));
    assert_eq!(
        xml,
        "    <key>StartCalendarInterval</key>\n    <dict>\n        <key>Weekday</key>\n        <integer>0</integer>\n        <key>Hour</key>\n        <integer>3</integer>\n        <key>Minute</key>\n        <integer>30</integer>\n    </dict>"
    );
}

#[test]
fn calendar_omits_weekday_when_none() {
    let xml = schedule_calendar(None, 2, 0);
    assert!(!xml.contains("Weekday"));
    assert!(xml.contains("<key>Hour</key>"));
    assert!(xml.contains("<integer>2</integer>"));
}

#[test]
fn plist_document_contains_label_and_exe() {
    let cfg = dummy_config();
    let exe = "/usr/local/bin/restic-backup";
    let xml = plist_document(&cfg, exe, "backup", &schedule_interval(3600));
    assert!(xml.contains("net.nausicaea.serpula.alice.backup"));
    assert!(xml.contains("/usr/local/bin/restic-backup"));
    assert!(xml.contains("<string>backup</string>"));
    assert!(xml.contains("backup.stdout.log"));
    assert!(xml.contains("backup.stderr.log"));
}

#[test]
fn plist_document_escapes_special_chars_in_exe() {
    let cfg = dummy_config();
    let exe = "/path/with/<special>&chars/bin";
    let xml = plist_document(&cfg, exe, "backup", &schedule_interval(60));
    assert!(xml.contains("&lt;special&gt;&amp;chars"));
}

#[test]
fn plist_document_exact() {
    let cfg = dummy_config();
    let xml = plist_document(&cfg, "/usr/local/bin/restic-backup", "backup", &schedule_interval(3600));
    assert_eq!(
        xml,
        r#"<?xml version="1.0" encoding="UTF-8"?>
<!DOCTYPE plist PUBLIC "-//Apple//DTD PLIST 1.0//EN" "http://www.apple.com/DTDs/PropertyList-1.0.dtd">
<plist version="1.0">
<dict>
<key>Label</key>
<string>net.nausicaea.serpula.alice.backup</string>
<key>ProgramArguments</key>
<array>
    <string>/usr/local/bin/restic-backup</string>
    <string>backup</string>
</array>
<key>EnvironmentVariables</key>
<dict>
    <key>PATH</key>
    <string>/usr/local/bin:/opt/homebrew/bin:/usr/bin:/bin</string>
</dict>
    <key>StartInterval</key>
    <integer>3600</integer>
<key>RunAtLoad</key>
<false/>
<key>StandardOutPath</key>
<string>/home/test/.logs/backup.stdout.log</string>
<key>StandardErrorPath</key>
<string>/home/test/.logs/backup.stderr.log</string>
<key>ProcessType</key>
<string>Background</string>
<key>LowPriorityIO</key>
<true/>
</dict>
</plist>
"#
    );
}

fn reference_escape(s: &str) -> String {
    let mut out = String::new();
    for c in s.chars() {
        match c {
            '&' => out.push_str("&amp;"),
            '<' => out.push_str("&lt;"),
            '>' => out.push_str("&gt;"),
            '"' => out.push_str("&quot;"),
            '\'' => out.push_str("&apos;"),
            other => out.push(other),
        }
    }
    out
}

fn reference_unescape(s: &str) -> Option<String> {
    let mut out = String::new();
    let mut rest = s;
    while let Some(c) = rest.chars().next() {
        if c != '&' {
            out.push(c);
            rest = &rest[c.len_utf8()..];
            continue;
        }
        let (entity, replacement) = [
            ("&amp;", '&'),
            ("&lt;", '<'),
            ("&gt;", '>'),
            ("&quot;", '"'),
            ("&apos;", '\''),
        ]
        .into_iter()
        .find(|(entity, _)| rest.starts_with(entity))?;
        out.push(replacement);
        rest = &rest[entity.len()..];
    }
    Some(out)
}

const SAMPLES: [&str; 9] = [
    "",
    "plain",
    "&amp;",
    "&&lt;",
    "<a href=\"x\">'q'</a>",
    "\u{65e5}\u{672c} & <\u{1f680}>",
    "a\nb\0c",
    "''''",
    "&#38; & amp;",
];

#[test]
fn matches_reference_implementation() {
    for s in SAMPLES {
        assert_eq!(xml_escape(s), reference_escape(s));
    }
}

#[test]
fn roundtrips_through_reference_unescape() {
    for s in SAMPLES {
        assert_eq!(reference_unescape(&xml_escape(s)), Some(s.to_string()));
    }
}

#[test]
fn distributes_over_concatenation() {
    for a in SAMPLES {
        for b in SAMPLES {
            assert_eq!(
                xml_escape(&format!("{a}{b}")),
                format!("{}{}", xml_escape(a), xml_escape(b))
            );
        }
    }
}

#[test]
fn escaped_text_has_no_raw_specials_and_never_shrinks() {
    for s in SAMPLES {
        let escaped = xml_escape(s);
        assert!(escaped.len() >= s.len());
        assert!(!escaped.contains(['<', '>', '"', '\'']));
        for (at, _) in escaped.match_indices('&') {
            let tail = &escaped[at + 1..];
            assert!(["amp;", "lt;", "gt;", "quot;", "apos;"].iter().any(|e| tail.starts_with(e)));
        }
    }
}

#[test]
fn entity_counts_match_source_counts() {
    for s in SAMPLES {
        let escaped = xml_escape(s);
        for (ch, entity) in [
            ('&', "&amp;"),
            ('<', "&lt;"),
            ('>', "&gt;"),
            ('"', "&quot;"),
            ('\'', "&apos;"),
        ] {
            let source_count = s.chars().filter(|c| *c == ch).count();
            let entity_count = escaped.matches(entity).count();
            assert_eq!(source_count, entity_count);
        }
    }
}

#[test]
fn unit_edge_cases() {
    assert_eq!(xml_escape(""), "");
    assert_eq!(xml_escape("hello"), "hello");
    assert_eq!(xml_escape("&"), "&amp;");
    assert_eq!(xml_escape("<>&\"'"), "&lt;&gt;&amp;&quot;&apos;");
    assert_eq!(xml_escape("a & b"), "a &amp; b");
    assert_eq!(xml_escape("<<>>&&"), "&lt;&lt;&gt;&gt;&amp;&amp;");
    assert_eq!(xml_escape("日本語 & 中文"), "日本語 &amp; 中文");
}

fn is_valid_label_char(c: char) -> bool {
    c.is_ascii_alphanumeric() || c == '-'
}

#[test]
fn empty_input_produces_valid_label() {
    let out = sanitize_as_domain_label("");
    assert!(!out.is_empty());
    assert!(out.len() <= MAX_LABEL_LEN);
    assert!(out.chars().all(is_valid_label_char));
    assert!(!out.starts_with('-'));
    assert!(!out.ends_with('-'));
}

#[test]
fn overlong_input_is_truncated_to_limit() {
    let long_input = "a".repeat(500);
    let out = sanitize_as_domain_label(&long_input);
    assert!(out.len() <= MAX_LABEL_LEN);
    assert!(!out.ends_with('-'));
}

#[test]
fn input_of_only_hyphens_is_sanitized() {
    let out = sanitize_as_domain_label("------");
    assert!(!out.starts_with('-'));
    assert!(!out.ends_with('-'));
    assert_eq!(out, FALLBACK_LABEL);
}

#[test]
fn input_with_unicode_is_sanitized_to_ascii() {
    let out = sanitize_as_domain_label("héllo wörld🚀");
    assert!(out.is_ascii());
    assert!(out.chars().all(is_valid_label_char));
}

#[test]
fn input_with_underscores_and_spaces_is_sanitized() {
    let out = sanitize_as_domain_label("my_domain label");
    assert_eq!(out, "my-domain-label");
}

#[test]
fn exactly_max_length_input_is_preserved_in_length() {
    let input: String = "a".repeat(MAX_LABEL_LEN);
    let out = sanitize_as_domain_label(&input);
    assert_eq!(out.len(), MAX_LABEL_LEN);
}

#[test]
fn sanitizing_is_idempotent_and_valid() {
    let cut = format!("{}-b", "a".repeat(62));
    for s in ["", "-a-", "a--b", "A.B..C", "1 2 3", "label", "\u{e9}", cut.as_str(), "a-b-c"] {
        let once = sanitize_as_domain_label(s);
        assert_eq!(sanitize_as_domain_label(&once), once);
        assert!(!once.is_empty() && once.len() <= MAX_LABEL_LEN);
        assert!(!once.starts_with('-') && !once.ends_with('-') && !once.contains("--"));
        assert!(once.chars().all(is_valid_label_char));
    }
    assert_eq!(sanitize_as_domain_label(&cut), "a".repeat(62));
    assert_eq!(sanitize_as_domain_label("a--b"), "a-b");
    assert_eq!(sanitize_as_domain_label("Ab-9"), "Ab-9");
}

#[test]
fn install_writes_three_agents() {
    let cfg = dummy_config();
    let agents = cmd_install(&cfg, "/bin/x");
    let files: Vec<&str> = agents.iter().map(|a| a.path.as_str()).collect();
    assert_eq!(
        files,
        vec![
            "/home/test/Library/LaunchAgents/net.nausicaea.serpula.alice.backup.plist",
            "/home/test/Library/LaunchAgents/net.nausicaea.serpula.alice.check.plist",
            "/home/test/Library/LaunchAgents/net.nausicaea.serpula.alice.forget.plist",
        ]
    );
    assert_eq!(agents_dir(&cfg), "/home/test/Library/LaunchAgents");
    assert!(agents.iter().all(|a| a.mode == 0o644));
    assert_eq!(
        agents[0].document,
        plist_document(&cfg, "/bin/x", "backup", &schedule_interval(3600))
    );
    assert_eq!(
        agents[1].document,
        plist_document(&cfg, "/bin/x", "check", &schedule_calendar(Some(0), 3, 30))
    );
    assert_eq!(
        agents[2].document,
        plist_document(&cfg, "/bin/x", "forget", &schedule_calendar(None, 2, 0))
    );
}

#[test]
fn the_longest_user_name_keeps_the_agents_apart() {
    let mut cfg = dummy_config();
    cfg.username = "u".repeat(500);
    let agents = cmd_install(&cfg, "/bin/x");
    let prefix = format!("{}/net.nausicaea.serpula.{}", agents_dir(&cfg), "u".repeat(63));
    assert_eq!(agents[0].path, format!("{prefix}.backup.plist"));
    assert_eq!(agents[1].path, format!("{prefix}.check.plist"));
    assert_eq!(agents[2].path, format!("{prefix}.forget.plist"));
}

#[test]
fn install_tells_where_the_secrets_are() {
    assert_eq!(
        closing_notes(&dummy_config()),
        vec![
            "",
            "Secrets file: /home/test/.secrets/env",
            "Fill in RESTIC_REPOSITORY, RESTIC_PASSWORD, AWS_ACCESS_KEY_ID and",
            "AWS_SECRET_ACCESS_KEY there before the next scheduled run.",
            "",
        ]
    );
}
