use smtp2cf::config::{
    check_config, default_appname, default_command_timeout_secs, default_max_message_size,
    default_max_recipients, find_tls_candidate, is_allowed_sender_domain, load_secrets,
    normalize_config, prepare_config, queue_dirs, resolve_tls, summarize_tls, validate_config,
    write_probe_path, AppConfig, AuthConfig, CloudflareConfig, ConfigError, PortsConfig,
    PrepareError, QueueConfig, SecretsError, SenderConfig, TlsError, TlsSettings,
};

fn no_tls() -> TlsSettings {
    TlsSettings {
        cert_name: None,
        fullchain_path: None,
        privkey_path: None,
        allow_insecure_auth: false,
    }
}

fn app_config() -> AppConfig {
    AppConfig {
        hostname: "smtp.example.com".into(),
        appname: "smtp2cf".into(),
        max_message_size: 1024,
        max_recipients: 10,
        command_timeout_secs: 10,
        ports: PortsConfig {
            smtp_25: "0.0.0.0:25".into(),
            submission_587: "0.0.0.0:587".into(),
            smtps_465: "0.0.0.0:465".into(),
        },
        auth: AuthConfig {
            username: "relay@example.com".into(),
        },
        senders: SenderConfig {
            allowed_domains: vec!["example.com".into()],
        },
        cloudflare: CloudflareConfig {
            account_id: "abc".into(),
        },
        tls: no_tls(),
        queue: QueueConfig {
            spool_dir: "/var/lib/smtp2cf/spool".into(),
            max_attempts: 3,
            backoff_initial_secs: 1,
            backoff_max_secs: 2,
            poll_interval_secs: 1,
        },
    }
}

fn explicit(fullchain: Option<&str>, privkey: Option<&str>) -> TlsSettings {
    TlsSettings {
        cert_name: None,
        fullchain_path: fullchain.map(String::from),
        privkey_path: privkey.map(String::from),
        allow_insecure_auth: false,
    }
}

fn certbot(name: &str) -> TlsSettings {
    TlsSettings {
        cert_name: Some(name.into()),
        ..no_tls()
    }
}

#[test]
fn sender_domain_match_is_case_insensitive() {
    let allowed = vec!["example.com".to_string()];
    assert!(is_allowed_sender_domain(&allowed, "User@Example.com"));
    assert!(!is_allowed_sender_domain(&allowed, "user@other.com"));
}

#[test]
fn resolve_tls_uses_explicit_paths() {
    let cert = "/tmp/certs/fullchain.pem".to_string();
    let key = "/tmp/certs/privkey.pem".to_string();

    let resolved = resolve_tls(
        &TlsSettings {
            cert_name: None,
            fullchain_path: Some(cert.clone()),
            privkey_path: Some(key.clone()),
            allow_insecure_auth: false,
        },
        &[cert.clone(), key.clone()],
    )
    .unwrap()
    .unwrap();

    assert_eq!(resolved.fullchain_path, cert);
    assert_eq!(resolved.privkey_path, key);
    assert_eq!(resolved.source_label, "explicit-paths");
}

#[test]
fn sender_domains_stand_behind_the_last_at() {
    let allowed = vec!["example.com".to_string(), "mail.example.com".to_string()];
    assert!(is_allowed_sender_domain(&allowed, "<a@mail.EXAMPLE.com>"));
    assert!(is_allowed_sender_domain(&allowed, "a@b@example.com>> "));
    assert!(is_allowed_sender_domain(&allowed, "a@\u{3000}example.com\t"));
    assert!(is_allowed_sender_domain(&allowed, "@example.com"));
    assert!(!is_allowed_sender_domain(&allowed, "a@example.com@other.com"));
    assert!(!is_allowed_sender_domain(&allowed, "a@sub.example.com"));
    assert!(!is_allowed_sender_domain(&allowed, "a@example.com >"));
    assert!(!is_allowed_sender_domain(&allowed, "example.com"));
    assert!(!is_allowed_sender_domain(&allowed, ""));
    assert!(!is_allowed_sender_domain(&[], "a@example.com"));
    assert!(!is_allowed_sender_domain(
        &["Example.com".to_string()],
        "a@Example.com"
    ));
}

#[test]
fn configurations_are_normalized() {
    let mut config = app_config();
    config.hostname = " smtp.Example.com\u{2003}".into();
    config.appname = "\tapp\n".into();
    config.auth.username = " user name ".into();
    config.cloudflare.account_id = "\u{85}abc ".into();
    config.senders.allowed_domains =
        vec![" @@Example.COM ".into(), "M\u{dc}LLER.de".into(), "@ x".into()];
    config.ports.smtp_25 = " 0.0.0.0:25 ".into();
    normalize_config(&mut config);
    assert_eq!(config.hostname, "smtp.Example.com");
    assert_eq!(config.appname, "app");
    assert_eq!(config.auth.username, "user name");
    assert_eq!(config.cloudflare.account_id, "abc");
    assert_eq!(
        config.senders.allowed_domains,
        vec!["example.com", "m\u{dc}ller.de", " x"]
    );
    assert_eq!(config.ports.smtp_25, " 0.0.0.0:25 ");
}

#[test]
fn normalizing_again_changes_nothing() {
    let mut config = app_config();
    config.senders.allowed_domains = vec![" @Example.COM ".into()];
    config.hostname = " h ".into();
    normalize_config(&mut config);
    let once = config.clone();
    normalize_config(&mut config);
    assert_eq!(config.hostname, once.hostname);
    assert_eq!(
        config.senders.allowed_domains,
        once.senders.allowed_domains
    );
}

#[test]
fn a_sound_configuration_passes() {
    assert_eq!(validate_config(&app_config()), Ok(()));
    let mut config = app_config();
    config.tls = explicit(Some("/c"), Some("/k"));
    assert_eq!(validate_config(&config), Ok(()));
    config.hostname = " h ".into();
    assert_eq!(check_config(config).unwrap().hostname, "h");
}

#[test]
fn every_rule_is_checked() {
    let mut config = app_config();
    config.tls = explicit(Some("/c"), None);
    let mut expect = |config: &AppConfig, error: ConfigError, words: &str| {
        assert_eq!(validate_config(config), Err(error));
        assert_eq!(error.message(), words);
    };
    expect(
        &config,
        ConfigError::TlsPathsNotSetTogether,
        "tls.fullchain_path and tls.privkey_path must be set together",
    );
    config.ports.smtps_465 = " \t".into();
    expect(
        &config,
        ConfigError::EmptyBindAddress,
        "listener bind addresses must not be empty",
    );
    config.queue.poll_interval_secs = 0;
    expect(
        &config,
        ConfigError::ZeroPollInterval,
        "queue.poll_interval_secs must be greater than 0",
    );
    config.queue.backoff_max_secs = 0;
    expect(
        &config,
        ConfigError::MaxBackoffBelowInitial,
        "queue.backoff_max_secs must be >= queue.backoff_initial_secs",
    );
    config.queue.backoff_initial_secs = 0;
    expect(
        &config,
        ConfigError::ZeroInitialBackoff,
        "queue.backoff_initial_secs must be greater than 0",
    );
    config.queue.max_attempts = 0;
    expect(
        &config,
        ConfigError::ZeroAttempts,
        "queue.max_attempts must be greater than 0",
    );
    config.command_timeout_secs = 0;
    expect(
        &config,
        ConfigError::ZeroCommandTimeout,
        "command_timeout_secs must be greater than 0",
    );
    config.max_recipients = 0;
    expect(
        &config,
        ConfigError::ZeroRecipients,
        "max_recipients must be greater than 0",
    );
    config.max_message_size = 0;
    expect(
        &config,
        ConfigError::ZeroMessageSize,
        "max_message_size must be greater than 0",
    );
    config.senders.allowed_domains = vec![];
    expect(
        &config,
        ConfigError::NoAllowedDomains,
        "senders.allowed_domains must contain at least one domain",
    );
    config.cloudflare.account_id = "".into();
    expect(
        &config,
        ConfigError::EmptyAccountId,
        "cloudflare.account_id must not be empty",
    );
    config.auth.username = "".into();
    expect(
        &config,
        ConfigError::EmptyUsername,
        "auth.username must not be empty",
    );
    config.appname = "".into();
    expect(
        &config,
        ConfigError::EmptyAppname,
        "appname must not be empty",
    );
    config.hostname = "".into();
    expect(
        &config,
        ConfigError::EmptyHostname,
        "hostname must not be empty",
    );
}

#[test]
fn a_configuration_is_checked_after_normalizing() {
    let mut config = app_config();
    config.hostname = "  ".into();
    assert_eq!(
        check_config(config).map(|c| c.hostname),
        Err(ConfigError::EmptyHostname)
    );
    let mut config = app_config();
    config.tls = explicit(None, Some("/k"));
    assert_eq!(
        check_config(config).map(|c| c.hostname),
        Err(ConfigError::TlsPathsNotSetTogether)
    );
}

#[test]
fn both_secrets_are_needed() {
    let some = |value: &str| Some(value.to_string());
    let secrets = load_secrets(some("pw"), some("tok")).unwrap();
    assert_eq!(secrets.smtp_password, "pw");
    assert_eq!(secrets.cloudflare_api_token, "tok");
    let cases = [
        (
            None,
            None,
            SecretsError::MissingPassword,
            "missing SMTP2CF_SMTP_PASSWORD environment variable",
        ),
        (
            some(""),
            None,
            SecretsError::MissingApiToken,
            "missing SMTP2CF_CLOUDFLARE_API_TOKEN environment variable",
        ),
        (
            some(""),
            some(""),
            SecretsError::EmptyPassword,
            "SMTP2CF_SMTP_PASSWORD must not be empty",
        ),
        (
            some("pw"),
            some(""),
            SecretsError::EmptyApiToken,
            "SMTP2CF_CLOUDFLARE_API_TOKEN must not be empty",
        ),
    ];
    for (password, token, error, words) in cases {
        assert_eq!(
            load_secrets(password, token).map(|s| s.smtp_password),
            Err(error)
        );
        assert_eq!(error.message(), words);
    }
}

#[test]
fn a_spool_has_three_directories_and_a_probe() {
    assert_eq!(
        queue_dirs("/var/spool"),
        vec!["/var/spool", "/var/spool/pending", "/var/spool/dead"]
    );
    assert_eq!(write_probe_path("spool/"), "spool/.write-test");
}

#[test]
fn certbot_material_is_found_by_name() {
    let tls = certbot("mail.example.com");
    let candidate = find_tls_candidate(&tls).unwrap();
    assert_eq!(
        candidate.fullchain_path,
        "/etc/letsencrypt/live/mail.example.com/fullchain.pem"
    );
    assert_eq!(
        candidate.privkey_path,
        "/etc/letsencrypt/live/mail.example.com/privkey.pem"
    );
    assert_eq!(candidate.source_label, "certbot:mail.example.com");
    let files = [candidate.fullchain_path, candidate.privkey_path];
    assert!(resolve_tls(&tls, &files).unwrap().is_some());
    assert!(resolve_tls(&tls, &files[..1]).unwrap().is_none());
    assert!(resolve_tls(&tls, &files[1..]).unwrap().is_none());
    assert!(resolve_tls(&tls, &[]).unwrap().is_none());
    assert!(find_tls_candidate(&no_tls()).is_none());
    assert!(resolve_tls(&no_tls(), &files).unwrap().is_none());
}

#[test]
fn explicit_files_must_exist() {
    let tls = explicit(Some("/c"), Some("/k"));
    let error = resolve_tls(&tls, &["/k".to_string()]).unwrap_err();
    assert!(matches!(error, TlsError::MissingFullchain(_)));
    assert_eq!(
        error.message(),
        "configured tls.fullchain_path does not exist: /c"
    );
    let error = resolve_tls(&tls, &["/c".to_string()]).unwrap_err();
    assert!(matches!(error, TlsError::MissingPrivkey(_)));
    assert_eq!(
        error.message(),
        "configured tls.privkey_path does not exist: /k"
    );
}

#[test]
fn a_configuration_is_checked_and_prepared() {
    let mut config = app_config();
    config.tls = explicit(Some("/c"), Some("/k"));
    let files = ["/k".to_string(), "/c".to_string()];
    let prepared = prepare_config(
        config.clone(),
        Some("pw".into()),
        Some("tok".into()),
        &files,
    )
    .unwrap();
    assert_eq!(prepared.config.hostname, "smtp.example.com");
    assert_eq!(prepared.secrets.smtp_password, "pw");
    assert_eq!(
        summarize_tls(&prepared),
        "TLS enabled via cert=explicit-paths cert_path=/c key_path=/k"
    );

    let mut unsound = config.clone();
    unsound.hostname = " ".into();
    let error = prepare_config(unsound, None, None, &[]).unwrap_err();
    assert!(matches!(
        error,
        PrepareError::Config(ConfigError::EmptyHostname)
    ));
    assert_eq!(error.message(), "hostname must not be empty");

    let mut padded = config.clone();
    padded.senders.allowed_domains = vec![" @Example.com ".into()];
    let prepared =
        prepare_config(padded, Some("pw".into()), Some("tok".into()), &files).unwrap();
    assert_eq!(
        prepared.config.senders.allowed_domains,
        vec!["example.com"]
    );

    let error = prepare_config(config.clone(), None, Some("tok".into()), &[]).unwrap_err();
    assert!(matches!(
        error,
        PrepareError::Secrets(SecretsError::MissingPassword)
    ));
    let error = prepare_config(config, Some("pw".into()), Some("tok".into()), &[]).unwrap_err();
    assert_eq!(
        error.message(),
        "configured tls.fullchain_path does not exist: /c"
    );

    let plain = prepare_config(app_config(), Some("pw".into()), Some("tok".into()), &[]).unwrap();
    assert!(plain.tls.is_none());
    assert_eq!(
        summarize_tls(&plain),
        "TLS not found; only degraded plaintext port 25 will be usable unless allow_insecure_auth=true"
    );
}

#[test]
fn settings_have_defaults() {
    assert_eq!(default_appname(), "smtp2cf");
    assert_eq!(default_max_message_size(), 26_214_400);
    assert_eq!(default_max_recipients(), 50);
    assert_eq!(default_command_timeout_secs(), 300);
}
