use smtp2cf::config::{
    AppConfig, AuthConfig, CloudflareConfig, PortsConfig, QueueConfig, SenderConfig, TlsSettings,
};
use smtp2cf::smtp_server::{
    addresses_allowed, admit_email, build_server_config, ensure_header_from_allowed,
    first_header_value, handle_auth, handle_rcpt, listeners, reply_to_email, validate_pre_data,
    AddressEntry, AuthMach, FromHeaderError, HeaderField, Reply, ServerConfigError, ServerKind,
    Session, TlsMode,
};

fn app_config() -> AppConfig {
    AppConfig {
        hostname: "smtp.example.com".into(),
        appname: "smtp2cf".into(),
        max_message_size: 1024,
        max_recipients: 10,
        command_timeout_secs: 10,
        ports: PortsConfig {
            smtp_25: "127.0.0.1:25".into(),
            submission_587: "127.0.0.1:587".into(),
            smtps_465: "127.0.0.1:465".into(),
        },
        auth: AuthConfig {
            username: "relay@example.com".into(),
        },
        senders: SenderConfig {
            allowed_domains: vec!["example.com".into()],
        },
        cloudflare: CloudflareConfig {
            account_id: "abc".into(),
        },
        tls: TlsSettings {
            cert_name: None,
            fullchain_path: None,
            privkey_path: None,
            allow_insecure_auth: false,
        },
        queue: QueueConfig {
            spool_dir: "/tmp".into(),
            max_attempts: 3,
            backoff_initial_secs: 1,
            backoff_max_secs: 2,
            poll_interval_secs: 1,
        },
    }
}

fn session(authenticated: bool, tls: bool, from: &str) -> Session {
    Session {
        authenticated,
        tls,
        from: from.into(),
        to: vec!["to@example.net".into()],
    }
}

fn refused(status: usize, message: &str, rfc: &str) -> Reply {
    Reply::Custom {
        status,
        message: message.into(),
        rfc: Some(rfc.into()),
    }
}

#[test]
fn validates_header_from_domains() {
    let raw = b"From: Sender <sender@example.com>\r\nTo: to@example.net\r\n\r\nHello";
    ensure_header_from_allowed(&["example.com".to_string()], raw).unwrap();
    assert!(ensure_header_from_allowed(&["other.com".to_string()], raw).is_err());
}

#[test]
fn port_25_without_tls_and_without_override_is_rejected() {
    let config = app_config();

    let smtp_config = build_server_config::<()>(&config, ServerKind::Port25, None).unwrap();
    assert!(smtp_config.auth_machs.is_empty());
}

#[test]
fn listeners_are_set_up() {
    let mut config = app_config();
    let plain = build_server_config::<u8>(&config, ServerKind::Port25, None).unwrap();
    assert_eq!(plain.hostname, "smtp.example.com");
    assert_eq!(plain.appname, "smtp2cf");
    assert_eq!(plain.bind_addr, "127.0.0.1:25");
    assert!(matches!(plain.tls_mode, TlsMode::Disabled));
    assert_eq!(plain.max_message_size, Some(1024));
    assert_eq!(plain.max_recipients, 10);
    assert_eq!(plain.timeout_secs, 10);
    assert!(!plain.require_auth);
    assert!(plain.disable_reverse_dns);
    assert!(plain.x_client_allowed.is_none());

    let upgradable = build_server_config(&config, ServerKind::Port25, Some(7u8)).unwrap();
    assert!(matches!(upgradable.tls_mode, TlsMode::Explicit(7)));
    assert!(upgradable.auth_machs.is_empty());

    let submission = build_server_config(&config, ServerKind::Submission587, Some(7u8)).unwrap();
    assert!(matches!(submission.tls_mode, TlsMode::Required(7)));
    assert_eq!(submission.auth_machs, vec![AuthMach::Plain, AuthMach::Login]);
    assert_eq!(submission.bind_addr, "127.0.0.1:587");
    assert!(submission.require_auth);

    let smtps = build_server_config(&config, ServerKind::Smtps465, Some(7u8)).unwrap();
    assert!(matches!(smtps.tls_mode, TlsMode::Implicit(7)));
    assert_eq!(smtps.auth_machs, vec![AuthMach::Plain, AuthMach::Login]);
    assert_eq!(smtps.bind_addr, "127.0.0.1:465");
    assert!(smtps.require_auth);

    config.tls.allow_insecure_auth = true;
    let insecure = build_server_config::<u8>(&config, ServerKind::Port25, None).unwrap();
    assert_eq!(insecure.auth_machs, vec![AuthMach::Plain, AuthMach::Login]);
    assert!(!insecure.require_auth);
}

#[test]
fn two_listeners_need_tls() {
    let config = app_config();
    let error = build_server_config::<u8>(&config, ServerKind::Submission587, None).unwrap_err();
    assert_eq!(error, ServerConfigError::SubmissionNeedsTls);
    assert_eq!(error.message(), "submission port requires TLS");
    let error = build_server_config::<u8>(&config, ServerKind::Smtps465, None).unwrap_err();
    assert_eq!(error, ServerConfigError::SmtpsNeedsTls);
    assert_eq!(error.message(), "SMTPS port requires TLS");
}

#[test]
fn started_listeners_can_be_set_up() {
    let config = app_config();
    assert_eq!(listeners(false), vec![ServerKind::Port25]);
    assert_eq!(
        listeners(true),
        vec![
            ServerKind::Port25,
            ServerKind::Submission587,
            ServerKind::Smtps465
        ]
    );
    for tls in [None, Some(1u8)] {
        for kind in listeners(tls.is_some()) {
            assert!(build_server_config(&config, kind, tls).is_ok());
        }
    }
}

#[test]
fn listeners_have_addresses_and_labels() {
    let config = app_config();
    let cases = [
        (ServerKind::Port25, "127.0.0.1:25", "smtp-25"),
        (ServerKind::Submission587, "127.0.0.1:587", "submission-587"),
        (ServerKind::Smtps465, "127.0.0.1:465", "smtps-465"),
    ];
    for (kind, addr, label) in cases {
        assert_eq!(kind.bind_addr(&config), addr);
        assert_eq!(kind.label(), label);
    }
}

#[test]
fn credentials_are_compared() {
    let config = app_config();
    assert_eq!(
        handle_auth(&config, "pw", "relay@example.com", "pw"),
        Ok(Reply::Default)
    );
    let invalid = refused(535, "Authentication credentials invalid", "5.7.8");
    for (username, password) in [
        ("relay@example.com", "PW"),
        ("Relay@example.com", "pw"),
        ("", ""),
    ] {
        assert_eq!(
            handle_auth(&config, "pw", username, password),
            Err(invalid.clone())
        );
    }
}

#[test]
fn senders_are_checked_before_data() {
    let mut config = app_config();
    let from = "sender@example.com";
    assert_eq!(
        validate_pre_data(&config, ServerKind::Smtps465, &session(false, true, from)),
        Some(refused(530, "Authentication required", "5.7.0"))
    );
    assert_eq!(
        validate_pre_data(&config, ServerKind::Port25, &session(true, false, from)),
        Some(refused(
            530,
            "Port 25 does not accept authenticated submission without TLS",
            "5.7.0"
        ))
    );
    assert_eq!(
        handle_rcpt(&config, ServerKind::Port25, &session(true, true, "a@other.com")),
        Err(refused(553, "Sender domain not allowed", "5.7.1"))
    );
    assert_eq!(
        handle_rcpt(&config, ServerKind::Port25, &session(true, true, from)),
        Ok(Reply::Default)
    );
    assert_eq!(
        validate_pre_data(&config, ServerKind::Submission587, &session(true, false, from)),
        None
    );
    config.tls.allow_insecure_auth = true;
    assert_eq!(
        validate_pre_data(&config, ServerKind::Port25, &session(true, false, from)),
        None
    );
}

#[test]
fn the_first_header_of_a_name_counts() {
    let field = |name: &str, value: &str| HeaderField {
        name: name.into(),
        value: value.into(),
    };
    let fields = [field("To", "t"), field("FROM", "first"), field("From", "second")];
    assert_eq!(first_header_value(&fields, "From"), Some("first"));
    assert_eq!(first_header_value(&fields, "from"), Some("first"));
    assert_eq!(first_header_value(&fields, "Subject"), None);
    assert_eq!(first_header_value(&[], "From"), None);
}

#[test]
fn every_listed_address_counts() {
    let allowed = ["example.com".to_string()];
    let single = |address: &str| AddressEntry::Single(address.into());
    let group = |addresses: &[&str]| {
        AddressEntry::Group(addresses.iter().map(|address| address.to_string()).collect())
    };
    assert!(addresses_allowed(&allowed, &[]));
    assert!(addresses_allowed(
        &allowed,
        &[single("a@example.com"), group(&[]), group(&["b@EXAMPLE.com"])]
    ));
    assert!(!addresses_allowed(
        &allowed,
        &[single("a@example.com"), single("b@other.com")]
    ));
    assert!(!addresses_allowed(
        &allowed,
        &[group(&["a@example.com", "b@other.com"]), single("c@example.com")]
    ));
}

#[test]
fn from_headers_are_read() {
    let allowed = ["example.com".to_string()];
    let check = |raw: &[u8]| ensure_header_from_allowed(&allowed, raw);
    assert_eq!(check(b"fRoM: a@example.com\r\n\r\n"), Ok(()));
    assert_eq!(
        check(b"From: a@example.com\r\nFrom: b@other.com\r\n\r\n"),
        Ok(())
    );
    assert_eq!(
        check(b"From: =?utf-8?q?Gr=C3=BCn?= <a@example.com>,\r\n b@example.com\r\n\r\n"),
        Ok(())
    );
    assert_eq!(
        check(b"From: a@example.com, b@other.com\r\n\r\n"),
        Err(FromHeaderError::DomainNotAllowed)
    );
    assert_eq!(
        check(b"From: friends: a@example.com, b@other.com;\r\n\r\n"),
        Err(FromHeaderError::DomainNotAllowed)
    );
    assert_eq!(
        check(b"To: a@example.com\r\n\r\nFrom: a@example.com"),
        Err(FromHeaderError::Missing)
    );
    assert_eq!(
        check(b"From: <a@example.com\r\n\r\n"),
        Err(FromHeaderError::UnreadableAddress)
    );
    assert_eq!(
        check(b" : folded first"),
        Err(FromHeaderError::UnreadableHeaders)
    );
    let cases = [
        (
            FromHeaderError::UnreadableHeaders,
            "failed to parse RFC 5322 headers",
        ),
        (FromHeaderError::Missing, "missing From header"),
        (
            FromHeaderError::UnreadableAddress,
            "failed to parse From header address",
        ),
        (
            FromHeaderError::DomainNotAllowed,
            "From header domain is not allowed",
        ),
    ];
    for (error, words) in cases {
        assert_eq!(error.message(), words);
    }
}

#[test]
fn messages_are_admitted() {
    let config = app_config();
    let good: &[u8] = b"From: a@example.com\r\n\r\nHello";
    let foreign: &[u8] = b"From: a@other.com\r\n\r\nHello";
    let from = "sender@example.com";
    let kind = ServerKind::Smtps465;
    assert_eq!(
        admit_email(&config, kind, &session(true, true, from), good),
        Ok(())
    );
    assert_eq!(
        admit_email(&config, kind, &session(true, true, from), foreign),
        Err(refused(553, "From header domain is not allowed", "5.7.1"))
    );
    assert_eq!(
        admit_email(&config, kind, &session(false, true, from), foreign),
        Err(refused(530, "Authentication required", "5.7.0"))
    );
    assert_eq!(
        admit_email(&config, kind, &session(true, true, from), b"Subject: x\r\n\r\n"),
        Err(refused(553, "missing From header", "5.7.1"))
    );
}

#[test]
fn spooled_messages_are_acknowledged() {
    assert_eq!(
        reply_to_email(Ok("1-2-3".into())),
        Ok(Reply::Accepted("queued as <1-2-3>".into()))
    );
    assert_eq!(
        reply_to_email(Err("disk full".into())),
        Err(refused(451, "Failed to spool message: disk full", "4.3.0"))
    );
}
