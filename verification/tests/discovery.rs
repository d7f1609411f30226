use eddie::discovery::{
    apply_placeholders, autoconfig_urls, check_known_provider, detect_provider_from_mx, discovery_begin,
    discovery_from_client_config, discovery_step, discovery_target, exchange_autodiscover_urls, imap_probe_candidates,
    is_imap_greeting, is_smtp_greeting, mx_analysis, office365_autodiscover_url, parse_socket_type, parse_username_hint,
    probe_result, query_srv, srv_config, AuthMethod, AutodiscoveryError, ClientConfig, DiscoveryAction, DiscoveryResult,
    DiscoveryStage, EmailProvider, IncomingServer, MxRecord, OutgoingServer, Security, ServerConfig, SrvRecord,
    UsernameHint,
};

#[test]
fn gmail_is_a_known_provider() {
    let c = check_known_provider("me@gmail.com", "gmail.com").unwrap();
    assert_eq!(c.provider.as_deref(), Some("Gmail"));
    assert_eq!(c.imap.hostname, "imap.gmail.com");
    assert_eq!(c.imap.port, 993);
    assert_eq!(c.imap.security, Security::Tls);
    assert_eq!(c.smtp.hostname, "smtp.gmail.com");
    assert_eq!(c.smtp.port, 587);
    assert_eq!(c.smtp.security, Security::Starttls);
    assert_eq!(c.auth_method, AuthMethod::AppPassword);
    assert!(c.requires_app_password);
    assert_eq!(c.source, "known_provider");
    assert!(check_known_provider("me@example.org", "example.org").is_none());
}

#[test]
fn providers_recognised_by_mx() {
    let c = detect_provider_from_mx("aspmx.l.google.com", "acme.com").unwrap();
    assert_eq!(c.imap.hostname, "imap.gmail.com");
    let c = detect_provider_from_mx("acme-com.mail.protection.outlook.com", "acme.com").unwrap();
    assert_eq!(c.imap.hostname, "outlook.office365.com");
    assert!(detect_provider_from_mx("mx.unknown.example", "acme.com").is_none());
    let records = vec![
        MxRecord { exchange: "ALT1.ASPMX.L.GOOGLE.COM.".to_string(), preference: 20 },
        MxRecord { exchange: "mx.other.example.".to_string(), preference: 10 },
    ];
    match mx_analysis(&records, "acme.com") {
        Err(AutodiscoveryError::NotFound(m)) => assert_eq!(m, "Unknown provider for MX: mx.other.example"),
        _ => panic!("expected not found"),
    }
}

#[test]
fn placeholders_and_hints() {
    assert_eq!(apply_placeholders("%EMAILLOCALPART%@%EMAILDOMAIN%", "bob@acme.com", "x.com"), "bob@acme.com");
    assert_eq!(apply_placeholders("imap.%EMAILDOMAIN%", "bob", "acme.com"), "imap.acme.com");
    assert_eq!(parse_socket_type(Some("SSL")), Security::Tls);
    assert_eq!(parse_socket_type(Some("STARTTLS")), Security::Starttls);
    assert_eq!(parse_socket_type(Some("plain")), Security::Plain);
    assert_eq!(parse_socket_type(None), Security::Tls);
    assert!(matches!(parse_username_hint(Some("%EMAILLOCALPART%"), "bob@acme.com"), UsernameHint::LocalPart));
    assert!(matches!(parse_username_hint(Some("%EMAILADDRESS%"), "bob@acme.com"), UsernameHint::FullEmail));
    assert!(matches!(parse_username_hint(Some("acme\\%EMAILLOCALPART%"), "bob@acme.com"), UsernameHint::Custom(ref s) if s == "acme\\bob"));
}

fn server(ty: &str, host: &str, port: u16, socket: &str) -> (IncomingServer, OutgoingServer) {
    (
        IncomingServer {
            server_type: Some(ty.to_string()),
            hostname: Some(host.to_string()),
            port: Some(port),
            socket_type: Some(socket.to_string()),
            username: Some("%EMAILADDRESS%".to_string()),
            authentication: None,
        },
        OutgoingServer {
            server_type: Some("smtp".to_string()),
            hostname: Some(host.to_string()),
            port: Some(port),
            socket_type: Some(socket.to_string()),
            username: None,
            authentication: None,
        },
    )
}

#[test]
fn autoconfig_prefers_imap() {
    let (pop, _) = server("pop3", "pop.%EMAILDOMAIN%", 995, "SSL");
    let (imap, smtp) = server("imap", "imap.%EMAILDOMAIN%", 993, "SSL");
    let doc = ClientConfig {
        email_provider: Some(EmailProvider {
            id: Some("acme.com".to_string()),
            display_name: Some("Acme Mail".to_string()),
            display_short_name: None,
            incoming_servers: vec![pop, imap],
            outgoing_servers: vec![smtp],
        }),
    };
    let c = discovery_from_client_config(doc, "bob@acme.com", "acme.com").ok().unwrap();
    assert_eq!(c.imap.hostname, "imap.acme.com");
    assert_eq!(c.imap.port, 993);
    assert_eq!(c.provider.as_deref(), Some("Acme Mail"));
    assert_eq!(c.source, "autoconfig");
    let empty = ClientConfig { email_provider: None };
    assert!(discovery_from_client_config(empty, "bob@acme.com", "acme.com").is_err());
}

#[test]
fn urls_to_try() {
    let urls = autoconfig_urls("bob@acme.com", "acme.com");
    assert_eq!(urls[0], "https://autoconfig.thunderbird.net/v1.1/acme.com");
    assert_eq!(urls.len(), 5);
    assert_eq!(
        office365_autodiscover_url("bob@acme.com"),
        "https://outlook.office365.com/autodiscover/autodiscover.json?Email=bob@acme.com&Protocol=Ews"
    );
    assert_eq!(exchange_autodiscover_urls("bob@acme.com", "acme.com").len(), 2);
}

#[test]
fn srv_records_choose_the_lowest_priority() {
    let recs = vec![
        SrvRecord { target: "b.acme.com.".to_string(), priority: 20, port: 993 },
        SrvRecord { target: "a.acme.com.".to_string(), priority: 10, port: 993 },
    ];
    assert_eq!(query_srv(&recs), Some(("a.acme.com".to_string(), 993)));
    let none = vec![SrvRecord { target: ".".to_string(), priority: 0, port: 0 }];
    assert_eq!(query_srv(&none), None);
    let c = srv_config(Some(("mail.acme.com".to_string(), 993)), None, None, None, None).ok().unwrap();
    assert_eq!(c.smtp.hostname, "mail.acme.com");
    assert_eq!(c.smtp.port, 587);
    assert_eq!(c.smtp.security, Security::Starttls);
    assert!(srv_config(None, None, None, None, None).is_err());
}

#[test]
fn probing_candidates_and_greetings() {
    let imap = imap_probe_candidates("acme.com");
    assert_eq!(imap[0].hostname, "mail.acme.com");
    assert_eq!(imap[0].port, 993);
    assert_eq!(imap[1].port, 143);
    assert!(is_imap_greeting("* OK Dovecot ready."));
    assert!(is_imap_greeting("* PREAUTH hi"));
    assert!(!is_imap_greeting("220 smtp"));
    assert!(is_smtp_greeting("220 mail.acme.com ESMTP"));
    let s = ServerConfig { hostname: "mail.acme.com".to_string(), port: 143, security: Security::Starttls };
    let c = probe_result(Some(s), None).ok().unwrap();
    assert_eq!(c.smtp.hostname, "mail.acme.com");
    assert!(probe_result(None, None).is_err());
}

#[test]
fn stages_run_in_order_and_fail_after_probing() {
    let (email, domain) = discovery_target("  Bob@Acme.COM ").ok().unwrap();
    assert_eq!(email, "bob@acme.com");
    assert_eq!(domain, "acme.com");
    assert!(matches!(discovery_target("no-at-sign"), Err(AutodiscoveryError::InvalidEmail(_))));
    let mut stages = vec![];
    let mut action = discovery_begin();
    loop {
        match action {
            DiscoveryAction::Run(stage, p) => {
                stages.push((stage, p.progress));
                action = discovery_step(stage, None, &domain);
            }
            DiscoveryAction::Fail(e) => {
                assert!(matches!(e, AutodiscoveryError::NotFound(ref d) if d == "acme.com"));
                break;
            }
            DiscoveryAction::Finish(_, _) => panic!("nothing was found"),
        }
    }
    assert_eq!(
        stages,
        vec![
            (DiscoveryStage::KnownProvider, 10),
            (DiscoveryStage::Autoconfig, 25),
            (DiscoveryStage::Autodiscover, 40),
            (DiscoveryStage::Srv, 55),
            (DiscoveryStage::Mx, 70),
            (DiscoveryStage::Probing, 85),
        ]
    );
    let found = check_known_provider("x@gmail.com", "gmail.com");
    match discovery_step(DiscoveryStage::KnownProvider, found, "gmail.com") {
        DiscoveryAction::Finish(c, p) => {
            assert_eq!(p.progress, 100);
            assert_eq!(p.message, "Found configuration for Gmail");
            let r = DiscoveryResult::from(c);
            assert!(r.imap_tls);
            assert!(!r.smtp_tls);
            assert_eq!(r.auth_method, "app_password");
            assert_eq!(r.username_hint, "full_email");
        }
        _ => panic!("expected to finish"),
    }
}
