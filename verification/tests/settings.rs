use std::collections::HashMap;

use pingate::net::SocketAddr;
use pingate::settings::{Environment, Mode, Settings, SettingsError, DEFAULT_DOCKER_HOST};

/// Reads an IPv4 address with a port, and no other address.
fn parse_addr(text: &str) -> Option<SocketAddr> {
    let (ip, port) = text.split_once(':')?;
    let octets = ip
        .split('.')
        .map(|part| part.parse::<u8>().ok())
        .collect::<Option<Vec<_>>>()?;
    if octets.len() != 4 {
        return None;
    }
    Some(SocketAddr::V4 {
        ip: ip.into(),
        port: port.parse().ok()?,
    })
}

fn settings(values: &[(&str, &str)]) -> Result<Settings, SettingsError> {
    let values = values
        .iter()
        .map(|(key, value)| (key.to_string(), value.to_string()))
        .collect::<HashMap<_, _>>();
    Settings::from_lookup(|key: &str| values.get(key).cloned(), parse_addr)
}

fn error(values: &[(&str, &str)]) -> String {
    settings(values).unwrap_err().to_string()
}

/// The error of a compose environment with one more variable.
fn compose_error(key: &str, value: &str) -> String {
    error(&[("PINGATE_MODE", "compose"), (key, value)])
}

#[test]
fn requires_mode() {
    assert_eq!(
        settings(&[]).unwrap_err().to_string(),
        "PINGATE_MODE is required"
    );
}

#[test]
fn loads_compose_defaults() {
    let settings = settings(&[("PINGATE_MODE", "compose")]).unwrap();
    assert_eq!(settings.mode, Mode::Compose);
    assert_eq!(settings.server.listen_addr.port(), 6198);
    assert_eq!(settings.server.admin_listen_addr.port(), 6197);
    assert_eq!(settings.docker.host, DEFAULT_DOCKER_HOST);
}

#[test]
fn parses_static_upstream_list() {
    let settings = settings(&[
        ("PINGATE_MODE", "static"),
        ("PINGATE_STATIC_UPSTREAMS", "127.0.0.1:8000, 127.0.0.1:8001"),
    ])
    .unwrap();
    assert_eq!(settings.static_upstreams.addresses.len(), 2);
}

#[test]
fn rejects_static_mode_without_upstreams() {
    assert_eq!(
        settings(&[("PINGATE_MODE", "static")])
            .unwrap_err()
            .to_string(),
        "PINGATE_STATIC_UPSTREAMS is required in static mode"
    );
}

#[test]
fn rejects_identical_listeners() {
    let error = settings(&[
        ("PINGATE_MODE", "compose"),
        ("PINGATE_LISTEN_ADDR", "127.0.0.1:7000"),
        ("PINGATE_ADMIN_LISTEN_ADDR", "127.0.0.1:7000"),
    ])
    .unwrap_err();
    assert!(error.to_string().contains("must differ"));
}

#[test]
fn rejects_incomplete_docker_client_certificate() {
    let error = settings(&[
        ("PINGATE_MODE", "swarm"),
        ("PINGATE_DOCKER_TLS_CERT_PATH", "/cert.pem"),
    ])
    .unwrap_err();
    assert!(error.to_string().contains("must be supplied together"));
}

#[test]
fn rejects_unsupported_docker_host_scheme() {
    let error = settings(&[
        ("PINGATE_MODE", "compose"),
        ("PINGATE_DOCKER_HOST", "ssh://manager"),
    ])
    .unwrap_err();
    assert!(error
        .to_string()
        .contains("must use unix://, http://, or https://"));
}

#[test]
fn the_remaining_defaults_hold() {
    let settings = settings(&[("PINGATE_MODE", "swarm")]).unwrap();
    assert_eq!(settings.mode, Mode::Swarm);
    assert_eq!(settings.server.listen_addr.to_string(), "0.0.0.0:6198");
    assert_eq!(settings.server.admin_listen_addr.to_string(), "0.0.0.0:6197");
    assert!(settings.static_upstreams.addresses.is_empty());
    assert_eq!(settings.static_upstreams.health_check_interval_seconds, 5);
    assert!(!settings.static_upstreams.upstream_tls);
    assert_eq!(settings.static_upstreams.upstream_sni, "");
    assert_eq!(settings.docker.reconnect_interval_seconds, 2);
    assert_eq!(settings.docker.resync_interval_seconds, 30);
    assert_eq!(settings.docker.default_network, None);
    assert_eq!(settings.docker.tls_ca_path, None);
    assert_eq!(settings.docker.tls_cert_path, None);
    assert_eq!(settings.docker.tls_key_path, None);
}

#[test]
fn every_variable_is_read() {
    let settings = settings(&[
        ("PINGATE_MODE", "sTaTiC"),
        ("PINGATE_LISTEN_ADDR", "10.0.0.1:80"),
        ("PINGATE_ADMIN_LISTEN_ADDR", "10.0.0.1:81"),
        ("PINGATE_STATIC_UPSTREAMS", ",1.2.3.4:5 ,, 6.7.8.9:10,"),
        ("PINGATE_STATIC_HEALTH_CHECK_INTERVAL_SECONDS", "+007"),
        ("PINGATE_STATIC_UPSTREAM_TLS", "YES"),
        ("PINGATE_STATIC_UPSTREAM_SNI", " name "),
        ("PINGATE_DOCKER_HOST", "https://docker:2376"),
        ("PINGATE_DOCKER_RECONNECT_INTERVAL_SECONDS", "18446744073709551615"),
        ("PINGATE_DOCKER_RESYNC_INTERVAL_SECONDS", "60"),
        ("PINGATE_DOCKER_DEFAULT_NETWORK", " public "),
        ("PINGATE_DOCKER_TLS_CA_PATH", " /ca.pem"),
        ("PINGATE_DOCKER_TLS_CERT_PATH", "/cert.pem "),
        ("PINGATE_DOCKER_TLS_KEY_PATH", "/key.pem"),
    ])
    .unwrap();
    assert_eq!(settings.mode, Mode::Static);
    assert_eq!(settings.server.listen_addr.to_string(), "10.0.0.1:80");
    assert_eq!(settings.server.admin_listen_addr.to_string(), "10.0.0.1:81");
    let addresses = settings
        .static_upstreams
        .addresses
        .iter()
        .map(|addr| addr.to_string())
        .collect::<Vec<_>>();
    assert_eq!(addresses, ["1.2.3.4:5", "6.7.8.9:10"]);
    assert_eq!(settings.static_upstreams.health_check_interval_seconds, 7);
    assert!(settings.static_upstreams.upstream_tls);
    assert_eq!(settings.static_upstreams.upstream_sni, " name ");
    assert_eq!(settings.docker.host, "https://docker:2376");
    assert_eq!(settings.docker.reconnect_interval_seconds, u64::MAX);
    assert_eq!(settings.docker.resync_interval_seconds, 60);
    assert_eq!(settings.docker.default_network.as_deref(), Some("public"));
    assert_eq!(settings.docker.tls_ca_path.as_deref(), Some("/ca.pem"));
    assert_eq!(settings.docker.tls_cert_path.as_deref(), Some("/cert.pem"));
    assert_eq!(settings.docker.tls_key_path.as_deref(), Some("/key.pem"));
}

#[test]
fn modes_are_told_in_any_case_and_nothing_else() {
    assert_eq!(error(&[("PINGATE_MODE", " \t")]), "PINGATE_MODE is required");
    assert_eq!(
        error(&[("PINGATE_MODE", "Kubernetes")]),
        "PINGATE_MODE must be static, compose, or swarm; got `kubernetes`"
    );
    assert_eq!(
        error(&[("PINGATE_MODE", " Swarm ")]),
        "PINGATE_MODE must be static, compose, or swarm; got ` swarm `"
    );
    assert_eq!(settings(&[("PINGATE_MODE", "SWARM")]).unwrap().mode, Mode::Swarm);
}

#[test]
fn addresses_that_are_none_are_told() {
    assert_eq!(
        compose_error("PINGATE_LISTEN_ADDR", "localhost"),
        "PINGATE_LISTEN_ADDR must be a socket address, got `localhost`"
    );
    assert_eq!(
        compose_error("PINGATE_ADMIN_LISTEN_ADDR", ""),
        "PINGATE_ADMIN_LISTEN_ADDR must be a socket address, got ``"
    );
    assert_eq!(
        compose_error("PINGATE_STATIC_UPSTREAMS", "1.2.3.4:5, b:1 ,c:2"),
        "PINGATE_STATIC_UPSTREAMS must be a socket address, got `b:1`"
    );
    assert_eq!(
        compose_error("PINGATE_STATIC_UPSTREAMS", " , ,"),
        "PINGATE_STATIC_UPSTREAMS must contain at least one address"
    );
    assert_eq!(
        compose_error("PINGATE_LISTEN_ADDR", "0.0.0.0:6197"),
        "PINGATE_LISTEN_ADDR and PINGATE_ADMIN_LISTEN_ADDR must differ"
    );
}

#[test]
fn intervals_are_positive_integers() {
    for key in [
        "PINGATE_STATIC_HEALTH_CHECK_INTERVAL_SECONDS",
        "PINGATE_DOCKER_RECONNECT_INTERVAL_SECONDS",
        "PINGATE_DOCKER_RESYNC_INTERVAL_SECONDS",
    ] {
        for value in ["0", "", "+", "-1", " 1", "1.5", "18446744073709551616"] {
            assert_eq!(
                compose_error(key, value),
                format!("{key} must be a positive integer")
            );
        }
    }
}

#[test]
fn switches_are_told_in_any_case() {
    let key = "PINGATE_STATIC_UPSTREAM_TLS";
    for (value, meaning) in [
        ("true", true),
        ("1", true),
        ("yes", true),
        ("On", true),
        ("FALSE", false),
        ("0", false),
        ("No", false),
        ("off", false),
    ] {
        let settings = settings(&[("PINGATE_MODE", "compose"), (key, value)]).unwrap();
        assert_eq!(settings.static_upstreams.upstream_tls, meaning);
    }
    assert_eq!(
        compose_error(key, "Maybe"),
        "PINGATE_STATIC_UPSTREAM_TLS must be true or false, got `Maybe`"
    );
}

#[test]
fn docker_endpoints_have_a_known_scheme() {
    for host in ["unix://", "http://a", "https://b"] {
        let settings =
            settings(&[("PINGATE_MODE", "compose"), ("PINGATE_DOCKER_HOST", host)]).unwrap();
        assert_eq!(settings.docker.host, host);
    }
    for host in ["", "tcp://a", "UNIX://a", " unix://a"] {
        assert_eq!(
            compose_error("PINGATE_DOCKER_HOST", host),
            "PINGATE_DOCKER_HOST must use unix://, http://, or https://"
        );
    }
}

#[test]
fn tls_paths_come_together_or_not_at_all() {
    let keys = [
        "PINGATE_DOCKER_TLS_CA_PATH",
        "PINGATE_DOCKER_TLS_CERT_PATH",
        "PINGATE_DOCKER_TLS_KEY_PATH",
    ];
    for mask in 0..8_usize {
        let mut values = vec![("PINGATE_MODE", "swarm")];
        for (i, key) in keys.iter().enumerate() {
            values.push((key, if (mask >> i) % 2 == 1 { "/file" } else { "  " }));
        }
        let result = settings(&values);
        if mask == 0 || mask == 7 {
            let settings = result.unwrap();
            assert_eq!(settings.docker.tls_ca_path.is_some(), mask == 7);
            assert_eq!(settings.docker.tls_cert_path.is_some(), mask == 7);
            assert_eq!(settings.docker.tls_key_path.is_some(), mask == 7);
        } else {
            assert_eq!(
                result.unwrap_err().to_string(),
                "PINGATE_DOCKER_TLS_CA_PATH, PINGATE_DOCKER_TLS_CERT_PATH, and \
                 PINGATE_DOCKER_TLS_KEY_PATH must be supplied together"
            );
        }
    }
}

#[test]
fn the_first_error_is_told() {
    assert_eq!(
        error(&[
            ("PINGATE_MODE", "nope"),
            ("PINGATE_LISTEN_ADDR", "nope"),
            ("PINGATE_DOCKER_HOST", "nope"),
        ]),
        "PINGATE_MODE must be static, compose, or swarm; got `nope`"
    );
    assert_eq!(
        error(&[
            ("PINGATE_MODE", "static"),
            ("PINGATE_STATIC_UPSTREAM_TLS", "nope"),
            ("PINGATE_DOCKER_HOST", "nope"),
        ]),
        "PINGATE_STATIC_UPSTREAMS is required in static mode"
    );
    assert_eq!(
        compose_error("PINGATE_DOCKER_TLS_CA_PATH", "/ca"),
        "PINGATE_DOCKER_TLS_CA_PATH, PINGATE_DOCKER_TLS_CERT_PATH, and \
         PINGATE_DOCKER_TLS_KEY_PATH must be supplied together"
    );
}

#[test]
fn an_environment_tells_the_texts_of_its_addresses() {
    let env = Environment::read(&|key: &str| match key {
        "PINGATE_MODE" => Some("static".to_string()),
        "PINGATE_ADMIN_LISTEN_ADDR" => Some("here".to_string()),
        "PINGATE_STATIC_UPSTREAMS" => Some(" a ,,b".to_string()),
        _ => None,
    });
    assert_eq!(env.listen_text(), "0.0.0.0:6198");
    assert_eq!(env.admin_text(), "here");
    assert_eq!(env.upstream_texts(), ["a", "b"]);
    let addr = |port: u16| SocketAddr::V4 {
        ip: "9.9.9.9".into(),
        port,
    };
    let settings = Settings::from_environment(
        &env,
        Some(addr(1)),
        Some(addr(2)),
        vec![Some(addr(3)), Some(addr(4))],
    )
    .unwrap();
    assert_eq!(settings.mode, Mode::Static);
    assert_eq!(settings.static_upstreams.addresses, [addr(3), addr(4)]);
    assert_eq!(
        Settings::from_environment(&env, Some(addr(1)), None, vec![None, None])
            .unwrap_err()
            .to_string(),
        "PINGATE_ADMIN_LISTEN_ADDR must be a socket address, got `here`"
    );
}

#[test]
fn optional_settings_are_trimmed_once_and_for_all() {
    let network = |value: &str| {
        settings(&[
            ("PINGATE_MODE", "compose"),
            ("PINGATE_DOCKER_DEFAULT_NETWORK", value),
        ])
        .unwrap()
        .docker
        .default_network
    };
    assert_eq!(network(""), None);
    assert_eq!(network(" \t\u{2003}"), None);
    for value in ["net", " net", "net\n", "\u{a0}a b "] {
        let once = network(value).unwrap();
        assert_eq!(once, value.trim());
        assert_eq!(network(&once), Some(once));
    }
}
