use pingate::routes::{normalize_host, Route, RouteError, RouteSelection, RouteTable, Upstream};

fn upstream(addr: &str) -> Upstream {
    Upstream { addr: addr.into() }
}

fn route(host: &str, addrs: &[&str]) -> Route {
    Route {
        host: host.into(),
        upstreams: addrs.iter().map(|addr| upstream(addr)).collect(),
    }
}

fn invalid(host: &str) -> Result<String, RouteError> {
    Err(RouteError::InvalidHost(host.into()))
}

#[test]
fn normalizes_hosts_for_lookup() {
    assert_eq!(
        normalize_host("API.localhost:8080"),
        Ok("api.localhost".into())
    );
}

#[test]
fn rejects_invalid_hosts() {
    assert_eq!(
        normalize_host("http://api.localhost"),
        Err(RouteError::InvalidHost("http://api.localhost".into()))
    );
    assert_eq!(
        normalize_host("bad_host.localhost"),
        Err(RouteError::InvalidHost("bad_host.localhost".into()))
    );
}

#[test]
fn selects_upstreams_round_robin() {
    let mut table = RouteTable::default();
    table
        .replace(vec![Route {
            host: "api.localhost".into(),
            upstreams: vec![
                Upstream {
                    addr: "172.18.0.2:8000".into(),
                },
                Upstream {
                    addr: "172.18.0.3:8000".into(),
                },
            ],
        }])
        .unwrap();

    let selected = |selection| match selection {
        RouteSelection::Available(upstream) => upstream.addr,
        other => panic!("expected available route, got {other:?}"),
    };
    assert_eq!(selected(table.select("api.localhost")), "172.18.0.2:8000");
    assert_eq!(selected(table.select("api.localhost")), "172.18.0.3:8000");
    assert_eq!(selected(table.select("api.localhost")), "172.18.0.2:8000");
}

#[test]
fn distinguishes_unknown_and_temporarily_unavailable_routes() {
    let mut table = RouteTable::default();
    table
        .replace(vec![Route {
            host: "api.localhost".into(),
            upstreams: vec![],
        }])
        .unwrap();

    assert_eq!(table.select("api.localhost"), RouteSelection::Unavailable);
    assert_eq!(table.select("unknown.localhost"), RouteSelection::Unknown);
}

#[test]
fn empty_hosts_are_told_apart_from_invalid_ones() {
    assert_eq!(normalize_host(""), Err(RouteError::EmptyHost));
    assert_eq!(normalize_host(" \t\u{a0}\u{3000} "), Err(RouteError::EmptyHost));
    assert_eq!(normalize_host(":80"), Err(RouteError::EmptyHost));
    assert_eq!(normalize_host("[]"), Err(RouteError::EmptyHost));
    assert_eq!(RouteError::EmptyHost.to_string(), "host is required");
    assert_eq!(
        RouteError::InvalidHost("a_b".into()).to_string(),
        "invalid host `a_b`"
    );
}

#[test]
fn outer_space_case_and_port_make_no_difference() {
    for host in ["a.b", " a.b\n", "A.B", "a.B:1", "a.b:65535", "a.b:+80", "a.b:007", "[a.b]:x"] {
        assert_eq!(normalize_host(host), Ok("a.b".into()), "{host}");
    }
}

#[test]
fn only_a_port_number_is_cut_off() {
    assert_eq!(normalize_host("a.b:65536"), invalid("a.b:65536"));
    assert_eq!(normalize_host("a.b:"), invalid("a.b:"));
    assert_eq!(normalize_host("a.b:-1"), invalid("a.b:-1"));
    assert_eq!(normalize_host("a.b:8 0"), invalid("a.b:8 0"));
    assert_eq!(normalize_host("a:b:80"), invalid("a:b:80"));
    assert_eq!(normalize_host("[::1]:80"), invalid("::1"));
    assert_eq!(normalize_host("[::1"), invalid("[::1"));
}

#[test]
fn labels_are_letters_digits_and_inner_hyphens() {
    assert_eq!(normalize_host("x-1.Y--2.3"), Ok("x-1.y--2.3".into()));
    for host in ["-a", "a-", "a..b", ".a", "a.", "a b", "*.a", "a/b", "a\\b", "\u{e9}.a", "a.-b"] {
        assert_eq!(normalize_host(host), invalid(host), "{host}");
    }
    // Only ASCII letters change their case.
    assert_eq!(normalize_host("\u{c9}A"), invalid("\u{c9}a"));
}

#[test]
fn normalizing_twice_is_normalizing_once() {
    for host in ["API.localhost:8080", " [A-1.b]:9 ", "x"] {
        let once = normalize_host(host).unwrap();
        assert_eq!(normalize_host(&once), Ok(once));
    }
}

#[test]
fn one_invalid_host_leaves_the_table_as_it_was() {
    let mut table = RouteTable::default();
    assert_eq!(table.len(), 0);
    table.replace(vec![route("a.b", &["1.1.1.1:1"])]).unwrap();
    assert_eq!(
        table.replace(vec![
            route("c.d", &["2.2.2.2:2"]),
            route("bad_host", &[]),
            route("", &[]),
        ]),
        Err(RouteError::InvalidHost("bad_host".into()))
    );
    assert_eq!(table.len(), 1);
    assert_eq!(table.select("c.d"), RouteSelection::Unknown);
    assert_eq!(
        table.select("a.b"),
        RouteSelection::Available(upstream("1.1.1.1:1"))
    );
}

#[test]
fn the_last_route_for_a_host_counts() {
    let mut table = RouteTable::default();
    table
        .replace(vec![
            route("a.b", &["1.1.1.1:1"]),
            route("c", &[]),
            route("A.B:80", &["2.2.2.2:2"]),
        ])
        .unwrap();
    assert_eq!(table.len(), 2);
    assert_eq!(
        table.select(" a.B:9 "),
        RouteSelection::Available(upstream("2.2.2.2:2"))
    );
    assert_eq!(table.select("c"), RouteSelection::Unavailable);
}

#[test]
fn replacing_starts_every_round_again() {
    let mut table = RouteTable::default();
    let routes = || vec![route("a", &["1:1", "2:2", "3:3"])];
    table.replace(routes()).unwrap();
    assert_eq!(table.select("a"), RouteSelection::Available(upstream("1:1")));
    assert_eq!(table.select("a"), RouteSelection::Available(upstream("2:2")));
    table.replace(routes()).unwrap();
    assert_eq!(table.select("a"), RouteSelection::Available(upstream("1:1")));
    table.replace(vec![]).unwrap();
    assert_eq!(table.select("a"), RouteSelection::Unknown);
}

#[test]
fn a_round_reaches_each_upstream_once_and_hosts_do_not_disturb_each_other() {
    let mut table = RouteTable::default();
    table
        .replace(vec![
            route("a", &["1:1", "2:2", "3:3"]),
            route("b", &["4:4", "5:5"]),
        ])
        .unwrap();
    let mut seen = Vec::new();
    for _ in 0..6 {
        if let RouteSelection::Available(chosen) = table.select("a") {
            seen.push(chosen.addr);
        }
        assert_eq!(table.select("none"), RouteSelection::Unknown);
        assert_eq!(table.select("bad_host"), RouteSelection::Unknown);
    }
    assert_eq!(seen, ["1:1", "2:2", "3:3", "1:1", "2:2", "3:3"]);
    assert_eq!(table.select("b"), RouteSelection::Available(upstream("4:4")));
}

#[test]
fn hosts_join_to_a_valid_host_where_both_are_valid() {
    let valid = |host: &str| normalize_host(host).as_deref() == Ok(host);
    let hosts = ["a", "a.b", "x-1.y", "", ".", "a.", ".a", "-a", "a-", "a_b", "a..b", "*"];
    for left in hosts {
        for right in hosts {
            let joined = format!("{left}.{right}");
            assert_eq!(valid(&joined), valid(left) && valid(right), "{joined}");
        }
    }
}
