use pingate::docker::{
    container_is_healthy, container_name, container_outcome, is_running_task, label_enabled,
    route_from_container, route_metadata, routes_from_containers, routes_from_services,
    service_outcomes, tasks_hostname, Container, ContainerOutcome, ContainerState,
    DockerRouteError, Endpoint, EndpointAddress, HealthStatus, Service, ServiceOutcome, Task,
    TaskState, ENABLE_LABEL, HOST_LABEL, NETWORK_LABEL, PORT_LABEL,
};
use pingate::groups::{grouped_routes, HostGroups};
use pingate::names::Named;
use pingate::net::{IpAddr, SocketAddr};
use pingate::routes::{Route, RouteError, RouteTable, Upstream};

fn named(values: &[(&str, &str)]) -> Named<String> {
    let mut names = Named::new();
    for (name, value) in values {
        names.insert(name.to_string(), value.to_string());
    }
    names
}

fn address(text: &str) -> EndpointAddress {
    let ip = if text.contains(':') {
        Some(IpAddr::V6(text.into()))
    } else if text.split('.').count() == 4 {
        Some(IpAddr::V4(text.into()))
    } else {
        None
    };
    EndpointAddress {
        text: text.into(),
        ip,
    }
}

fn endpoint(ip: &str) -> Endpoint {
    Endpoint {
        ip_address: Some(address(ip)),
        global_ipv6_address: None,
    }
}

fn networks(values: &[(&str, &str)]) -> Named<Endpoint> {
    let mut names = Named::new();
    for (name, ip) in values {
        names.insert(name.to_string(), endpoint(ip));
    }
    names
}

fn container(labels: &[(&str, &str)], network: &str, ip: &str) -> Container {
    Container {
        id: Some("abc123".into()),
        names: Some(vec!["/project-api-1".into()]),
        state: Some(ContainerState::Running),
        health: None,
        labels: Some(named(labels)),
        networks: Some(networks(&[(network, ip)])),
    }
}

fn labels() -> Vec<(&'static str, &'static str)> {
    vec![
        (ENABLE_LABEL, "true"),
        (HOST_LABEL, "api.localhost"),
        (PORT_LABEL, "8000"),
        (NETWORK_LABEL, "pingate-public"),
    ]
}

fn labels_without_network() -> Vec<(&'static str, &'static str)> {
    vec![
        (ENABLE_LABEL, "true"),
        (HOST_LABEL, "api.localhost"),
        (PORT_LABEL, "8000"),
    ]
}

fn upstream(addr: &str) -> Upstream {
    Upstream { addr: addr.into() }
}

fn route(host: &str, addrs: &[&str]) -> Route {
    Route {
        host: host.into(),
        upstreams: addrs.iter().map(|addr| upstream(addr)).collect(),
    }
}

fn task(service_id: Option<&str>, desired: TaskState, state: Option<TaskState>) -> Task {
    Task {
        service_id: service_id.map(|id| id.to_string()),
        desired_state: Some(desired),
        state,
    }
}

fn service(id: Option<&str>, name: Option<&str>, labels: &[(&str, &str)]) -> Service {
    Service {
        id: id.map(|id| id.to_string()),
        name: name.map(|name| name.to_string()),
        labels: Some(named(labels)),
        networks: vec!["one".into(), "two".into()],
    }
}

fn v4(ip: &str, port: u16) -> SocketAddr {
    SocketAddr::V4 {
        ip: ip.into(),
        port,
    }
}

#[test]
fn builds_compose_route_from_required_labels() {
    let routes = routes_from_containers(
        &[container(&labels(), "pingate-public", "172.18.0.2")],
        None,
    );
    assert_eq!(routes[0].host, "api.localhost");
    assert_eq!(routes[0].upstreams[0].addr, "172.18.0.2:8000");
}

#[test]
fn supports_ipv6_endpoints() {
    let routes = routes_from_containers(
        &[container(&labels(), "pingate-public", "2001:db8::2")],
        None,
    );
    assert_eq!(routes[0].upstreams[0].addr, "[2001:db8::2]:8000");
}

#[test]
fn ignores_disabled_and_marks_unhealthy_route_unavailable() {
    let disabled = container(
        &[(HOST_LABEL, "api.localhost"), (PORT_LABEL, "8000")],
        "pingate-public",
        "172.18.0.2",
    );
    let mut unhealthy = container(&labels(), "pingate-public", "172.18.0.3");
    unhealthy.health = Some(HealthStatus::Unhealthy);
    let routes = routes_from_containers(&[disabled, unhealthy], None);
    assert_eq!(routes.len(), 1);
    assert!(routes[0].upstreams.is_empty());
}

#[test]
fn default_network_is_used_when_label_is_absent() {
    let labels = vec![
        (ENABLE_LABEL, "true"),
        (HOST_LABEL, "api.localhost"),
        (PORT_LABEL, "8000"),
    ];
    let routes = routes_from_containers(
        &[container(&labels, "pingate-public", "172.18.0.2")],
        Some("pingate-public"),
    );
    assert_eq!(routes.len(), 1);
}

#[test]
fn missing_port_skips_container() {
    let labels = vec![(ENABLE_LABEL, "true"), (HOST_LABEL, "api.localhost")];
    assert!(routes_from_containers(
        &[container(&labels, "pingate-public", "172.18.0.2")],
        None
    )
    .is_empty());
}

#[test]
fn replicas_are_grouped_and_deduplicated() {
    let routes = routes_from_containers(
        &[
            container(&labels(), "pingate-public", "172.18.0.2"),
            container(&labels(), "pingate-public", "172.18.0.3"),
            container(&labels(), "pingate-public", "172.18.0.3"),
        ],
        None,
    );
    assert_eq!(routes[0].upstreams.len(), 2);
}

#[test]
fn only_running_swarm_tasks_are_eligible() {
    let running = Task {
        service_id: None,
        desired_state: Some(TaskState::Running),
        state: Some(TaskState::Running),
    };
    let starting = Task {
        service_id: None,
        desired_state: Some(TaskState::Running),
        state: Some(TaskState::Starting),
    };
    assert!(is_running_task(&running));
    assert!(!is_running_task(&starting));
}

#[test]
fn a_task_runs_only_where_it_is_meant_to() {
    assert!(!is_running_task(&task(
        None,
        TaskState::Shutdown,
        Some(TaskState::Running)
    )));
    assert!(!is_running_task(&task(None, TaskState::Running, None)));
    assert!(!is_running_task(&Task {
        service_id: None,
        desired_state: None,
        state: Some(TaskState::Running),
    }));
}

#[test]
fn only_true_enables() {
    for value in ["true", "TRUE", "True"] {
        assert!(label_enabled(&named(&[(ENABLE_LABEL, value)])));
    }
    for value in ["", "false", "1", "yes", " true", "true "] {
        assert!(!label_enabled(&named(&[(ENABLE_LABEL, value)])));
    }
    assert!(!label_enabled(&named(&[(HOST_LABEL, "true")])));
    assert!(!label_enabled(&Named::new()));
}

#[test]
fn metadata_tells_host_port_and_network() {
    let full = named(&[
        (ENABLE_LABEL, "true"),
        (HOST_LABEL, " API.localhost:80 "),
        (PORT_LABEL, "+08000"),
        (NETWORK_LABEL, " net "),
    ]);
    assert_eq!(
        route_metadata(&full, Some("default")),
        Ok(("api.localhost".to_string(), 8000, Some(" net ")))
    );
    let blank = named(&[
        (ENABLE_LABEL, "true"),
        (HOST_LABEL, "a"),
        (PORT_LABEL, "65535"),
        (NETWORK_LABEL, " \t"),
    ]);
    assert_eq!(
        route_metadata(&blank, Some("default")),
        Ok(("a".to_string(), 65535, Some("default")))
    );
    assert_eq!(
        route_metadata(&blank, None),
        Ok(("a".to_string(), 65535, None))
    );
}

#[test]
fn metadata_tells_the_first_thing_that_is_wrong() {
    let fault = |values: &[(&str, &str)]| route_metadata(&named(values), None).unwrap_err();
    let on = (ENABLE_LABEL, "true");
    assert_eq!(fault(&[]), DockerRouteError::Disabled);
    assert_eq!(
        fault(&[(ENABLE_LABEL, "no"), (HOST_LABEL, "_")]),
        DockerRouteError::Disabled
    );
    assert_eq!(fault(&[on, (PORT_LABEL, "x")]), DockerRouteError::MissingHost);
    assert_eq!(
        fault(&[on, (HOST_LABEL, " ")]),
        DockerRouteError::InvalidHost(RouteError::EmptyHost)
    );
    assert_eq!(
        fault(&[on, (HOST_LABEL, "A_b")]),
        DockerRouteError::InvalidHost(RouteError::InvalidHost("a_b".into()))
    );
    assert_eq!(fault(&[on, (HOST_LABEL, "a")]), DockerRouteError::MissingPort);
    for port in ["0", "65536", "", "-1", " 80", "http"] {
        assert_eq!(
            fault(&[on, (HOST_LABEL, "a"), (PORT_LABEL, port)]),
            DockerRouteError::InvalidPort(port.into())
        );
    }
}

#[test]
fn faults_are_told_in_a_sentence() {
    for (fault, sentence) in [
        (DockerRouteError::Disabled, "`pingate.enable` must be `true`"),
        (DockerRouteError::MissingHost, "`pingate.host` label is required"),
        (
            DockerRouteError::InvalidHost(RouteError::EmptyHost),
            "host is required",
        ),
        (
            DockerRouteError::InvalidHost(RouteError::InvalidHost("_".into())),
            "invalid host `_`",
        ),
        (DockerRouteError::MissingPort, "`pingate.port` label is required"),
        (
            DockerRouteError::InvalidPort("x".into()),
            "`pingate.port` must be a valid TCP port, got `x`",
        ),
        (
            DockerRouteError::MissingNetwork,
            "`pingate.network` is required when a workload has multiple networks",
        ),
        (
            DockerRouteError::UnknownNetwork("n".into()),
            "network `n` is not attached to the workload",
        ),
        (
            DockerRouteError::MissingIp,
            "workload has no address on the selected network",
        ),
        (
            DockerRouteError::MissingServiceName,
            "Swarm service has no name",
        ),
    ] {
        assert_eq!(fault.to_string(), sentence);
    }
}

#[test]
fn networks_are_chosen_by_label_then_default_then_singleness() {
    let mut two = container(&labels_without_network(), "a", "1.1.1.1");
    two.networks = Some(networks(&[("a", "1.1.1.1"), ("b", "2.2.2.2")]));
    assert_eq!(
        container_outcome(&two, Some("b")),
        ContainerOutcome::Routed("api.localhost".into(), upstream("2.2.2.2:8000"))
    );
    assert_eq!(
        container_outcome(&two, None),
        ContainerOutcome::Skipped(DockerRouteError::MissingNetwork)
    );
    assert_eq!(
        container_outcome(&two, Some("c")),
        ContainerOutcome::Skipped(DockerRouteError::UnknownNetwork("c".into()))
    );
    let mut labeled = labels_without_network();
    labeled.push((NETWORK_LABEL, "a"));
    two.labels = Some(named(&labeled));
    assert_eq!(
        container_outcome(&two, Some("b")),
        ContainerOutcome::Routed("api.localhost".into(), upstream("1.1.1.1:8000"))
    );
    let one = container(&labels_without_network(), "any", "3.3.3.3");
    assert_eq!(
        container_outcome(&one, None),
        ContainerOutcome::Routed("api.localhost".into(), upstream("3.3.3.3:8000"))
    );
    let mut none = container(&labels_without_network(), "any", "3.3.3.3");
    none.networks = Some(Named::new());
    assert_eq!(
        container_outcome(&none, None),
        ContainerOutcome::Skipped(DockerRouteError::MissingNetwork)
    );
    none.networks = None;
    assert_eq!(
        container_outcome(&none, Some("any")),
        ContainerOutcome::Skipped(DockerRouteError::MissingNetwork)
    );
}

#[test]
fn the_ipv6_address_stands_in_for_an_empty_one() {
    let with = |ip_address: Option<EndpointAddress>, ipv6: Option<EndpointAddress>| {
        let mut c = container(&labels(), "x", "0.0.0.0");
        let mut names = Named::new();
        names.insert(
            "pingate-public".into(),
            Endpoint {
                ip_address,
                global_ipv6_address: ipv6,
            },
        );
        c.networks = Some(names);
        route_from_container(&c, &named(&labels()), None)
    };
    let v6 = || {
        Ok((
            "api.localhost".to_string(),
            upstream("[2001:db8::3]:8000"),
        ))
    };
    assert_eq!(with(Some(address("")), Some(address("2001:db8::3"))), v6());
    assert_eq!(with(None, Some(address("2001:db8::3"))), v6());
    assert_eq!(
        with(Some(address("nonsense")), Some(address("2001:db8::3"))),
        Err(DockerRouteError::MissingIp)
    );
    assert_eq!(
        with(Some(address("")), Some(address(""))),
        Err(DockerRouteError::MissingIp)
    );
    assert_eq!(with(None, None), Err(DockerRouteError::MissingIp));
}

#[test]
fn only_running_and_healthy_containers_serve() {
    let mut c = container(&labels(), "pingate-public", "1.1.1.1");
    for health in [
        None,
        Some(HealthStatus::Empty),
        Some(HealthStatus::NoCheck),
        Some(HealthStatus::Healthy),
    ] {
        c.health = health;
        assert!(container_is_healthy(&c));
        assert_eq!(
            container_outcome(&c, None),
            ContainerOutcome::Routed("api.localhost".into(), upstream("1.1.1.1:8000"))
        );
    }
    for health in [HealthStatus::Starting, HealthStatus::Unhealthy] {
        c.health = Some(health);
        assert!(!container_is_healthy(&c));
        assert_eq!(
            container_outcome(&c, None),
            ContainerOutcome::Reserved("api.localhost".into())
        );
    }
    c.health = None;
    for state in [
        None,
        Some(ContainerState::Created),
        Some(ContainerState::Paused),
        Some(ContainerState::Exited),
    ] {
        c.state = state;
        assert_eq!(
            container_outcome(&c, None),
            ContainerOutcome::Reserved("api.localhost".into())
        );
    }
    c.labels = Some(named(&[(ENABLE_LABEL, "true")]));
    assert_eq!(container_outcome(&c, None), ContainerOutcome::Ignored);
    c.labels = None;
    assert_eq!(container_outcome(&c, None), ContainerOutcome::Ignored);
}

#[test]
fn routes_come_in_order_whatever_the_order_of_containers() {
    let with = |host: &'static str, ip: &str| {
        container(
            &[
                (ENABLE_LABEL, "true"),
                (HOST_LABEL, host),
                (PORT_LABEL, "80"),
            ],
            "net",
            ip,
        )
    };
    let expected = vec![
        route("a", &["10.0.0.10:80", "10.0.0.9:80"]),
        route("b", &["1.1.1.1:80"]),
    ];
    assert_eq!(
        routes_from_containers(
            &[
                with("b", "1.1.1.1"),
                with("a", "10.0.0.9"),
                with("a", "10.0.0.10"),
                with("A", "10.0.0.9"),
            ],
            None,
        ),
        expected
    );
    assert_eq!(
        routes_from_containers(
            &[
                with("a", "10.0.0.10"),
                with("A", "10.0.0.9"),
                with("a", "10.0.0.9"),
                with("b", "1.1.1.1"),
            ],
            None,
        ),
        expected
    );
    let mut table = RouteTable::default();
    assert_eq!(table.replace(expected), Ok(()));
    assert_eq!(table.len(), 2);
    assert_eq!(routes_from_containers(&[], None), []);
}

#[test]
fn a_serving_replica_fills_the_host_that_another_keeps() {
    let mut stopped = container(&labels(), "pingate-public", "172.18.0.2");
    stopped.state = Some(ContainerState::Exited);
    let serving = container(&labels(), "pingate-public", "172.18.0.3");
    assert_eq!(
        routes_from_containers(&[stopped, serving], None),
        [route("api.localhost", &["172.18.0.3:8000"])]
    );
}

#[test]
fn containers_are_told_by_name_or_id() {
    let mut c = container(&labels(), "n", "1.1.1.1");
    assert_eq!(container_name(&c), "project-api-1");
    c.names = Some(vec!["//a/b/".into(), "/other".into()]);
    assert_eq!(container_name(&c), "a/b/");
    c.names = Some(vec![]);
    assert_eq!(container_name(&c), "abc123");
    c.names = None;
    c.id = Some("0123456789abcdef".into());
    assert_eq!(container_name(&c), "0123456789ab");
    c.id = None;
    assert_eq!(container_name(&c), "unknown");
}

#[test]
fn services_with_running_tasks_are_to_be_looked_up() {
    let running = TaskState::Running;
    let tasks = [
        task(Some("s1"), running, Some(running)),
        task(Some("s1"), running, Some(running)),
        task(Some("s2"), running, Some(TaskState::Preparing)),
        task(Some("s2"), TaskState::Shutdown, Some(running)),
        task(None, running, Some(running)),
    ];
    let services = [
        service(Some("s1"), Some("api"), &labels()),
        service(Some("s2"), Some("web"), &labels()),
        service(Some("s3"), Some("idle"), &labels()),
        service(None, Some("anonymous"), &labels()),
        service(Some("s1"), None, &labels()),
        service(Some("s1"), Some("off"), &[(HOST_LABEL, "a")]),
        service(Some("s1"), Some("bad"), &[(ENABLE_LABEL, "true")]),
        Service {
            id: None,
            name: None,
            labels: None,
            networks: vec![],
        },
    ];
    let host = || "api.localhost".to_string();
    assert_eq!(
        service_outcomes(&services, &tasks, None),
        [
            ServiceOutcome::Resolve {
                host: host(),
                service_name: "api".into(),
                port: 8000,
            },
            ServiceOutcome::Reserved(host()),
            ServiceOutcome::Reserved(host()),
            ServiceOutcome::Reserved(host()),
            ServiceOutcome::Skipped(DockerRouteError::MissingServiceName),
            ServiceOutcome::Ignored,
            ServiceOutcome::Skipped(DockerRouteError::MissingHost),
            ServiceOutcome::Ignored,
        ]
    );
    assert_eq!(tasks_hostname("api"), "tasks.api");
}

#[test]
fn services_need_a_label_a_default_or_a_single_network() {
    let mut s = service(Some("s"), Some("api"), &labels_without_network());
    let reserved = ServiceOutcome::Reserved("api.localhost".into());
    let missing = ServiceOutcome::Skipped(DockerRouteError::MissingNetwork);
    assert_eq!(
        service_outcomes(std::slice::from_ref(&s), &[], None),
        [missing]
    );
    assert_eq!(
        service_outcomes(std::slice::from_ref(&s), &[], Some("net")),
        [reserved]
    );
    s.networks = vec!["only".into()];
    assert_eq!(
        service_outcomes(std::slice::from_ref(&s), &[], None),
        [ServiceOutcome::Reserved("api.localhost".into())]
    );
    s.networks = vec![];
    assert_eq!(
        service_outcomes(std::slice::from_ref(&s), &[], None),
        [ServiceOutcome::Skipped(DockerRouteError::MissingNetwork)]
    );
}

#[test]
fn service_routes_hold_what_the_lookups_found() {
    let resolve = |host: &str| ServiceOutcome::Resolve {
        host: host.into(),
        service_name: "api".into(),
        port: 80,
    };
    let outcomes = [
        resolve("b"),
        ServiceOutcome::Reserved("a".into()),
        ServiceOutcome::Ignored,
        resolve("b"),
        ServiceOutcome::Skipped(DockerRouteError::MissingHost),
        resolve("c"),
    ];
    let found = [
        vec![v4("10.0.0.2", 80), v4("10.0.0.1", 80)],
        vec![v4("9.9.9.9", 80)],
        vec![v4("8.8.8.8", 80)],
        vec![v4("10.0.0.1", 80)],
    ];
    assert_eq!(
        routes_from_services(&outcomes, &found),
        [
            route("a", &[]),
            route("b", &["10.0.0.1:80", "10.0.0.2:80"]),
            route("c", &[]),
        ]
    );
}

#[test]
fn groups_sort_hosts_and_upstreams_and_drop_doubles() {
    let mut groups = HostGroups::new();
    groups.extend("b".into(), vec![upstream("2"), upstream("10")]);
    groups.extend("a".into(), vec![]);
    groups.extend("b".into(), vec![upstream("1"), upstream("2")]);
    groups.extend("\u{10000}".into(), vec![]);
    groups.extend("\u{ffff}".into(), vec![]);
    assert_eq!(
        grouped_routes(groups),
        [
            route("a", &[]),
            route("b", &["1", "10", "2"]),
            route("\u{ffff}", &[]),
            route("\u{10000}", &[]),
        ]
    );
    assert_eq!(grouped_routes(HostGroups::new()), []);
}

#[test]
fn names_hold_the_last_value() {
    let mut names = named(&[("a", "1"), ("b", "2"), ("a", "3")]);
    assert_eq!(names.get("a").map(String::as_str), Some("3"));
    assert_eq!(names.get("b").map(String::as_str), Some("2"));
    assert_eq!(names.get("c"), None);
    assert_eq!(names.only(), None);
    names = named(&[("a", "1"), ("a", "2")]);
    assert_eq!(names.only().map(String::as_str), Some("2"));
    names = Named::new();
    assert_eq!(names.only(), None);
}

#[test]
fn socket_addresses_are_written_with_their_scope() {
    assert_eq!(v4("127.0.0.1", 0).to_string(), "127.0.0.1:0");
    let v6 = |scope_id: u32| SocketAddr::V6 {
        ip: "fe80::1".into(),
        port: 65535,
        scope_id,
    };
    assert_eq!(v6(0).to_string(), "[fe80::1]:65535");
    assert_eq!(v6(4294967295).to_string(), "[fe80::1%4294967295]:65535");
    assert_eq!(v6(3).port(), 65535);
    assert!(v6(3).same(&v6(3)));
    assert!(!v6(3).same(&v6(4)));
    assert!(!v4("1.1.1.1", 1).same(&v4("1.1.1.1", 2)));
    assert!(!v4("1.1.1.1", 1).same(&v6(0)));
    assert_eq!(
        SocketAddr::new(&IpAddr::V6("::1".into()), 10).to_string(),
        "[::1]:10"
    );
    assert_eq!(
        SocketAddr::new(&IpAddr::V4("1.2.3.4".into()), 10),
        v4("1.2.3.4", 10)
    );
}

#[test]
fn listeners_on_every_address_are_reached_by_loopback() {
    assert_eq!(v4("0.0.0.0", 6197).reachable(), v4("127.0.0.1", 6197));
    assert_eq!(v4("10.0.0.1", 6197).reachable(), v4("10.0.0.1", 6197));
    let v6 = |ip: &str| SocketAddr::V6 {
        ip: ip.into(),
        port: 1,
        scope_id: 2,
    };
    assert_eq!(v6("::").reachable(), v6("::1"));
    assert_eq!(v6("::2").reachable(), v6("::2"));
}
