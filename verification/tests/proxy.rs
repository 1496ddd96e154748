use http::HeaderValue;

use pingate::admin::AdminApp;
use pingate::discovery::{initially_ready, Action, Connection, DockerDiscovery, Event, Phase};
use pingate::docker::{
    routes_from_containers, routes_from_services, service_outcomes, Container, ContainerState,
    Endpoint, EndpointAddress, Service, Task, TaskState, ENABLE_LABEL, HOST_LABEL, PORT_LABEL,
};
use pingate::names::Named;
use pingate::net::{IpAddr, SocketAddr};
use pingate::proxy::{
    host_filter, probe_succeeded, request_filter, request_host, Verdict, PROBE_REQUEST,
};
use pingate::routes::{Route, RouteError, RouteTable, Upstream};
use pingate::settings::{DockerConfig, Mode};

fn route(host: &str, addrs: &[&str]) -> Route {
    Route {
        host: host.into(),
        upstreams: addrs
            .iter()
            .map(|addr| Upstream {
                addr: addr.to_string(),
            })
            .collect(),
    }
}

fn forward(addr: &str) -> Verdict {
    Verdict::Forward(Upstream { addr: addr.into() })
}

fn table() -> RouteTable {
    let mut table = RouteTable::default();
    table
        .replace(vec![
            route("api.localhost", &["10.0.0.1:80", "10.0.0.2:80"]),
            route("idle.localhost", &[]),
        ])
        .unwrap();
    table
}

fn config(tls: Option<&str>) -> DockerConfig {
    let path = |name: &str| tls.map(|dir| format!("{dir}/{name}"));
    DockerConfig {
        host: "unix:///var/run/docker.sock".into(),
        reconnect_interval_seconds: 2,
        resync_interval_seconds: 30,
        default_network: None,
        tls_ca_path: path("ca"),
        tls_cert_path: path("cert"),
        tls_key_path: path("key"),
    }
}

fn discovery() -> DockerDiscovery {
    DockerDiscovery::new(config(None), Mode::Compose, RouteTable::default(), false)
}

#[test]
fn hosts_are_read_from_the_header() {
    let host = |bytes: &[u8]| request_host(Some(&HeaderValue::from_bytes(bytes).unwrap()));
    assert_eq!(host(b"API.localhost:8080"), Some("api.localhost".into()));
    assert_eq!(host(b"\tapi.localhost "), Some("api.localhost".into()));
    assert_eq!(host(b""), None);
    assert_eq!(host(b"bad_host"), None);
    assert_eq!(host(b"caf\xc3\xa9.localhost"), None);
    assert_eq!(host(b"api.localhost\xff"), None);
    assert_eq!(request_host(None), None);
}

#[test]
fn each_verdict_has_its_status() {
    let mut routes = table();
    let mut verdict = |host: &'static str| {
        request_filter(&mut routes, Some(&HeaderValue::from_static(host)))
    };
    assert_eq!(verdict("bad_host"), Verdict::Respond(400));
    assert_eq!(verdict("unknown.localhost"), Verdict::Respond(404));
    assert_eq!(verdict("idle.localhost"), Verdict::Respond(503));
    assert_eq!(verdict("api.localhost"), forward("10.0.0.1:80"));
    assert_eq!(verdict("API.LOCALHOST:6198"), forward("10.0.0.2:80"));
    assert_eq!(verdict("api.localhost"), forward("10.0.0.1:80"));
    assert_eq!(request_filter(&mut routes, None), Verdict::Respond(400));
    assert_eq!(
        request_filter(
            &mut routes,
            Some(&HeaderValue::from_bytes(b"\xe9").unwrap())
        ),
        Verdict::Respond(400)
    );
}

#[test]
fn hosts_are_filtered_without_a_header() {
    let mut routes = table();
    assert_eq!(host_filter(&mut routes, None), Verdict::Respond(400));
    assert_eq!(
        host_filter(&mut routes, Some("other")),
        Verdict::Respond(404)
    );
    assert_eq!(
        host_filter(&mut routes, Some("idle.localhost")),
        Verdict::Respond(503)
    );
    assert_eq!(
        host_filter(&mut routes, Some("api.localhost")),
        forward("10.0.0.1:80")
    );
}

#[test]
fn health_endpoints_answer_with_status_headers_and_text() {
    for (ready, path, status, text) in [
        (false, "/healthz", 200, "ok\n"),
        (true, "/healthz", 200, "ok\n"),
        (true, "/readyz", 200, "ready\n"),
        (false, "/readyz", 503, "not ready\n"),
        (true, "/", 404, "not found\n"),
        (true, "/readyz/", 404, "not found\n"),
        (true, "/Healthz", 404, "not found\n"),
        (false, "", 404, "not found\n"),
    ] {
        let app = AdminApp::new(ready);
        assert_eq!(app.answer(path), (status, text));
        let response = app.response(path);
        assert_eq!(response.status().as_u16(), status);
        assert_eq!(response.body().as_slice(), text.as_bytes());
        assert_eq!(response.headers().len(), 2);
        assert_eq!(
            response.headers().get("content-type").unwrap().as_bytes(),
            b"text/plain; charset=utf-8"
        );
        assert_eq!(
            response.headers().get("content-length").unwrap().as_bytes(),
            text.len().to_string().as_bytes()
        );
    }
}

#[test]
fn the_probe_wants_status_200() {
    assert_eq!(
        PROBE_REQUEST,
        "GET /readyz HTTP/1.0\r\nHost: localhost\r\n\r\n"
    );
    for response in ["HTTP/1.1 200 OK\r\n", "HTTP/1.0 200", "HTTP/1.1 200 \u{e9}"] {
        assert!(probe_succeeded(response.as_bytes()));
    }
    for response in [
        "",
        "HTTP/1.1 20",
        "HTTP/1.1 503 Service Unavailable",
        "HTTP/1.0 404 Not Found",
        "HTTP/2 200",
        " HTTP/1.1 200",
        "http/1.1 200",
    ] {
        assert!(!probe_succeeded(response.as_bytes()));
    }
    assert!(!probe_succeeded(b"HTTP/1.1 200 OK\r\n\xc3"));
    assert!(!probe_succeeded(b"\xffHTTP/1.1 200"));
}

#[test]
fn discovery_is_ready_after_the_first_accepted_refresh() {
    assert!(initially_ready(Mode::Static));
    assert!(!initially_ready(Mode::Compose));
    assert!(!initially_ready(Mode::Swarm));

    let mut discovery = discovery();
    assert!(!discovery.is_ready());
    assert_eq!(
        discovery.refresh(vec![route("bad_host", &[])]),
        Err(RouteError::InvalidHost("bad_host".into()))
    );
    assert!(!discovery.is_ready());
    assert_eq!(
        discovery.refresh(vec![route("a", &["1.1.1.1:1"]), route("b", &[])]),
        Ok(2)
    );
    assert!(discovery.is_ready());
    assert_eq!(
        discovery.refresh(vec![route("", &[])]),
        Err(RouteError::EmptyHost)
    );
    assert!(discovery.is_ready());

    let header = HeaderValue::from_static("a");
    assert_eq!(discovery.request_filter(Some(&header)), forward("1.1.1.1:1"));
    assert_eq!(
        discovery.request_filter(Some(&HeaderValue::from_static("b"))),
        Verdict::Respond(503)
    );
    assert_eq!(discovery.refresh(vec![]), Ok(0));
    assert_eq!(
        discovery.request_filter(Some(&header)),
        Verdict::Respond(404)
    );
    assert_eq!(discovery.request_filter(None), Verdict::Respond(400));
}

#[test]
fn tls_is_used_where_all_files_are_given() {
    let plain = discovery();
    assert_eq!(plain.mode(), Mode::Compose);
    assert_eq!(plain.config().host, "unix:///var/run/docker.sock");
    assert_eq!(plain.connection(), Connection::Plain);
    let tls = DockerDiscovery::new(
        config(Some("/tls")),
        Mode::Swarm,
        RouteTable::default(),
        true,
    );
    assert!(tls.is_ready());
    assert_eq!(
        tls.connection(),
        Connection::Tls {
            key: "/tls/key".into(),
            cert: "/tls/cert".into(),
            ca: "/tls/ca".into(),
        }
    );
    let mut partial = config(Some("/tls"));
    partial.tls_ca_path = None;
    let partial = DockerDiscovery::new(partial, Mode::Swarm, RouteTable::default(), false);
    assert_eq!(partial.connection(), Connection::Plain);
}

#[test]
fn phases_follow_what_happens() {
    let discovery = discovery();
    let mut phase = Phase::Connecting;
    for (action, event) in [
        (Action::Connect, Event::ConnectFailed),
        (Action::Sleep(2), Event::Woken),
        (Action::Connect, Event::Connected),
        (Action::Refresh, Event::RefreshFailed),
        (Action::Watch, Event::EngineEvent),
        (Action::Refresh, Event::Refreshed),
        (Action::Watch, Event::ResyncDue),
        (Action::Refresh, Event::RefreshFailed),
        (Action::Sleep(2), Event::Woken),
        (Action::Connect, Event::Connected),
        (Action::Refresh, Event::Refreshed),
        (Action::Watch, Event::StreamFailed),
        (Action::Sleep(2), Event::Woken),
        (Action::Connect, Event::Connected),
        (Action::Refresh, Event::Refreshed),
        (Action::Watch, Event::StreamClosed),
        (Action::Sleep(2), Event::Woken),
    ] {
        assert_eq!(discovery.action(phase), action);
        phase = phase.after(event);
    }
    assert_eq!(phase, Phase::Connecting);
    assert_eq!(Phase::Watching.after(Event::Woken), Phase::Watching);
    assert_eq!(Phase::BackingOff.after(Event::Connected), Phase::BackingOff);
}

fn labels(host: &str) -> Named<String> {
    let mut labels = Named::new();
    for (name, value) in [(ENABLE_LABEL, "true"), (HOST_LABEL, host), (PORT_LABEL, "80")] {
        labels.insert(name.to_string(), value.to_string());
    }
    labels
}

#[test]
fn requests_reach_the_containers_that_serve_their_host() {
    let container = |host: &str, ip: &str, state: ContainerState| {
        let mut networks = Named::new();
        networks.insert(
            "net".to_string(),
            Endpoint {
                ip_address: Some(EndpointAddress {
                    text: ip.into(),
                    ip: Some(IpAddr::V4(ip.into())),
                }),
                global_ipv6_address: None,
            },
        );
        Container {
            id: None,
            names: None,
            state: Some(state),
            health: None,
            labels: Some(labels(host)),
            networks: Some(networks),
        }
    };
    let containers = [
        container("API.localhost", "10.0.0.2", ContainerState::Running),
        container("api.localhost", "10.0.0.1", ContainerState::Running),
        container("api.localhost", "10.0.0.3", ContainerState::Exited),
        container("idle.localhost", "10.0.0.4", ContainerState::Paused),
    ];
    let mut discovery = discovery();
    assert_eq!(
        discovery.refresh(routes_from_containers(&containers, None)),
        Ok(2)
    );
    assert!(discovery.is_ready());
    let mut verdict =
        |host: &'static str| discovery.request_filter(Some(&HeaderValue::from_static(host)));
    assert_eq!(verdict("api.localhost"), forward("10.0.0.1:80"));
    assert_eq!(verdict("api.localhost"), forward("10.0.0.2:80"));
    assert_eq!(verdict("api.localhost"), forward("10.0.0.1:80"));
    assert_eq!(verdict("idle.localhost"), Verdict::Respond(503));
    assert_eq!(verdict("other.localhost"), Verdict::Respond(404));
}

#[test]
fn requests_reach_the_tasks_of_running_services() {
    let service = |id: &str, host: &str| Service {
        id: Some(id.into()),
        name: Some(id.into()),
        labels: Some(labels(host)),
        networks: vec!["net".into()],
    };
    let services = [service("up", "up.localhost"), service("down", "down.localhost")];
    let tasks = [Task {
        service_id: Some("up".into()),
        desired_state: Some(TaskState::Running),
        state: Some(TaskState::Running),
    }];
    let addr = SocketAddr::V4 {
        ip: "10.0.1.5".into(),
        port: 80,
    };
    let outcomes = service_outcomes(&services, &tasks, None);
    let found = [vec![addr.clone()], vec![addr]];
    let mut discovery = discovery();
    assert_eq!(
        discovery.refresh(routes_from_services(&outcomes, &found)),
        Ok(2)
    );
    let mut verdict =
        |host: &'static str| discovery.request_filter(Some(&HeaderValue::from_static(host)));
    assert_eq!(verdict("up.localhost"), forward("10.0.1.5:80"));
    assert_eq!(verdict("down.localhost"), Verdict::Respond(503));
    assert_eq!(verdict("other.localhost"), Verdict::Respond(404));
}
