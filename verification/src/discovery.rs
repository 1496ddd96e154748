//! Route discovery: when to connect, refresh, wait and give up, and what a refresh changes.

use vstd::prelude::*;

use crate::proxy::{request_filter, Verdict, VerdictModel};
use crate::routes::{Route, RouteError, RouteErrorModel, RouteTable, TableModel};
use crate::settings::{DockerConfig, DockerConfigModel, Mode};

verus! {

/// The routes found so far, and how more are found.
pub struct DockerDiscovery {
    config: DockerConfig,
    mode: Mode,
    routes: RouteTable,
    ready: bool,
}

/// What discovery holds: the routes in force, and whether it is ready.
#[verifier::ext_equal]
pub struct DiscoveryModel {
    pub config: DockerConfigModel,
    pub mode: Mode,
    pub routes: TableModel,
    pub ready: bool,
}

impl View for DockerDiscovery {
    type V = DiscoveryModel;

    closed spec fn view(&self) -> DiscoveryModel {
        DiscoveryModel {
            config: self.config@,
            mode: self.mode,
            routes: self.routes@,
            ready: self.ready,
        }
    }
}

/// How the Docker Engine is reached: over TLS with these files, or as its endpoint says.
#[derive(Debug, Clone, PartialEq, Eq)]
pub enum Connection {
    Tls { key: String, cert: String, ca: String },
    Plain,
}

#[verifier::ext_equal]
pub enum ConnectionModel {
    Tls { key: Seq<char>, cert: Seq<char>, ca: Seq<char> },
    Plain,
}

impl View for Connection {
    type V = ConnectionModel;

    open spec fn view(&self) -> ConnectionModel {
        match *self {
            Connection::Tls { key, cert, ca } => ConnectionModel::Tls {
                key: key@,
                cert: cert@,
                ca: ca@,
            },
            Connection::Plain => ConnectionModel::Plain,
        }
    }
}

/// TLS where all three files are given.
pub open spec fn connection_of(config: DockerConfigModel) -> ConnectionModel {
    if config.tls_key_path is Some && config.tls_cert_path is Some && config.tls_ca_path is Some {
        ConnectionModel::Tls {
            key: config.tls_key_path->0,
            cert: config.tls_cert_path->0,
            ca: config.tls_ca_path->0,
        }
    } else {
        ConnectionModel::Plain
    }
}

/// Whether the proxy is ready from the start: fixed upstreams need no discovery.
pub fn initially_ready(mode: Mode) -> (r: bool)
    ensures
        r == (mode == Mode::Static),
{
    match mode {
        Mode::Static => true,
        _ => false,
    }
}

/// Discovery after it was given the routes of a refresh: the routes are in force and it is
/// ready, or nothing has changed because a host is not valid.
pub open spec fn refreshed(
    discovery: DiscoveryModel,
    routes: Seq<crate::routes::RouteModel>,
) -> DiscoveryModel {
    match crate::routes::table_of(routes) {
        Ok(table) => DiscoveryModel { routes: table, ready: true, ..discovery },
        Err(_) => discovery,
    }
}

impl DockerDiscovery {
    /// Discovery in `mode`, which is one of the two that Docker serves.
    pub fn new(config: DockerConfig, mode: Mode, routes: RouteTable, ready: bool) -> (r:
        DockerDiscovery)
        requires
            mode != Mode::Static,
        ensures
            r@ == (DiscoveryModel { config: config@, mode, routes: routes@, ready }),
    {
        DockerDiscovery { config, mode, routes, ready }
    }

    /// Puts the routes that a refresh found in force. Gives the number of hosts that the table
    /// then knows.
    pub fn refresh(&mut self, routes: Vec<Route>) -> (r: Result<usize, RouteError>)
        ensures
            final(self)@ == refreshed(old(self)@, crate::routes::route_models(routes@)),
            match r {
                Ok(n) => {
                    &&& crate::routes::table_of(crate::routes::route_models(routes@)) is Ok
                    &&& final(self)@.routes.dom().finite()
                    &&& n == final(self)@.routes.dom().len()
                },
                Err(e) => crate::routes::table_of(crate::routes::route_models(routes@)) == Err::<
                    TableModel,
                    RouteErrorModel,
                >(e@),
            },
    {
        match self.routes.replace(routes) {
            Ok(_) => {
                self.ready = true;
                Ok(self.routes.len())
            },
            Err(e) => Err(e),
        }
    }

    /// The verdict on a request with this `Host` header.
    pub fn request_filter(&mut self, header: Option<&http::HeaderValue>) -> (r: Verdict)
        ensures
            ({
                let (v, after) = crate::proxy::verdict(
                    old(self)@.routes,
                    crate::proxy::named_host(crate::proxy::bytes_in(header)),
                );
                &&& r@ == v
                &&& final(self)@ == (DiscoveryModel { routes: after, ..old(self)@ })
            }),
    {
        request_filter(&mut self.routes, header)
    }

    pub fn is_ready(&self) -> (r: bool)
        ensures
            r == self@.ready,
    {
        self.ready
    }

    pub fn mode(&self) -> (r: Mode)
        ensures
            r == self@.mode,
    {
        self.mode
    }

    pub fn config(&self) -> (r: &DockerConfig)
        ensures
            r@ == self@.config,
    {
        &self.config
    }

    /// How the Docker Engine is reached.
    pub fn connection(&self) -> (r: Connection)
        ensures
            r@ == connection_of(self@.config),
    {
        match (&self.config.tls_key_path, &self.config.tls_cert_path, &self.config.tls_ca_path) {
            (Some(key), Some(cert), Some(ca)) => Connection::Tls {
                key: key.clone(),
                cert: cert.clone(),
                ca: ca.clone(),
            },
            _ => Connection::Plain,
        }
    }

    /// What is to be done in `phase`.
    pub fn action(&self, phase: Phase) -> (r: Action)
        ensures
            r == action_in(phase, self@.config.reconnect_interval_seconds),
    {
        match phase {
            Phase::Connecting => Action::Connect,
            Phase::FirstRefresh => Action::Refresh,
            Phase::Watching => Action::Watch,
            Phase::Refreshing => Action::Refresh,
            Phase::BackingOff => Action::Sleep(self.config.reconnect_interval_seconds),
        }
    }
}

// ---------------------------------------------------------------------------------------------
// Phases
// ---------------------------------------------------------------------------------------------

/// Where discovery stands.
#[derive(Debug, Clone, Copy, PartialEq, Eq, Structural)]
pub enum Phase {
    Connecting,
    FirstRefresh,
    Watching,
    Refreshing,
    BackingOff,
}

/// What has happened.
#[derive(Debug, Clone, Copy, PartialEq, Eq, Structural)]
pub enum Event {
    Connected,
    ConnectFailed,
    Refreshed,
    RefreshFailed,
    ResyncDue,
    EngineEvent,
    StreamFailed,
    StreamClosed,
    Woken,
}

/// What is to be done.
#[derive(Debug, Clone, Copy, PartialEq, Eq, Structural)]
pub enum Action {
    /// Connect to the Docker Engine.
    Connect,
    /// Ask the Docker Engine for its workloads and load their routes.
    Refresh,
    /// Wait for an event of the Docker Engine or for the next resync.
    Watch,
    /// Wait for this many seconds.
    Sleep(u64),
}

/// What is to be done in `phase`.
pub open spec fn action_in(phase: Phase, reconnect_interval_seconds: u64) -> Action {
    match phase {
        Phase::Connecting => Action::Connect,
        Phase::FirstRefresh => Action::Refresh,
        Phase::Watching => Action::Watch,
        Phase::Refreshing => Action::Refresh,
        Phase::BackingOff => Action::Sleep(reconnect_interval_seconds),
    }
}

/// The phase after `event`. An event that `phase` does not wait for changes nothing.
pub open spec fn phase_after(phase: Phase, event: Event) -> Phase {
    match (phase, event) {
        (Phase::Connecting, Event::Connected) => Phase::FirstRefresh,
        (Phase::Connecting, Event::ConnectFailed) => Phase::BackingOff,
        (Phase::FirstRefresh, Event::Refreshed) => Phase::Watching,
        (Phase::FirstRefresh, Event::RefreshFailed) => Phase::Watching,
        (Phase::Watching, Event::ResyncDue) => Phase::Refreshing,
        (Phase::Watching, Event::EngineEvent) => Phase::Refreshing,
        (Phase::Watching, Event::StreamFailed) => Phase::BackingOff,
        (Phase::Watching, Event::StreamClosed) => Phase::BackingOff,
        (Phase::Refreshing, Event::Refreshed) => Phase::Watching,
        (Phase::Refreshing, Event::RefreshFailed) => Phase::BackingOff,
        (Phase::BackingOff, Event::Woken) => Phase::Connecting,
        _ => phase,
    }
}

impl Phase {
    /// The phase after `event`.
    pub fn after(self, event: Event) -> (r: Phase)
        ensures
            r == phase_after(self, event),
    {
        match (self, event) {
            (Phase::Connecting, Event::Connected) => Phase::FirstRefresh,
            (Phase::Connecting, Event::ConnectFailed) => Phase::BackingOff,
            (Phase::FirstRefresh, Event::Refreshed) => Phase::Watching,
            (Phase::FirstRefresh, Event::RefreshFailed) => Phase::Watching,
            (Phase::Watching, Event::ResyncDue) => Phase::Refreshing,
            (Phase::Watching, Event::EngineEvent) => Phase::Refreshing,
            (Phase::Watching, Event::StreamFailed) => Phase::BackingOff,
            (Phase::Watching, Event::StreamClosed) => Phase::BackingOff,
            (Phase::Refreshing, Event::Refreshed) => Phase::Watching,
            (Phase::Refreshing, Event::RefreshFailed) => Phase::BackingOff,
            (Phase::BackingOff, Event::Woken) => Phase::Connecting,
            _ => self,
        }
    }
}

// ---------------------------------------------------------------------------------------------
// Laws
// ---------------------------------------------------------------------------------------------

/// Discovery connects again only after it has waited for the reconnect interval.
pub proof fn reconnects_only_after_waiting(phase: Phase, event: Event, interval: u64)
    requires
        phase != Phase::Connecting,
        phase_after(phase, event) == Phase::Connecting,
    ensures
        event == Event::Woken,
        action_in(phase, interval) == Action::Sleep(interval),
{
}

/// A failure ends the connection, except that of the first refresh: after it discovery goes on
/// to watch, and tries again with the next event or resync.
pub proof fn failures_end_the_connection(phase: Phase, event: Event)
    requires
        phase != Phase::BackingOff,
        phase_after(phase, event) != phase,
    ensures
        phase_after(phase, event) == Phase::BackingOff <==> {
            ||| event == Event::ConnectFailed
            ||| event == Event::StreamFailed
            ||| event == Event::StreamClosed
            ||| event == Event::RefreshFailed && phase != Phase::FirstRefresh
        },
        phase == Phase::FirstRefresh ==> phase_after(phase, event) == Phase::Watching,
{
}

/// Every event of the Docker Engine and every resync leads to a refresh.
pub proof fn news_lead_to_a_refresh(event: Event, interval: u64)
    requires
        event == Event::ResyncDue || event == Event::EngineEvent,
    ensures
        action_in(phase_after(Phase::Watching, event), interval) == Action::Refresh,
{
}

/// Discovery after the refreshes `found`, in order.
pub open spec fn after_refreshes(
    discovery: DiscoveryModel,
    found: Seq<Seq<crate::routes::RouteModel>>,
) -> DiscoveryModel
    decreases found.len(),
{
    if found.len() == 0 {
        discovery
    } else {
        refreshed(after_refreshes(discovery, found.drop_last()), found.last())
    }
}

/// The readiness endpoint answers 200 from the first refresh on whose routes were accepted, and
/// 503 before; it does not go back.
pub proof fn ready_after_first_accepted_refresh(
    discovery: DiscoveryModel,
    found: Seq<Seq<crate::routes::RouteModel>>,
)
    requires
        !discovery.ready,
    ensures
        ({
            let ready = after_refreshes(discovery, found).ready;
            let accepted = exists|i: int|
                0 <= i < found.len() && crate::routes::table_of(#[trigger] found[i]) is Ok;
            &&& ready <==> accepted
            &&& crate::admin::health_answer("/readyz"@, ready).0 == if accepted {
                200u16
            } else {
                503u16
            }
        }),
    decreases found.len(),
{
    reveal_strlit("/readyz");
    reveal_strlit("/healthz");
    assert("/readyz"@.len() != "/healthz"@.len());
    if found.len() > 0 {
        let init = found.drop_last();
        ready_after_first_accepted_refresh(discovery, init);
        if exists|i: int| 0 <= i < init.len() && crate::routes::table_of(#[trigger] init[i]) is Ok {
            let i = choose|i: int|
                0 <= i < init.len() && crate::routes::table_of(#[trigger] init[i]) is Ok;
            assert(crate::routes::table_of(found[i]) is Ok);
        }
        if exists|i: int|
            0 <= i < found.len() && crate::routes::table_of(#[trigger] found[i]) is Ok {
            let i = choose|i: int|
                0 <= i < found.len() && crate::routes::table_of(#[trigger] found[i]) is Ok;
            if i < init.len() {
                assert(init[i] == found[i]);
            }
        }
        assert(found[found.len() - 1] == found.last());
    }
}

/// A refresh whose routes come from claims on normalized hosts is accepted. After it a request
/// for a valid host is answered 404 exactly where no workload claims the host, and 503 exactly
/// where the host is claimed without any address; else it goes to an address that a workload
/// adds to the host.
pub proof fn requests_follow_claims(
    discovery: DiscoveryModel,
    claims: crate::groups::Claims,
    routes: Seq<crate::routes::RouteModel>,
    header: Option<Seq<u8>>,
    host: Seq<char>,
)
    requires
        crate::groups::routes_match(routes, claims),
        crate::groups::hosts_normalized(claims),
        crate::proxy::named_host(header) == Some(host),
    ensures
        ({
            let after = refreshed(discovery, routes);
            let v = crate::proxy::verdict(after.routes, Some(host)).0;
            let claimed = exists|j: int|
                0 <= j < claims.len() && crate::groups::claims_host(#[trigger] claims[j], host);
            let served = exists|j: int, a: Seq<char>|
                0 <= j < claims.len() && #[trigger] crate::groups::claims_address(
                    claims[j],
                    host,
                    a,
                );
            &&& after.ready
            &&& v == VerdictModel::Respond(404) <==> !claimed
            &&& v == VerdictModel::Respond(503) <==> claimed && !served
            &&& v is Forward <==> served
            &&& v is Forward ==> exists|j: int|
                0 <= j < claims.len() && crate::groups::claims_address(
                    #[trigger] claims[j],
                    host,
                    v->Forward_0,
                )
        }),
{
    crate::groups::table_accepts_claimed_routes(routes, claims);
    let table = crate::routes::table_of(routes)->Ok_0;
    crate::proxy::statuses_tell_apart(table, header);
    let names = crate::groups::hosts(routes);
    let served = exists|j: int, a: Seq<char>|
        0 <= j < claims.len() && #[trigger] crate::groups::claims_address(claims[j], host, a);
    if served {
        let (j, a) = choose|j: int, a: Seq<char>|
            0 <= j < claims.len() && #[trigger] crate::groups::claims_address(claims[j], host, a);
        assert(crate::groups::claims_host(claims[j], host));
        assert(names.contains(host));
    }
    if names.contains(host) {
        let i = names.index_of(host);
        assert(routes[i].host == host);
        assert(table[host].upstreams == routes[i].upstreams);
        if routes[i].upstreams.len() > 0 {
            let a = routes[i].upstreams[0];
            assert(routes[i].upstreams.contains(a));
            let j = choose|j: int|
                0 <= j < claims.len() && crate::groups::claims_address(
                    #[trigger] claims[j],
                    host,
                    a,
                );
            assert(crate::groups::claims_address(claims[j], host, a));
        }
        if served {
            let (j, a) = choose|j: int, a: Seq<char>|
                0 <= j < claims.len() && #[trigger] crate::groups::claims_address(
                    claims[j],
                    host,
                    a,
                );
            assert(routes[i].upstreams.contains(a));
        }
    }
}

/// After a refresh from containers, which is always accepted, a request is forwarded exactly
/// where a container serves its host, and then to the address of such a container. It is
/// answered 503 where containers claim the host and none serves it, and 404 where none claims it.
pub proof fn requests_reach_serving_containers(
    discovery: DiscoveryModel,
    containers: Seq<crate::docker::Container>,
    default_network: Option<Seq<char>>,
    routes: Seq<crate::routes::RouteModel>,
    header: Option<Seq<u8>>,
    host: Seq<char>,
)
    requires
        crate::groups::routes_match(
            routes,
            crate::docker::container_claims(containers, default_network),
        ),
        crate::proxy::named_host(header) == Some(host),
    ensures
        ({
            let after = refreshed(discovery, routes);
            let v = crate::proxy::verdict(after.routes, Some(host)).0;
            let claimed = exists|j: int|
                0 <= j < containers.len() && crate::groups::claims_host(
                    #[trigger] crate::docker::outcome_of(containers[j]@, default_network).claim(),
                    host,
                );
            let served = exists|j: int|
                0 <= j < containers.len() && crate::docker::serves(
                    #[trigger] containers[j]@,
                    default_network,
                    host,
                );
            &&& after.ready
            &&& v == VerdictModel::Respond(404) <==> !claimed
            &&& v == VerdictModel::Respond(503) <==> claimed && !served
            &&& v is Forward <==> served
            &&& v is Forward ==> exists|j: int|
                0 <= j < containers.len() && crate::docker::serving(containers[j]@)
                    && #[trigger] crate::docker::outcome_of(containers[j]@, default_network)
                    == crate::docker::ContainerOutcomeModel::Routed(host, v->Forward_0)
        }),
{
    let claims = crate::docker::container_claims(containers, default_network);
    crate::docker::container_hosts_are_normalized(containers, default_network);
    requests_follow_claims(discovery, claims, routes, header, host);
    assert forall|j: int| 0 <= j < containers.len() implies #[trigger] claims[j]
        == crate::docker::outcome_of(containers[j]@, default_network).claim() by {}
    let v = crate::proxy::verdict(refreshed(discovery, routes).routes, Some(host)).0;
    if exists|j: int|
        0 <= j < containers.len() && crate::groups::claims_host(
            #[trigger] crate::docker::outcome_of(containers[j]@, default_network).claim(),
            host,
        ) {
        let j = choose|j: int|
            0 <= j < containers.len() && crate::groups::claims_host(
                #[trigger] crate::docker::outcome_of(containers[j]@, default_network).claim(),
                host,
            );
        assert(crate::groups::claims_host(claims[j], host));
    }
    if exists|j: int|
        0 <= j < claims.len() && crate::groups::claims_host(#[trigger] claims[j], host) {
        let j = choose|j: int|
            0 <= j < claims.len() && crate::groups::claims_host(#[trigger] claims[j], host);
        assert(crate::groups::claims_host(
            crate::docker::outcome_of(containers[j]@, default_network).claim(),
            host,
        ));
    }
    if exists|j: int|
        0 <= j < containers.len() && crate::docker::serves(
            #[trigger] containers[j]@,
            default_network,
            host,
        ) {
        let j = choose|j: int|
            0 <= j < containers.len() && crate::docker::serves(
                #[trigger] containers[j]@,
                default_network,
                host,
            );
        let a = crate::docker::outcome_of(containers[j]@, default_network)->Routed_1;
        assert(seq![a][0] == a);
        assert(crate::groups::claims_address(claims[j], host, a));
    }
    if v is Forward {
        let j = choose|j: int|
            0 <= j < claims.len() && crate::groups::claims_address(
                #[trigger] claims[j],
                host,
                v->Forward_0,
            );
        assert(crate::docker::outcome_of(containers[j]@, default_network)
            == crate::docker::ContainerOutcomeModel::Routed(host, v->Forward_0));
        assert(crate::docker::serves(containers[j]@, default_network, host));
    }
}

/// After a refresh from Swarm services, which is always accepted, a request is forwarded exactly
/// where an address was found for a service that claims its host and has a running task, and
/// then to such an address. It is answered 503 where services claim the host and no address was
/// found, and 404 where none claims it.
pub proof fn requests_reach_running_services(
    discovery: DiscoveryModel,
    outcomes: Seq<crate::docker::ServiceOutcome>,
    services: Seq<crate::docker::Service>,
    tasks: Seq<crate::docker::Task>,
    default_network: Option<Seq<char>>,
    found: Seq<Vec<crate::net::SocketAddr>>,
    routes: Seq<crate::routes::RouteModel>,
    header: Option<Seq<u8>>,
    host: Seq<char>,
)
    requires
        outcomes.len() == services.len(),
        forall|i: int|
            0 <= i < services.len() ==> (#[trigger] outcomes[i])@
                == crate::docker::service_outcome_of(services[i]@, tasks, default_network),
        crate::groups::routes_match(routes, crate::docker::service_claims(outcomes, found)),
        crate::proxy::named_host(header) == Some(host),
    ensures
        ({
            let after = refreshed(discovery, routes);
            let claims = crate::docker::service_claims(outcomes, found);
            let v = crate::proxy::verdict(after.routes, Some(host)).0;
            let claimed = exists|j: int|
                0 <= j < claims.len() && crate::groups::claims_host(#[trigger] claims[j], host);
            let served = exists|j: int|
                0 <= j < services.len() && (#[trigger] outcomes[j])@ is Resolve
                    && outcomes[j]@->Resolve_host == host && crate::docker::found_for(
                    found,
                    j,
                ).len() > 0;
            &&& after.ready
            &&& v == VerdictModel::Respond(404) <==> !claimed
            &&& v == VerdictModel::Respond(503) <==> claimed && !served
            &&& v is Forward <==> served
            &&& v is Forward ==> exists|j: int|
                0 <= j < services.len() && (#[trigger] outcomes[j])@ is Resolve
                    && outcomes[j]@->Resolve_host == host && crate::docker::running_for(
                    tasks,
                    crate::docker::service_id(services[j]@),
                ) > 0 && crate::docker::found_for(found, j).contains(v->Forward_0)
        }),
{
    let claims = crate::docker::service_claims(outcomes, found);
    crate::docker::service_hosts_are_normalized(outcomes, services, tasks, default_network, found);
    requests_follow_claims(discovery, claims, routes, header, host);
    let v = crate::proxy::verdict(refreshed(discovery, routes).routes, Some(host)).0;
    if v is Forward {
        let j = choose|j: int|
            0 <= j < claims.len() && crate::groups::claims_address(
                #[trigger] claims[j],
                host,
                v->Forward_0,
            );
        assert(claims[j] == outcomes[j]@.claim(crate::docker::found_for(found, j)));
        assert(outcomes[j]@ is Resolve);
    }
    assert forall|j: int|
        0 <= j < services.len() && (#[trigger] outcomes[j])@ is Resolve
            && outcomes[j]@->Resolve_host == host && crate::docker::found_for(found, j).len()
            > 0 implies v is Forward by {
        let a = crate::docker::found_for(found, j)[0];
        assert(claims[j] == outcomes[j]@.claim(crate::docker::found_for(found, j)));
        assert(crate::groups::claims_address(claims[j], host, a));
    }
}

/// The Docker Engine is reached over TLS exactly where all three files are given, each in its
/// place.
pub proof fn tls_needs_three_files(config: DockerConfigModel)
    ensures
        ({
            let c = connection_of(config);
            &&& c is Tls <==> config.tls_key_path is Some && config.tls_cert_path is Some
                && config.tls_ca_path is Some
            &&& c is Tls ==> Some(c->key) == config.tls_key_path && Some(c->cert)
                == config.tls_cert_path && Some(c->ca) == config.tls_ca_path
        }),
{
}

/// A refresh changes neither the configuration nor the mode. It puts exactly the routes that it
/// was given in force and makes discovery ready, or changes nothing at all where a host among
/// them is not valid.
pub proof fn refreshes_change_routes_alone(
    discovery: DiscoveryModel,
    routes: Seq<crate::routes::RouteModel>,
)
    ensures
        ({
            let after = refreshed(discovery, routes);
            let valid = forall|i: int|
                0 <= i < routes.len() ==> crate::routes::normalized(
                    (#[trigger] routes[i]).host,
                ) is Ok;
            &&& after.config == discovery.config
            &&& after.mode == discovery.mode
            &&& valid ==> after.ready && crate::routes::table_of(routes) == Ok::<
                TableModel,
                RouteErrorModel,
            >(after.routes)
            &&& !valid ==> after == discovery
        }),
{
    crate::routes::replace_accepts_valid_hosts(routes);
}

/// What is done in a phase: connecting connects, both phases of refreshing refresh, watching
/// watches, and backing off waits for the reconnect interval.
pub proof fn phases_have_their_action(phase: Phase, interval: u64)
    ensures
        action_in(phase, interval) == Action::Connect <==> phase == Phase::Connecting,
        action_in(phase, interval) == Action::Refresh <==> phase == Phase::FirstRefresh || phase
            == Phase::Refreshing,
        action_in(phase, interval) == Action::Watch <==> phase == Phase::Watching,
        phase == Phase::BackingOff ==> action_in(phase, interval) == Action::Sleep(interval),
{
}

/// Which event leads to which phase; a phase stays at every event that it does not wait for.
pub proof fn phases_are_reached_by_events(phase: Phase, event: Event)
    ensures
        ({
            let next = phase_after(phase, event);
            &&& next == Phase::Connecting <==> {
                ||| phase == Phase::BackingOff && event == Event::Woken
                ||| phase == Phase::Connecting && event != Event::Connected && event
                    != Event::ConnectFailed
            }
            &&& next == Phase::FirstRefresh <==> {
                ||| phase == Phase::Connecting && event == Event::Connected
                ||| phase == Phase::FirstRefresh && event != Event::Refreshed && event
                    != Event::RefreshFailed
            }
            &&& next == Phase::Refreshing <==> {
                ||| phase == Phase::Watching && (event == Event::ResyncDue || event
                    == Event::EngineEvent)
                ||| phase == Phase::Refreshing && event != Event::Refreshed && event
                    != Event::RefreshFailed
            }
            &&& next == Phase::BackingOff <==> {
                ||| phase == Phase::Connecting && event == Event::ConnectFailed
                ||| phase == Phase::Watching && (event == Event::StreamFailed || event
                    == Event::StreamClosed)
                ||| phase == Phase::Refreshing && event == Event::RefreshFailed
                ||| phase == Phase::BackingOff && event != Event::Woken
            }
            &&& next == Phase::Watching <==> {
                ||| phase == Phase::FirstRefresh && (event == Event::Refreshed || event
                    == Event::RefreshFailed)
                ||| phase == Phase::Refreshing && event == Event::Refreshed
                ||| phase == Phase::Watching && event != Event::ResyncDue && event
                    != Event::EngineEvent && event != Event::StreamFailed && event
                    != Event::StreamClosed
            }
        }),
{
}

/// The contents of a connection are its files.
pub proof fn connection_contents(c: Connection)
    ensures
        c is Plain <==> c@ is Plain,
        c is Tls ==> c@ == (ConnectionModel::Tls { key: c->key@, cert: c->cert@, ca: c->ca@ }),
{
}

} // verus!
