//! Routes from what Docker reports: labeled containers and Swarm services.

use vstd::hash_map::StringHashMap;
use vstd::prelude::*;
use vstd::slice::slice_subrange;

use crate::groups::{grouped_routes, HostGroups};
use crate::names::Named;
use crate::net::{IpAddr, IpModel, SocketAddr, SocketModel};
use crate::routes::{normalize_host, Route, RouteError, RouteErrorModel, RouteModel, Upstream};
use crate::text::{chars_of, join3, lowered, parse_number, same_text, text_of, trimmed};

verus! {

broadcast use vstd::hash_map::group_hash_map_axioms;

pub const ENABLE_LABEL: &'static str = "pingate.enable";

pub const HOST_LABEL: &'static str = "pingate.host";

pub const PORT_LABEL: &'static str = "pingate.port";

pub const NETWORK_LABEL: &'static str = "pingate.network";

// ---------------------------------------------------------------------------------------------
// What Docker reports
// ---------------------------------------------------------------------------------------------

/// The state that Docker reports for a container.
#[derive(Debug, Clone, Copy, PartialEq, Eq, Structural)]
pub enum ContainerState {
    Empty,
    Created,
    Running,
    Paused,
    Restarting,
    Exited,
    Removing,
    Dead,
    Stopping,
}

/// The result of a container's health checks.
#[derive(Debug, Clone, Copy, PartialEq, Eq, Structural)]
pub enum HealthStatus {
    Empty,
    NoCheck,
    Starting,
    Healthy,
    Unhealthy,
}

/// The state of a Swarm task.
#[derive(Debug, Clone, Copy, PartialEq, Eq, Structural)]
pub enum TaskState {
    New,
    Allocated,
    Pending,
    Assigned,
    Accepted,
    Preparing,
    Ready,
    Starting,
    Running,
    Complete,
    Shutdown,
    Failed,
    Rejected,
    Remove,
    Orphaned,
}

/// An address field of a network endpoint: the text that Docker reports, and the IP address that
/// it writes, if it writes one.
#[derive(Debug)]
pub struct EndpointAddress {
    pub text: String,
    pub ip: Option<IpAddr>,
}

/// A container's end of a network.
#[derive(Debug)]
pub struct Endpoint {
    pub ip_address: Option<EndpointAddress>,
    pub global_ipv6_address: Option<EndpointAddress>,
}

/// A container as Docker lists it.
#[derive(Debug)]
pub struct Container {
    pub id: Option<String>,
    pub names: Option<Vec<String>>,
    pub state: Option<ContainerState>,
    pub health: Option<HealthStatus>,
    pub labels: Option<Named<String>>,
    pub networks: Option<Named<Endpoint>>,
}

/// A Swarm service as Docker lists it, with the networks that its tasks are attached to.
#[derive(Debug)]
pub struct Service {
    pub id: Option<String>,
    pub name: Option<String>,
    pub labels: Option<Named<String>>,
    pub networks: Vec<String>,
}

/// A Swarm task as Docker lists it.
#[derive(Debug)]
pub struct Task {
    pub service_id: Option<String>,
    pub desired_state: Option<TaskState>,
    pub state: Option<TaskState>,
}

/// Why a workload gets no route.
#[derive(Debug, PartialEq, Eq)]
pub enum DockerRouteError {
    Disabled,
    MissingHost,
    InvalidHost(RouteError),
    MissingPort,
    InvalidPort(String),
    MissingNetwork,
    UnknownNetwork(String),
    MissingIp,
    MissingServiceName,
}

// ---------------------------------------------------------------------------------------------
// Models
// ---------------------------------------------------------------------------------------------

/// Labels by their contents.
pub type LabelsModel = Map<Seq<char>, Seq<char>>;

#[verifier::ext_equal]
pub struct AddressModel {
    pub text: Seq<char>,
    pub ip: Option<IpModel>,
}

#[verifier::ext_equal]
pub struct EndpointModel {
    pub ip_address: Option<AddressModel>,
    pub global_ipv6_address: Option<AddressModel>,
}

#[verifier::ext_equal]
pub struct ContainerModel {
    pub id: Option<Seq<char>>,
    pub names: Option<Seq<Seq<char>>>,
    pub state: Option<ContainerState>,
    pub health: Option<HealthStatus>,
    pub labels: Option<LabelsModel>,
    pub networks: Option<Map<Seq<char>, EndpointModel>>,
}

#[verifier::ext_equal]
pub struct ServiceModel {
    pub id: Option<Seq<char>>,
    pub name: Option<Seq<char>>,
    pub labels: Option<LabelsModel>,
    pub networks: Seq<Seq<char>>,
}

#[verifier::ext_equal]
pub struct TaskModel {
    pub service_id: Option<Seq<char>>,
    pub desired_state: Option<TaskState>,
    pub state: Option<TaskState>,
}

#[verifier::ext_equal]
pub enum DockerErrorModel {
    Disabled,
    MissingHost,
    InvalidHost(RouteErrorModel),
    MissingPort,
    InvalidPort(Seq<char>),
    MissingNetwork,
    UnknownNetwork(Seq<char>),
    MissingIp,
    MissingServiceName,
}

/// The contents of an optional value.
pub open spec fn contents<T: View>(value: Option<T>) -> Option<T::V> {
    match value {
        Some(v) => Some(v@),
        None => None,
    }
}

impl View for EndpointAddress {
    type V = AddressModel;

    open spec fn view(&self) -> AddressModel {
        AddressModel { text: self.text@, ip: contents(self.ip) }
    }
}

impl View for Endpoint {
    type V = EndpointModel;

    open spec fn view(&self) -> EndpointModel {
        EndpointModel {
            ip_address: contents(self.ip_address),
            global_ipv6_address: contents(self.global_ipv6_address),
        }
    }
}

impl View for Container {
    type V = ContainerModel;

    open spec fn view(&self) -> ContainerModel {
        ContainerModel {
            id: contents(self.id),
            names: match self.names {
                Some(names) => Some(names@.map_values(|name: String| name@)),
                None => None,
            },
            state: self.state,
            health: self.health,
            labels: contents(self.labels),
            networks: contents(self.networks),
        }
    }
}

impl View for Service {
    type V = ServiceModel;

    open spec fn view(&self) -> ServiceModel {
        ServiceModel {
            id: contents(self.id),
            name: contents(self.name),
            labels: contents(self.labels),
            networks: self.networks@.map_values(|name: String| name@),
        }
    }
}

impl View for Task {
    type V = TaskModel;

    open spec fn view(&self) -> TaskModel {
        TaskModel {
            service_id: contents(self.service_id),
            desired_state: self.desired_state,
            state: self.state,
        }
    }
}

impl View for DockerRouteError {
    type V = DockerErrorModel;

    open spec fn view(&self) -> DockerErrorModel {
        match self {
            DockerRouteError::Disabled => DockerErrorModel::Disabled,
            DockerRouteError::MissingHost => DockerErrorModel::MissingHost,
            DockerRouteError::InvalidHost(e) => DockerErrorModel::InvalidHost(e@),
            DockerRouteError::MissingPort => DockerErrorModel::MissingPort,
            DockerRouteError::InvalidPort(port) => DockerErrorModel::InvalidPort(port@),
            DockerRouteError::MissingNetwork => DockerErrorModel::MissingNetwork,
            DockerRouteError::UnknownNetwork(network) => DockerErrorModel::UnknownNetwork(network@),
            DockerRouteError::MissingIp => DockerErrorModel::MissingIp,
            DockerRouteError::MissingServiceName => DockerErrorModel::MissingServiceName,
        }
    }
}

impl DockerErrorModel {
    /// The sentence that tells the error.
    pub open spec fn message(self) -> Seq<char> {
        match self {
            DockerErrorModel::Disabled => "`pingate.enable` must be `true`"@,
            DockerErrorModel::MissingHost => "`pingate.host` label is required"@,
            DockerErrorModel::InvalidHost(e) => e.message(),
            DockerErrorModel::MissingPort => "`pingate.port` label is required"@,
            DockerErrorModel::InvalidPort(port) => "`pingate.port` must be a valid TCP port, got `"@
                + port + "`"@,
            DockerErrorModel::MissingNetwork =>
                "`pingate.network` is required when a workload has multiple networks"@,
            DockerErrorModel::UnknownNetwork(network) => "network `"@ + network
                + "` is not attached to the workload"@,
            DockerErrorModel::MissingIp => "workload has no address on the selected network"@,
            DockerErrorModel::MissingServiceName => "Swarm service has no name"@,
        }
    }
}

impl DockerRouteError {
    /// The sentence that tells the error.
    pub fn to_string(&self) -> (r: String)
        ensures
            r@ == self@.message(),
    {
        match self {
            DockerRouteError::Disabled => "`pingate.enable` must be `true`".to_owned(),
            DockerRouteError::MissingHost => "`pingate.host` label is required".to_owned(),
            DockerRouteError::InvalidHost(e) => e.to_string(),
            DockerRouteError::MissingPort => "`pingate.port` label is required".to_owned(),
            DockerRouteError::InvalidPort(port) => join3(
                "`pingate.port` must be a valid TCP port, got `",
                port.as_str(),
                "`",
            ),
            DockerRouteError::MissingNetwork =>
                "`pingate.network` is required when a workload has multiple networks".to_owned(),
            DockerRouteError::UnknownNetwork(network) => join3(
                "network `",
                network.as_str(),
                "` is not attached to the workload",
            ),
            DockerRouteError::MissingIp =>
                "workload has no address on the selected network".to_owned(),
            DockerRouteError::MissingServiceName => "Swarm service has no name".to_owned(),
        }
    }
}

// ---------------------------------------------------------------------------------------------
// Labels
// ---------------------------------------------------------------------------------------------

/// Whether the labels ask for a route: the enabling label says `true`, in any case.
pub open spec fn enabled(labels: LabelsModel) -> bool {
    &&& labels.contains_key(ENABLE_LABEL@)
    &&& crate::text::lower(labels[ENABLE_LABEL@]) == "true"@
}

/// The port that a label value writes: a number from one to the greatest port.
pub open spec fn port_of(value: Seq<char>) -> Option<u16> {
    match crate::text::number_up_to(value, u16::MAX as nat) {
        Some(n) if n > 0 => Some(n as u16),
        _ => None,
    }
}

/// The network that a workload asks for: its own label unless that is blank, else the default.
pub open spec fn network_of(
    labels: LabelsModel,
    default_network: Option<Seq<char>>,
) -> Option<Seq<char>> {
    if labels.contains_key(NETWORK_LABEL@) && !crate::text::is_blank(labels[NETWORK_LABEL@]) {
        Some(labels[NETWORK_LABEL@])
    } else {
        default_network
    }
}

/// What the labels of a workload say of its route: host, port and network. The second case
/// is the first thing that is wrong with them.
pub open spec fn metadata(labels: LabelsModel, default_network: Option<Seq<char>>) -> Result<
    (Seq<char>, u16, Option<Seq<char>>),
    DockerErrorModel,
> {
    if !enabled(labels) {
        Err(DockerErrorModel::Disabled)
    } else if !labels.contains_key(HOST_LABEL@) {
        Err(DockerErrorModel::MissingHost)
    } else {
        match crate::routes::normalized(labels[HOST_LABEL@]) {
            Err(e) => Err(DockerErrorModel::InvalidHost(e)),
            Ok(host) => if !labels.contains_key(PORT_LABEL@) {
                Err(DockerErrorModel::MissingPort)
            } else {
                match port_of(labels[PORT_LABEL@]) {
                    None => Err(DockerErrorModel::InvalidPort(labels[PORT_LABEL@])),
                    Some(port) => Ok((host, port, network_of(labels, default_network))),
                }
            },
        }
    }
}

/// The text of an optional name.
pub open spec fn text_in(value: Option<&str>) -> Option<Seq<char>> {
    match value {
        Some(v) => Some(v@),
        None => None,
    }
}

/// Whether the labels ask for a route.
pub fn label_enabled(labels: &Named<String>) -> (r: bool)
    ensures
        r == enabled(labels@),
{
    match labels.get(ENABLE_LABEL) {
        Some(value) => {
            let small = lowered(chars_of(value.as_str()).as_slice());
            same_text(text_of(small.as_slice()).as_str(), "true")
        },
        None => false,
    }
}

/// What the labels of a workload say of its route.
pub fn route_metadata<'a>(
    labels: &'a Named<String>,
    default_network: Option<&'a str>,
) -> (r: Result<(String, u16, Option<&'a str>), DockerRouteError>)
    ensures
        match r {
            Ok((host, port, network)) => metadata(labels@, text_in(default_network)) == Ok::<
                (Seq<char>, u16, Option<Seq<char>>),
                DockerErrorModel,
            >((host@, port, text_in(network))),
            Err(e) => metadata(labels@, text_in(default_network)) == Err::<
                (Seq<char>, u16, Option<Seq<char>>),
                DockerErrorModel,
            >(e@),
        },
{
    if !label_enabled(labels) {
        return Err(DockerRouteError::Disabled);
    }
    let host = match labels.get(HOST_LABEL) {
        Some(host) => match normalize_host(host.as_str()) {
            Ok(host) => host,
            Err(e) => return Err(DockerRouteError::InvalidHost(e)),
        },
        None => return Err(DockerRouteError::MissingHost),
    };
    let port_value = match labels.get(PORT_LABEL) {
        Some(value) => value,
        None => return Err(DockerRouteError::MissingPort),
    };
    let port: u16 = match parse_number(chars_of(port_value.as_str()).as_slice(), u16::MAX as u64) {
        Some(n) if n > 0 => n as u16,
        _ => return Err(DockerRouteError::InvalidPort(port_value.clone())),
    };
    let network = match labels.get(NETWORK_LABEL) {
        Some(name) => if trimmed(chars_of(name.as_str()).as_slice()).len() > 0 {
            Some(name.as_str())
        } else {
            default_network
        },
        None => default_network,
    };
    Ok((host, port, network))
}

// ---------------------------------------------------------------------------------------------
// Containers
// ---------------------------------------------------------------------------------------------

/// What becomes of a container: it is none of ours; it keeps its host known without adding an
/// upstream, because it does not run or is not healthy; it adds an upstream to its host; or it
/// is passed over because of an error.
#[derive(Debug, PartialEq, Eq)]
pub enum ContainerOutcome {
    Ignored,
    Reserved(String),
    Routed(String, Upstream),
    Skipped(DockerRouteError),
}

#[verifier::ext_equal]
pub enum ContainerOutcomeModel {
    Ignored,
    Reserved(Seq<char>),
    Routed(Seq<char>, Seq<char>),
    Skipped(DockerErrorModel),
}

impl View for ContainerOutcome {
    type V = ContainerOutcomeModel;

    open spec fn view(&self) -> ContainerOutcomeModel {
        match self {
            ContainerOutcome::Ignored => ContainerOutcomeModel::Ignored,
            ContainerOutcome::Reserved(host) => ContainerOutcomeModel::Reserved(host@),
            ContainerOutcome::Routed(host, upstream) => ContainerOutcomeModel::Routed(
                host@,
                upstream@,
            ),
            ContainerOutcome::Skipped(e) => ContainerOutcomeModel::Skipped(e@),
        }
    }
}

impl ContainerOutcomeModel {
    /// What the container claims.
    pub open spec fn claim(self) -> Option<RouteModel> {
        match self {
            ContainerOutcomeModel::Reserved(host) => Some(
                RouteModel { host, upstreams: Seq::empty() },
            ),
            ContainerOutcomeModel::Routed(host, addr) => Some(
                RouteModel { host, upstreams: seq![addr] },
            ),
            _ => None,
        }
    }
}

/// Whether no health check speaks against the container.
pub open spec fn healthy(container: ContainerModel) -> bool {
    container.health != Some(HealthStatus::Starting) && container.health != Some(
        HealthStatus::Unhealthy,
    )
}

/// Whether the container may receive requests.
pub open spec fn serving(container: ContainerModel) -> bool {
    container.state == Some(ContainerState::Running) && healthy(container)
}

/// Whether an address field is filled in.
pub open spec fn filled(address: Option<AddressModel>) -> bool {
    address is Some && address->0.text.len() > 0
}

/// The address of an endpoint: the IPv4 field where it is filled in, else the IPv6 field.
pub open spec fn endpoint_ip(endpoint: EndpointModel) -> Option<IpModel> {
    if filled(endpoint.ip_address) {
        endpoint.ip_address->0.ip
    } else if filled(endpoint.global_ipv6_address) {
        endpoint.global_ipv6_address->0.ip
    } else {
        None
    }
}

/// The endpoint to use among `networks`: the one on the network asked for, or the only one where
/// none is asked for.
pub open spec fn endpoint_of(
    networks: Option<Map<Seq<char>, EndpointModel>>,
    network: Option<Seq<char>>,
) -> Result<EndpointModel, DockerErrorModel> {
    match networks {
        None => Err(DockerErrorModel::MissingNetwork),
        Some(networks) => match network {
            Some(name) => if networks.contains_key(name) {
                Ok(networks[name])
            } else {
                Err(DockerErrorModel::UnknownNetwork(name))
            },
            None => if networks.dom().len() == 1 {
                Ok(networks[networks.dom().choose()])
            } else {
                Err(DockerErrorModel::MissingNetwork)
            },
        },
    }
}

/// The host of a container with the given labels, and the address at which it is reached.
pub open spec fn container_route(
    container: ContainerModel,
    labels: LabelsModel,
    default_network: Option<Seq<char>>,
) -> Result<(Seq<char>, Seq<char>), DockerErrorModel> {
    match metadata(labels, default_network) {
        Err(e) => Err(e),
        Ok((host, port, network)) => match endpoint_of(container.networks, network) {
            Err(e) => Err(e),
            Ok(endpoint) => match endpoint_ip(endpoint) {
                None => Err(DockerErrorModel::MissingIp),
                Some(ip) => Ok((host, SocketModel::at(ip, port).text())),
            },
        },
    }
}

/// What becomes of a container.
pub open spec fn outcome_of(
    container: ContainerModel,
    default_network: Option<Seq<char>>,
) -> ContainerOutcomeModel {
    match container.labels {
        None => ContainerOutcomeModel::Ignored,
        Some(labels) => if !enabled(labels) {
            ContainerOutcomeModel::Ignored
        } else if !serving(container) {
            match metadata(labels, default_network) {
                Ok((host, _, _)) => ContainerOutcomeModel::Reserved(host),
                Err(_) => ContainerOutcomeModel::Ignored,
            }
        } else {
            match container_route(container, labels, default_network) {
                Ok((host, addr)) => ContainerOutcomeModel::Routed(host, addr),
                Err(e) => ContainerOutcomeModel::Skipped(e),
            }
        },
    }
}

/// Whether the container adds an upstream to the host `host`.
pub open spec fn serves(
    container: ContainerModel,
    default_network: Option<Seq<char>>,
    host: Seq<char>,
) -> bool {
    let outcome = outcome_of(container, default_network);
    outcome is Routed && outcome->Routed_0 == host
}

/// What `containers` claim, in order.
pub open spec fn container_claims(
    containers: Seq<Container>,
    default_network: Option<Seq<char>>,
) -> crate::groups::Claims {
    Seq::new(containers.len(), |i: int| outcome_of(containers[i]@, default_network).claim())
}

/// The name by which a container is told: its first name without leading slashes, else the
/// start of its id.
pub open spec fn told_name(container: ContainerModel) -> Seq<char> {
    if container.names is Some && container.names->0.len() > 0 {
        without_slashes(container.names->0[0])
    } else {
        match container.id {
            Some(id) => if id.len() <= 12 {
                id
            } else {
                id.take(12)
            },
            None => "unknown"@,
        }
    }
}

/// `name` without the slashes that it starts with.
pub open spec fn without_slashes(name: Seq<char>) -> Seq<char>
    decreases name.len(),
{
    if name.len() > 0 && name[0] == '/' {
        without_slashes(name.drop_first())
    } else {
        name
    }
}

/// Whether no health check speaks against the container.
pub fn container_is_healthy(container: &Container) -> (r: bool)
    ensures
        r == healthy(container@),
{
    match container.health {
        Some(HealthStatus::Starting) => false,
        Some(HealthStatus::Unhealthy) => false,
        _ => true,
    }
}

fn usable(address: &Option<EndpointAddress>) -> (r: Option<&EndpointAddress>)
    ensures
        r is Some <==> filled(contents(*address)),
        r is Some ==> Some(*r->0) == *address,
{
    match address {
        Some(a) => if a.text.as_str().is_empty() {
            None
        } else {
            Some(a)
        },
        None => None,
    }
}

/// The host of a container with the given labels, and the upstream that it is.
pub fn route_from_container(
    container: &Container,
    labels: &Named<String>,
    default_network: Option<&str>,
) -> (r: Result<(String, Upstream), DockerRouteError>)
    ensures
        match r {
            Ok((host, upstream)) => container_route(container@, labels@, text_in(default_network))
                == Ok::<(Seq<char>, Seq<char>), DockerErrorModel>((host@, upstream@)),
            Err(e) => container_route(container@, labels@, text_in(default_network)) == Err::<
                (Seq<char>, Seq<char>),
                DockerErrorModel,
            >(e@),
        },
{
    let (host, port, network) = match route_metadata(labels, default_network) {
        Ok(parts) => parts,
        Err(e) => return Err(e),
    };
    let networks = match &container.networks {
        Some(networks) => networks,
        None => return Err(DockerRouteError::MissingNetwork),
    };
    let endpoint = match network {
        Some(name) => match networks.get(name) {
            Some(endpoint) => endpoint,
            None => return Err(DockerRouteError::UnknownNetwork(name.to_owned())),
        },
        None => match networks.only() {
            Some(endpoint) => endpoint,
            None => return Err(DockerRouteError::MissingNetwork),
        },
    };
    let address = match usable(&endpoint.ip_address) {
        Some(address) => Some(address),
        None => usable(&endpoint.global_ipv6_address),
    };
    match address {
        Some(EndpointAddress { text: _, ip: Some(ip) }) => {
            let addr = SocketAddr::new(ip, port).to_string();
            Ok((host, Upstream { addr }))
        },
        _ => Err(DockerRouteError::MissingIp),
    }
}

/// What becomes of a container.
pub fn container_outcome(container: &Container, default_network: Option<&str>) -> (r:
    ContainerOutcome)
    ensures
        r@ == outcome_of(container@, text_in(default_network)),
{
    let labels = match &container.labels {
        Some(labels) => labels,
        None => return ContainerOutcome::Ignored,
    };
    if !label_enabled(labels) {
        return ContainerOutcome::Ignored;
    }
    let running = match container.state {
        Some(ContainerState::Running) => true,
        _ => false,
    };
    if !running || !container_is_healthy(container) {
        return match route_metadata(labels, default_network) {
            Ok((host, _, _)) => ContainerOutcome::Reserved(host),
            Err(_) => ContainerOutcome::Ignored,
        };
    }
    match route_from_container(container, labels, default_network) {
        Ok((host, upstream)) => ContainerOutcome::Routed(host, upstream),
        Err(e) => ContainerOutcome::Skipped(e),
    }
}

/// The routes that `containers` make. A host stays known while a container of it is there that
/// does not serve; upstreams come from serving containers only.
pub fn routes_from_containers(containers: &[Container], default_network: Option<&str>) -> (r: Vec<
    Route,
>)
    ensures
        crate::groups::routes_match(
            crate::routes::route_models(r@),
            container_claims(containers@, text_in(default_network)),
        ),
{
    let ghost claims = container_claims(containers@, text_in(default_network));
    let mut by_host = HostGroups::new();
    let n = containers.len();
    for i in 0..n
        invariant
            n == containers@.len(),
            claims == container_claims(containers@, text_in(default_network)),
            by_host@ == crate::groups::groups_of(claims.take(i as int)),
    {
        proof {
            assert(claims.take(i + 1).drop_last() =~= claims.take(i as int));
            assert(claims.take(i + 1).last() == claims[i as int]);
        }
        match container_outcome(&containers[i], default_network) {
            ContainerOutcome::Reserved(host) => {
                let none: Vec<Upstream> = Vec::new();
                assert(crate::routes::addresses(none@) =~= Seq::empty());
                by_host.extend(host, none);
            },
            ContainerOutcome::Routed(host, upstream) => {
                let ghost addr = upstream@;
                let mut one: Vec<Upstream> = Vec::new();
                one.push(upstream);
                assert(crate::routes::addresses(one@) =~= seq![addr]);
                by_host.extend(host, one);
            },
            _ => {},
        }
    }
    assert(claims.take(n as int) =~= claims);
    let r = grouped_routes(by_host);
    proof {
        crate::groups::grouping_matches_claims(crate::routes::route_models(r@), claims);
    }
    r
}

/// The name by which a container is told.
pub fn container_name(container: &Container) -> (r: String)
    ensures
        r@ == told_name(container@),
{
    if let Some(names) = &container.names {
        if names.len() > 0 {
            let name = chars_of(names[0].as_str());
            let mut i: usize = 0;
            let n = name.len();
            assert(name@.subrange(0, n as int) =~= name@);
            while i < n && name[i] == '/'
                invariant
                    i <= n == name@.len(),
                    without_slashes(name@.subrange(i as int, n as int)) == without_slashes(name@),
                decreases n - i,
            {
                assert(name@.subrange(i as int, n as int).drop_first() =~= name@.subrange(
                    i + 1,
                    n as int,
                ));
                i = i + 1;
            }
            return text_of(slice_subrange(name.as_slice(), i, n));
        }
    }
    match &container.id {
        Some(id) => {
            let all = chars_of(id.as_str());
            if all.len() <= 12 {
                id.clone()
            } else {
                let r = text_of(slice_subrange(all.as_slice(), 0, 12));
                assert(r@ =~= id@.take(12));
                r
            }
        },
        None => "unknown".to_owned(),
    }
}

// ---------------------------------------------------------------------------------------------
// Swarm services
// ---------------------------------------------------------------------------------------------

/// What becomes of a Swarm service: it is none of ours; it keeps its host known without adding an
/// upstream, because no task of it runs; the addresses of its tasks are to be looked up and added
/// to its host; or it is passed over because of an error.
#[derive(Debug, PartialEq, Eq)]
pub enum ServiceOutcome {
    Ignored,
    Reserved(String),
    Resolve { host: String, service_name: String, port: u16 },
    Skipped(DockerRouteError),
}

#[verifier::ext_equal]
pub enum ServiceOutcomeModel {
    Ignored,
    Reserved(Seq<char>),
    Resolve { host: Seq<char>, service_name: Seq<char>, port: u16 },
    Skipped(DockerErrorModel),
}

impl View for ServiceOutcome {
    type V = ServiceOutcomeModel;

    open spec fn view(&self) -> ServiceOutcomeModel {
        match *self {
            ServiceOutcome::Ignored => ServiceOutcomeModel::Ignored,
            ServiceOutcome::Reserved(host) => ServiceOutcomeModel::Reserved(host@),
            ServiceOutcome::Resolve { host, service_name, port } => ServiceOutcomeModel::Resolve {
                host: host@,
                service_name: service_name@,
                port,
            },
            ServiceOutcome::Skipped(e) => ServiceOutcomeModel::Skipped(e@),
        }
    }
}

impl ServiceOutcomeModel {
    /// What the service claims, where the lookup of its tasks gave `found`.
    pub open spec fn claim(self, found: Seq<Seq<char>>) -> Option<RouteModel> {
        match self {
            ServiceOutcomeModel::Reserved(host) => Some(
                RouteModel { host, upstreams: Seq::empty() },
            ),
            ServiceOutcomeModel::Resolve { host, service_name, port } => Some(
                RouteModel { host, upstreams: found },
            ),
            _ => None,
        }
    }
}

/// Whether a task is meant to run and runs.
pub open spec fn task_runs(task: TaskModel) -> bool {
    task.desired_state == Some(TaskState::Running) && task.state == Some(TaskState::Running)
}

/// Whether a running task belongs to the service `id`.
pub open spec fn runs_for(task: TaskModel, id: Seq<char>) -> bool {
    task.service_id == Some(id) && task_runs(task)
}

/// How many of `tasks` run for the service `id`.
pub open spec fn running_for(tasks: Seq<Task>, id: Seq<char>) -> nat
    decreases tasks.len(),
{
    if tasks.len() == 0 {
        0
    } else {
        running_for(tasks.drop_last(), id) + if runs_for(tasks.last()@, id) {
            1nat
        } else {
            0nat
        }
    }
}

/// The id by which the tasks of a service are found.
pub open spec fn service_id(service: ServiceModel) -> Seq<char> {
    match service.id {
        Some(id) => id,
        None => Seq::empty(),
    }
}

/// The network of a service: the one asked for, or the only one where none is asked for.
pub open spec fn service_network(
    networks: Seq<Seq<char>>,
    network: Option<Seq<char>>,
) -> Option<Seq<char>> {
    match network {
        Some(name) => Some(name),
        None => if networks.len() == 1 {
            Some(networks[0])
        } else {
            None
        },
    }
}

/// What becomes of a Swarm service.
pub open spec fn service_outcome_of(
    service: ServiceModel,
    tasks: Seq<Task>,
    default_network: Option<Seq<char>>,
) -> ServiceOutcomeModel {
    match service.labels {
        None => ServiceOutcomeModel::Ignored,
        Some(labels) => if !enabled(labels) {
            ServiceOutcomeModel::Ignored
        } else {
            match metadata(labels, default_network) {
                Err(e) => ServiceOutcomeModel::Skipped(e),
                Ok((host, port, network)) => if service_network(service.networks, network) is None {
                    ServiceOutcomeModel::Skipped(DockerErrorModel::MissingNetwork)
                } else {
                    match service.name {
                        None => ServiceOutcomeModel::Skipped(DockerErrorModel::MissingServiceName),
                        Some(service_name) => if running_for(tasks, service_id(service)) == 0 {
                            ServiceOutcomeModel::Reserved(host)
                        } else {
                            ServiceOutcomeModel::Resolve { host, service_name, port }
                        },
                    }
                },
            }
        },
    }
}

/// The texts of `found`, in order.
pub open spec fn address_texts(found: Seq<SocketAddr>) -> Seq<Seq<char>> {
    Seq::new(found.len(), |i: int| found[i]@.text())
}

/// What the lookup for service `i` gave; nothing where `found` does not reach that far.
pub open spec fn found_for(found: Seq<Vec<SocketAddr>>, i: int) -> Seq<Seq<char>> {
    if i < found.len() {
        address_texts(found[i]@)
    } else {
        Seq::empty()
    }
}

/// What services with these outcomes claim, where their lookups gave `found`.
pub open spec fn service_claims(
    outcomes: Seq<ServiceOutcome>,
    found: Seq<Vec<SocketAddr>>,
) -> crate::groups::Claims {
    Seq::new(outcomes.len(), |i: int| outcomes[i]@.claim(found_for(found, i)))
}

/// Whether a task is meant to run and runs.
pub fn is_running_task(task: &Task) -> (r: bool)
    ensures
        r == task_runs(task@),
{
    match (task.desired_state, task.state) {
        (Some(TaskState::Running), Some(TaskState::Running)) => true,
        _ => false,
    }
}

proof fn lemma_running_bound(tasks: Seq<Task>, id: Seq<char>)
    ensures
        running_for(tasks, id) <= tasks.len(),
    decreases tasks.len(),
{
    if tasks.len() > 0 {
        lemma_running_bound(tasks.drop_last(), id);
    }
}

/// The number of running tasks of each service that has any.
fn tasks_by_service(tasks: &[Task]) -> (r: StringHashMap<usize>)
    ensures
        forall|id: Seq<char>| #[trigger]
            r@.contains_key(id) ==> r@[id] == running_for(tasks@, id),
        forall|id: Seq<char>| !(#[trigger] r@.contains_key(id)) ==> running_for(tasks@, id) == 0,
{
    let mut r: StringHashMap<usize> = StringHashMap::new();
    let n = tasks.len();
    for i in 0..n
        invariant
            n == tasks@.len(),
            forall|id: Seq<char>| #[trigger]
                r@.contains_key(id) ==> r@[id] == running_for(tasks@.take(i as int), id),
            forall|id: Seq<char>|
                !(#[trigger] r@.contains_key(id)) ==> running_for(tasks@.take(i as int), id) == 0,
    {
        let task = &tasks[i];
        assert(tasks@.take(i + 1).drop_last() =~= tasks@.take(i as int));
        assert(tasks@.take(i + 1).last() == *task);
        if let Some(id) = &task.service_id {
            if is_running_task(task) {
                let count: usize = match r.get(id.as_str()) {
                    Some(count) => *count,
                    None => 0,
                };
                proof {
                    lemma_running_bound(tasks@.take(i as int), id@);
                }
                r.insert(id.clone(), count + 1);
            }
        }
        assert forall|id: Seq<char>| #[trigger] r@.contains_key(id) implies r@[id] == running_for(
            tasks@.take(i + 1),
            id,
        ) by {}
    }
    assert(tasks@.take(n as int) =~= tasks@);
    r
}

fn service_outcome(
    service: &Service,
    running: &StringHashMap<usize>,
    default_network: Option<&str>,
    Ghost(tasks): Ghost<Seq<Task>>,
) -> (r: ServiceOutcome)
    requires
        forall|id: Seq<char>| #[trigger]
            running@.contains_key(id) ==> running@[id] == running_for(tasks, id),
        forall|id: Seq<char>| !(#[trigger] running@.contains_key(id)) ==> running_for(tasks, id)
            == 0,
    ensures
        r@ == service_outcome_of(service@, tasks, text_in(default_network)),
{
    let labels = match &service.labels {
        Some(labels) => labels,
        None => return ServiceOutcome::Ignored,
    };
    if !label_enabled(labels) {
        return ServiceOutcome::Ignored;
    }
    let (host, port, network) = match route_metadata(labels, default_network) {
        Ok(parts) => parts,
        Err(e) => return ServiceOutcome::Skipped(e),
    };
    if network.is_none() && service.networks.len() != 1 {
        return ServiceOutcome::Skipped(DockerRouteError::MissingNetwork);
    }
    let service_name = match &service.name {
        Some(name) => name.clone(),
        None => return ServiceOutcome::Skipped(DockerRouteError::MissingServiceName),
    };
    let id = match &service.id {
        Some(id) => id.clone(),
        None => String::new(),
    };
    assert(id@ =~= service_id(service@));
    let count: usize = match running.get(id.as_str()) {
        Some(count) => *count,
        None => 0,
    };
    if count == 0 {
        ServiceOutcome::Reserved(host)
    } else {
        ServiceOutcome::Resolve { host, service_name, port }
    }
}

/// What becomes of each Swarm service, in order.
pub fn service_outcomes(
    services: &[Service],
    tasks: &[Task],
    default_network: Option<&str>,
) -> (r: Vec<ServiceOutcome>)
    ensures
        r@.len() == services@.len(),
        forall|i: int|
            0 <= i < services@.len() ==> (#[trigger] r@[i])@ == service_outcome_of(
                services@[i]@,
                tasks@,
                text_in(default_network),
            ),
{
    let running = tasks_by_service(tasks);
    let mut r: Vec<ServiceOutcome> = Vec::new();
    let n = services.len();
    for i in 0..n
        invariant
            n == services@.len(),
            r@.len() == i,
            forall|id: Seq<char>| #[trigger]
                running@.contains_key(id) ==> running@[id] == running_for(tasks@, id),
            forall|id: Seq<char>|
                !(#[trigger] running@.contains_key(id)) ==> running_for(tasks@, id) == 0,
            forall|j: int|
                0 <= j < i ==> (#[trigger] r@[j])@ == service_outcome_of(
                    services@[j]@,
                    tasks@,
                    text_in(default_network),
                ),
    {
        r.push(service_outcome(&services[i], &running, default_network, Ghost(tasks@)));
    }
    r
}

/// The name under which the tasks of a Swarm service are looked up.
pub fn tasks_hostname(service_name: &str) -> (r: String)
    ensures
        r@ == "tasks."@ + service_name@,
{
    let mut r = "tasks.".to_owned();
    r.append(service_name);
    r
}

fn upstreams_at(found: &Vec<SocketAddr>) -> (r: Vec<Upstream>)
    ensures
        crate::routes::addresses(r@) == address_texts(found@),
{
    let mut r: Vec<Upstream> = Vec::new();
    for i in 0..found.len()
        invariant
            r@.len() == i,
            forall|j: int| 0 <= j < i ==> (#[trigger] r@[j]).addr@ == found@[j]@.text(),
    {
        r.push(Upstream { addr: found[i].to_string() });
    }
    assert(crate::routes::addresses(r@) =~= address_texts(found@));
    r
}

/// The routes that Swarm services make, from what becomes of each and from the addresses at
/// which its tasks were found. A lookup that failed counts as one that found nothing.
pub fn routes_from_services(outcomes: &[ServiceOutcome], found: &[Vec<SocketAddr>]) -> (r: Vec<
    Route,
>)
    ensures
        crate::groups::routes_match(
            crate::routes::route_models(r@),
            service_claims(outcomes@, found@),
        ),
{
    let ghost claims = service_claims(outcomes@, found@);
    let mut by_host = HostGroups::new();
    let n = outcomes.len();
    for i in 0..n
        invariant
            n == outcomes@.len(),
            claims == service_claims(outcomes@, found@),
            by_host@ == crate::groups::groups_of(claims.take(i as int)),
    {
        proof {
            assert(claims.take(i + 1).drop_last() =~= claims.take(i as int));
            assert(claims.take(i + 1).last() == claims[i as int]);
        }
        match &outcomes[i] {
            ServiceOutcome::Reserved(host) => {
                let none: Vec<Upstream> = Vec::new();
                assert(crate::routes::addresses(none@) =~= Seq::empty());
                by_host.extend(host.clone(), none);
            },
            ServiceOutcome::Resolve { host, service_name: _, port: _ } => {
                let upstreams = if i < found.len() {
                    upstreams_at(&found[i])
                } else {
                    Vec::new()
                };
                assert(crate::routes::addresses(upstreams@) =~= found_for(found@, i as int));
                by_host.extend(host.clone(), upstreams);
            },
            _ => {},
        }
    }
    assert(claims.take(n as int) =~= claims);
    let r = grouped_routes(by_host);
    proof {
        crate::groups::grouping_matches_claims(crate::routes::route_models(r@), claims);
    }
    r
}

// ---------------------------------------------------------------------------------------------
// Laws
// ---------------------------------------------------------------------------------------------

proof fn lemma_metadata_host(labels: LabelsModel, default_network: Option<Seq<char>>)
    requires
        metadata(labels, default_network) is Ok,
    ensures
        crate::routes::normalized(metadata(labels, default_network)->Ok_0.0) == Ok::<
            Seq<char>,
            RouteErrorModel,
        >(metadata(labels, default_network)->Ok_0.0),
{
    crate::routes::normalizing_is_final(
        labels[HOST_LABEL@],
        metadata(labels, default_network)->Ok_0.0,
    );
}

/// Containers claim normalized hosts only, so a table accepts every set of routes that
/// containers make.
pub proof fn container_hosts_are_normalized(
    containers: Seq<Container>,
    default_network: Option<Seq<char>>,
)
    ensures
        crate::groups::hosts_normalized(container_claims(containers, default_network)),
{
    let claims = container_claims(containers, default_network);
    assert forall|j: int| 0 <= j < claims.len() && (#[trigger] claims[j]) is Some implies
        crate::routes::normalized(claims[j]->0.host) == Ok::<Seq<char>, RouteErrorModel>(
        claims[j]->0.host,
    ) by {
        lemma_metadata_host(containers[j]@.labels->0, default_network);
    }
}

/// Services claim normalized hosts only, so a table accepts every set of routes that services
/// make.
pub proof fn service_hosts_are_normalized(
    outcomes: Seq<ServiceOutcome>,
    services: Seq<Service>,
    tasks: Seq<Task>,
    default_network: Option<Seq<char>>,
    found: Seq<Vec<SocketAddr>>,
)
    requires
        outcomes.len() == services.len(),
        forall|i: int|
            0 <= i < services.len() ==> (#[trigger] outcomes[i])@ == service_outcome_of(
                services[i]@,
                tasks,
                default_network,
            ),
    ensures
        crate::groups::hosts_normalized(service_claims(outcomes, found)),
{
    let claims = service_claims(outcomes, found);
    assert forall|j: int| 0 <= j < claims.len() && (#[trigger] claims[j]) is Some implies
        crate::routes::normalized(claims[j]->0.host) == Ok::<Seq<char>, RouteErrorModel>(
        claims[j]->0.host,
    ) by {
        assert(outcomes[j]@ == service_outcome_of(services[j]@, tasks, default_network));
        lemma_metadata_host(services[j]@.labels->0, default_network);
    }
}

/// A container without the enabling label claims nothing.
pub proof fn disabled_containers_claim_nothing(
    container: ContainerModel,
    default_network: Option<Seq<char>>,
)
    requires
        container.labels is None || !enabled(container.labels->0),
    ensures
        outcome_of(container, default_network).claim() is None,
{
}

/// A container that does not run or is not healthy adds no upstream, but keeps the host of its
/// labels known.
pub proof fn unavailable_containers_keep_their_host(
    container: ContainerModel,
    default_network: Option<Seq<char>>,
)
    requires
        container.labels is Some,
        !serving(container),
        metadata(container.labels->0, default_network) is Ok,
    ensures
        outcome_of(container, default_network).claim() == Some(
            RouteModel {
                host: metadata(container.labels->0, default_network)->Ok_0.0,
                upstreams: Seq::empty(),
            },
        ),
{
}

/// Every address in the routes of containers is the address of a serving, enabled container for
/// that host.
pub proof fn upstreams_are_serving_containers(
    routes: Seq<RouteModel>,
    containers: Seq<Container>,
    default_network: Option<Seq<char>>,
    i: int,
    addr: Seq<char>,
) -> (j: int)
    requires
        crate::groups::routes_match(routes, container_claims(containers, default_network)),
        0 <= i < routes.len(),
        routes[i].upstreams.contains(addr),
    ensures
        0 <= j < containers.len(),
        serving(containers[j]@),
        containers[j]@.labels is Some && enabled(containers[j]@.labels->0),
        outcome_of(containers[j]@, default_network) == ContainerOutcomeModel::Routed(
            routes[i].host,
            addr,
        ),
{
    let claims = container_claims(containers, default_network);
    let j = choose|j: int|
        0 <= j < claims.len() && crate::groups::claims_address(
            #[trigger] claims[j],
            routes[i].host,
            addr,
        );
    assert(claims[j] == outcome_of(containers[j]@, default_network).claim());
    j
}

/// The network of a container is chosen in this order: its own label, the default network, its
/// only network. With several networks and neither of the first two it gets no route.
pub proof fn networks_have_precedence(
    container: ContainerModel,
    labels: LabelsModel,
    default_network: Option<Seq<char>>,
)
    requires
        metadata(labels, default_network) is Ok,
        container.networks is Some,
    ensures
        ({
            let networks = container.networks->0;
            let labeled = labels.contains_key(NETWORK_LABEL@) && !crate::text::is_blank(
                labels[NETWORK_LABEL@],
            );
            let endpoint = endpoint_of(container.networks, metadata(labels, default_network)->Ok_0.2);
            &&& labeled && networks.contains_key(labels[NETWORK_LABEL@]) ==> endpoint == Ok::<
                EndpointModel,
                DockerErrorModel,
            >(networks[labels[NETWORK_LABEL@]])
            &&& !labeled && default_network is Some && networks.contains_key(default_network->0)
                ==> endpoint == Ok::<EndpointModel, DockerErrorModel>(networks[default_network->0])
            &&& !labeled && default_network is None && networks.dom().len() == 1 ==> endpoint is Ok
                && networks.dom().contains(networks.dom().choose()) && endpoint->Ok_0
                == networks[networks.dom().choose()]
            &&& !labeled && default_network is None && networks.dom().len() == 1
                && networks.dom().finite() ==> forall|name: Seq<char>| #[trigger]
                networks.contains_key(name) ==> endpoint->Ok_0 == networks[name]
            &&& !labeled && default_network is None && networks.dom().len() != 1
                ==> container_route(container, labels, default_network) == Err::<
                (Seq<char>, Seq<char>),
                DockerErrorModel,
            >(DockerErrorModel::MissingNetwork)
        }),
{
    let networks = container.networks->0;
    if networks.dom().len() == 1 && networks.dom() == Set::<Seq<char>>::empty() {
        assert(networks.dom().len() == 0);
    }
    if networks.dom().len() == 1 && networks.dom().finite() {
        let only = networks.dom().choose();
        let others = networks.dom().remove(only);
        assert forall|name: Seq<char>| #[trigger] networks.contains_key(name) implies name
            == only by {
            if name != only {
                assert(others.contains(name));
                assert(others.remove(name).len() < others.len());
            }
        }
    }
}

/// A Swarm service needs a network too: its own label, the default network or its only network.
/// With several networks and neither of the first two it gets no route; with a network and a
/// name it claims its host.
pub proof fn services_need_a_network(
    service: ServiceModel,
    tasks: Seq<Task>,
    default_network: Option<Seq<char>>,
)
    requires
        service.labels is Some,
        metadata(service.labels->0, default_network) is Ok,
    ensures
        ({
            let labels = service.labels->0;
            let labeled = labels.contains_key(NETWORK_LABEL@) && !crate::text::is_blank(
                labels[NETWORK_LABEL@],
            );
            let outcome = service_outcome_of(service, tasks, default_network);
            &&& outcome == ServiceOutcomeModel::Skipped(DockerErrorModel::MissingNetwork)
                <==> !labeled && default_network is None && service.networks.len() != 1
            &&& (labeled || default_network is Some || service.networks.len() == 1)
                && service.name is Some ==> outcome.claim(Seq::empty()) == Some(
                RouteModel {
                    host: metadata(labels, default_network)->Ok_0.0,
                    upstreams: Seq::empty(),
                },
            )
        }),
{
}

// ---------------------------------------------------------------------------------------------
// Laws of labels
// ---------------------------------------------------------------------------------------------

/// A workload is enabled exactly where its label `pingate.enable` is the four letters of `true`,
/// each small or capital.
pub proof fn enabled_by_the_word_true(labels: LabelsModel)
    ensures
        enabled(labels) <==> labels.contains_key("pingate.enable"@) && {
            let value = labels["pingate.enable"@];
            &&& value.len() == 4
            &&& value[0] == 't' || value[0] == 'T'
            &&& value[1] == 'r' || value[1] == 'R'
            &&& value[2] == 'u' || value[2] == 'U'
            &&& value[3] == 'e' || value[3] == 'E'
        },
{
    reveal_strlit("true");
    let value = labels["pingate.enable"@];
    let small = crate::text::lower(value);
    if small == "true"@ {
        assert(small.len() == 4);
        assert(small[0] == 't' && small[1] == 'r' && small[2] == 'u' && small[3] == 'e');
    }
    if value.len() == 4 && (value[0] == 't' || value[0] == 'T') && (value[1] == 'r' || value[1]
        == 'R') && (value[2] == 'u' || value[2] == 'U') && (value[3] == 'e' || value[3] == 'E') {
        assert(small =~= "true"@);
    }
}

/// A port label gives the number that it writes, where that is from 1 to 65535, and else nothing.
pub proof fn ports_are_the_numbers_written(value: Seq<char>, port: u16)
    ensures
        port_of(value) == Some(port) <==> crate::text::natural(value) == Some(port as nat) && port
            >= 1,
        port_of(value) is None <==> {
            ||| crate::text::natural(value) is None
            ||| crate::text::natural(value)->0 == 0
            ||| crate::text::natural(value)->0 > 65535
        },
{
}

/// The network asked for is the label `pingate.network` as it stands where it holds more than
/// white space, and else the default.
pub proof fn networks_by_label(labels: LabelsModel, default_network: Option<Seq<char>>)
    ensures
        ({
            let labeled = labels.contains_key("pingate.network"@) && exists|k: int|
                0 <= k < labels["pingate.network"@].len() && !crate::text::is_white(
                    #[trigger] labels["pingate.network"@][k],
                );
            &&& labeled ==> network_of(labels, default_network) == Some(labels["pingate.network"@])
            &&& !labeled ==> network_of(labels, default_network) == default_network
        }),
{
    if labels.contains_key("pingate.network"@) {
        crate::text::blank_texts(labels["pingate.network"@]);
    }
}

/// Labels make a route exactly where they enable it, name a valid host and write a port. It is
/// then for that host in normalized form, at the port that is written, on the network asked for.
pub proof fn metadata_is_what_the_labels_say(labels: LabelsModel, default_network: Option<Seq<char>>)
    ensures
        ({
            let host = labels["pingate.host"@];
            let port = labels["pingate.port"@];
            let m = metadata(labels, default_network);
            &&& m is Ok <==> {
                &&& enabled(labels)
                &&& labels.contains_key("pingate.host"@)
                &&& crate::routes::normalized(host) is Ok
                &&& labels.contains_key("pingate.port"@)
                &&& crate::text::natural(port) is Some
                &&& 1 <= crate::text::natural(port)->0 <= 65535
            }
            &&& m is Ok ==> {
                &&& crate::routes::normalized(host) == Ok::<Seq<char>, RouteErrorModel>(m->Ok_0.0)
                &&& crate::text::natural(port) == Some(m->Ok_0.1 as nat)
                &&& m->Ok_0.2 == network_of(labels, default_network)
            }
        }),
{
}

/// Labels that make no route are faulted for the first of these: they do not enable it, they name
/// no host, the host is not valid, they write no port, the port is none.
pub proof fn metadata_faults(labels: LabelsModel, default_network: Option<Seq<char>>)
    ensures
        ({
            let host = labels["pingate.host"@];
            let port = labels["pingate.port"@];
            let m = metadata(labels, default_network);
            let hosted = enabled(labels) && labels.contains_key("pingate.host"@);
            let valid = hosted && crate::routes::normalized(host) is Ok;
            &&& m is Err && m->Err_0 is Disabled <==> !enabled(labels)
            &&& m is Err && m->Err_0 is MissingHost <==> enabled(labels) && !labels.contains_key(
                "pingate.host"@,
            )
            &&& hosted && crate::routes::normalized(host) is Err ==> m is Err && m->Err_0
                == DockerErrorModel::InvalidHost(crate::routes::normalized(host)->Err_0)
            &&& m is Err && m->Err_0 is MissingPort <==> valid && !labels.contains_key(
                "pingate.port"@,
            )
            &&& valid && labels.contains_key("pingate.port"@) && port_of(port) is None ==> m is Err
                && m->Err_0 == DockerErrorModel::InvalidPort(port)
            &&& m is Err ==> !(m->Err_0 is MissingNetwork || m->Err_0 is UnknownNetwork
                || m->Err_0 is MissingIp || m->Err_0 is MissingServiceName)
        }),
{
}

// ---------------------------------------------------------------------------------------------
// Laws of containers
// ---------------------------------------------------------------------------------------------

/// The contents of an optional value are those of the value, where there is one.
pub proof fn optional_contents<T: View>(value: Option<T>, name: Option<&str>)
    ensures
        contents(value) is Some <==> value is Some,
        value is Some ==> contents(value)->0 == value->0@,
        text_in(name) is Some <==> name is Some,
        name is Some ==> text_in(name)->0 == name->0@,
{
}

/// What is known of a container is what Docker reports of it, field by field.
pub proof fn container_contents(c: Container)
    ensures
        c@.id is Some <==> c.id is Some,
        c.id is Some ==> c@.id->0 == c.id->0@,
        c@.names is Some <==> c.names is Some,
        c.names is Some ==> c@.names->0.len() == c.names->0@.len(),
        forall|i: int|
            c.names is Some && 0 <= i < c.names->0@.len() ==> #[trigger] c@.names->0[i]
                == c.names->0@[i]@,
        c@.state == c.state,
        c@.health == c.health,
        c@.labels is Some <==> c.labels is Some,
        c.labels is Some ==> c@.labels->0 == c.labels->0@,
        c@.networks is Some <==> c.networks is Some,
        c.networks is Some ==> c@.networks->0 == c.networks->0@,
{
}

/// What is known of an endpoint is what Docker reports of it, field by field.
pub proof fn endpoint_contents(e: Endpoint, a: EndpointAddress)
    ensures
        e@.ip_address is Some <==> e.ip_address is Some,
        e.ip_address is Some ==> e@.ip_address->0 == e.ip_address->0@,
        e@.global_ipv6_address is Some <==> e.global_ipv6_address is Some,
        e.global_ipv6_address is Some ==> e@.global_ipv6_address->0 == e.global_ipv6_address->0@,
        a@.text == a.text@,
        a@.ip is Some <==> a.ip is Some,
        a.ip is Some ==> a@.ip->0 == a.ip->0@,
{
}

/// The address of an endpoint is that of its IPv4 field where its text is not empty, and else
/// that of its IPv6 field where its text is not empty.
pub proof fn endpoints_have_one_address(e: EndpointModel)
    ensures
        ({
            let four = e.ip_address is Some && e.ip_address->0.text.len() != 0;
            let six = e.global_ipv6_address is Some && e.global_ipv6_address->0.text.len() != 0;
            &&& four ==> endpoint_ip(e) == e.ip_address->0.ip
            &&& !four && six ==> endpoint_ip(e) == e.global_ipv6_address->0.ip
            &&& !four && !six ==> endpoint_ip(e) is None
        }),
{
}

/// A container that is asked to use a network it is not attached to is faulted for that network.
pub proof fn unknown_networks_are_faulted(
    networks: Option<Map<Seq<char>, EndpointModel>>,
    network: Option<Seq<char>>,
)
    ensures
        networks is None ==> endpoint_of(networks, network) == Err::<
            EndpointModel,
            DockerErrorModel,
        >(DockerErrorModel::MissingNetwork),
        networks is Some && network is Some && !networks->0.contains_key(network->0)
            ==> endpoint_of(networks, network) == Err::<EndpointModel, DockerErrorModel>(
            DockerErrorModel::UnknownNetwork(network->0),
        ),
        networks is Some && network is Some && networks->0.contains_key(network->0) ==> endpoint_of(
            networks,
            network,
        ) == Ok::<EndpointModel, DockerErrorModel>(networks->0[network->0]),
{
}

/// A container is routed exactly where its labels make a route, it runs, no health check speaks
/// against it, and the endpoint on its network has an address.
pub proof fn containers_are_routed_while_they_serve(
    c: ContainerModel,
    default_network: Option<Seq<char>>,
)
    ensures
        ({
            let m = metadata(c.labels->0, default_network);
            let up = c.state == Some(ContainerState::Running) && c.health != Some(
                HealthStatus::Starting,
            ) && c.health != Some(HealthStatus::Unhealthy);
            let endpoint = endpoint_of(c.networks, m->Ok_0.2);
            let outcome = outcome_of(c, default_network);
            &&& outcome is Routed <==> c.labels is Some && m is Ok && up && endpoint is Ok
                && endpoint_ip(endpoint->Ok_0) is Some
            &&& outcome is Reserved <==> c.labels is Some && m is Ok && !up
            &&& outcome is Routed ==> outcome->Routed_0 == m->Ok_0.0
            &&& outcome is Reserved ==> outcome->Reserved_0 == m->Ok_0.0
            &&& outcome is Skipped <==> c.labels is Some && enabled(c.labels->0) && up && !(
            outcome is Routed)
            &&& outcome is Skipped && m is Err ==> outcome->Skipped_0 == m->Err_0
            &&& outcome is Skipped && m is Ok && endpoint is Err ==> outcome->Skipped_0
                == endpoint->Err_0
            &&& outcome is Skipped && m is Ok && endpoint is Ok ==> outcome->Skipped_0
                == DockerErrorModel::MissingIp
        }),
{
}

/// The address of a routed container is the IP address of its endpoint, for IPv6 in brackets,
/// then a colon and the number that its label `pingate.port` writes.
pub proof fn routed_addresses_have_the_labeled_port(
    c: ContainerModel,
    default_network: Option<Seq<char>>,
)
    requires
        outcome_of(c, default_network) is Routed,
    ensures
        ({
            let labels = c.labels->0;
            let network = network_of(labels, default_network);
            let ip = endpoint_ip(endpoint_of(c.networks, network)->Ok_0)->0;
            let addr = outcome_of(c, default_network)->Routed_1;
            let port = crate::text::natural(labels["pingate.port"@])->0;
            &&& ip is V4 ==> {
                let n = ip->V4_0.len() as int;
                &&& addr.len() > n + 1
                &&& addr.take(n) == ip->V4_0
                &&& addr[n] == ':'
                &&& crate::net::writes(addr.skip(n + 1), port)
            }
            &&& ip is V6 ==> {
                let n = ip->V6_0.len() as int;
                &&& addr.len() > n + 3
                &&& addr[0] == '['
                &&& addr.subrange(1, n + 1) == ip->V6_0
                &&& addr[n + 1] == ']'
                &&& addr[n + 2] == ':'
                &&& crate::net::writes(addr.skip(n + 3), port)
            }
        }),
{
    let labels = c.labels->0;
    let network = network_of(labels, default_network);
    let ip = endpoint_ip(endpoint_of(c.networks, network)->Ok_0)->0;
    let port = metadata(labels, default_network)->Ok_0.1;
    metadata_is_what_the_labels_say(labels, default_network);
    match ip {
        IpModel::V4(text) => crate::net::addresses_are_written(text, port, 0),
        IpModel::V6(text) => crate::net::addresses_are_written(text, port, 0),
    }
}

/// Containers that are alike but for the port that their labels write have different addresses.
pub proof fn ports_tell_addresses_apart(
    a: ContainerModel,
    b: ContainerModel,
    default_network: Option<Seq<char>>,
)
    requires
        outcome_of(a, default_network) is Routed,
        outcome_of(b, default_network) is Routed,
        a.networks == b.networks,
        network_of(a.labels->0, default_network) == network_of(b.labels->0, default_network),
        crate::text::natural(a.labels->0["pingate.port"@]) != crate::text::natural(
            b.labels->0["pingate.port"@],
        ),
    ensures
        outcome_of(a, default_network)->Routed_1 != outcome_of(b, default_network)->Routed_1,
{
    routed_addresses_have_the_labeled_port(a, default_network);
    routed_addresses_have_the_labeled_port(b, default_network);
    metadata_is_what_the_labels_say(a.labels->0, default_network);
    metadata_is_what_the_labels_say(b.labels->0, default_network);
}

/// What containers claim: a routed one its host and its address alone, a reserved one its host
/// alone, every other nothing; one place for each container.
pub proof fn containers_claim_their_outcome(
    containers: Seq<Container>,
    default_network: Option<Seq<char>>,
    i: int,
)
    requires
        0 <= i < containers.len(),
    ensures
        ({
            let claims = container_claims(containers, default_network);
            let outcome = outcome_of(containers[i]@, default_network);
            &&& claims.len() == containers.len()
            &&& outcome is Routed ==> claims[i] is Some && claims[i]->0.host == outcome->Routed_0
                && claims[i]->0.upstreams == seq![outcome->Routed_1]
            &&& outcome is Reserved ==> claims[i] is Some && claims[i]->0.host
                == outcome->Reserved_0 && claims[i]->0.upstreams.len() == 0
            &&& outcome is Ignored || outcome is Skipped ==> claims[i] is None
        }),
{
}

/// A container is told by its first name, of which only slashes at the start are left out, else
/// by the first twelve characters of its id, or all where there are fewer, else as unknown.
pub proof fn containers_are_told(c: ContainerModel) -> (cut: int)
    ensures
        c.names is Some && c.names->0.len() > 0 ==> {
            let name = c.names->0[0];
            &&& 0 <= cut <= name.len()
            &&& told_name(c) == name.skip(cut)
            &&& forall|k: int| 0 <= k < cut ==> #[trigger] name[k] == '/'
            &&& cut < name.len() ==> name[cut] != '/'
        },
        (c.names is None || c.names->0.len() == 0) && c.id is Some ==> {
            &&& c.id->0.len() >= 12 ==> told_name(c).len() == 12
            &&& c.id->0.len() < 12 ==> told_name(c).len() == c.id->0.len()
            &&& forall|k: int|
                0 <= k < told_name(c).len() ==> #[trigger] told_name(c)[k] == c.id->0[k]
        },
        (c.names is None || c.names->0.len() == 0) && c.id is None ==> told_name(c) == "unknown"@,
{
    if c.names is Some && c.names->0.len() > 0 {
        lemma_slashes_cut(c.names->0[0])
    } else {
        0
    }
}

proof fn lemma_slashes_cut(name: Seq<char>) -> (cut: int)
    ensures
        0 <= cut <= name.len(),
        without_slashes(name) == name.skip(cut),
        forall|k: int| 0 <= k < cut ==> #[trigger] name[k] == '/',
        cut < name.len() ==> name[cut] != '/',
    decreases name.len(),
{
    if name.len() > 0 && name[0] == '/' {
        let rest = name.drop_first();
        let cut = lemma_slashes_cut(rest);
        assert(rest.skip(cut) =~= name.skip(cut + 1));
        assert forall|k: int| 0 <= k < cut + 1 implies #[trigger] name[k] == '/' by {
            if k > 0 {
                assert(rest[k - 1] == name[k]);
            }
        }
        if cut + 1 < name.len() {
            assert(rest[cut] == name[cut + 1]);
        }
        cut + 1
    } else {
        assert(name.skip(0) =~= name);
        0
    }
}

// ---------------------------------------------------------------------------------------------
// Laws of Swarm services
// ---------------------------------------------------------------------------------------------

/// What is known of a service and of a task is what Docker reports of it, field by field.
pub proof fn service_contents(s: Service, t: Task)
    ensures
        s@.id is Some <==> s.id is Some,
        s.id is Some ==> s@.id->0 == s.id->0@,
        s@.name is Some <==> s.name is Some,
        s.name is Some ==> s@.name->0 == s.name->0@,
        s@.labels is Some <==> s.labels is Some,
        s.labels is Some ==> s@.labels->0 == s.labels->0@,
        s@.networks.len() == s.networks@.len(),
        forall|i: int|
            0 <= i < s.networks@.len() ==> #[trigger] s@.networks[i] == s.networks@[i]@,
        t@.service_id is Some <==> t.service_id is Some,
        t.service_id is Some ==> t@.service_id->0 == t.service_id->0@,
        t@.desired_state == t.desired_state,
        t@.state == t.state,
{
}

/// A task runs exactly where it is meant to run and does.
pub proof fn tasks_run_where_meant(t: Task)
    ensures
        task_runs(t@) <==> t.desired_state == Some(TaskState::Running) && t.state == Some(
            TaskState::Running,
        ),
{
}

proof fn lemma_running_for(tasks: Seq<Task>, id: Seq<char>)
    ensures
        running_for(tasks, id) > 0 <==> exists|k: int|
            0 <= k < tasks.len() && runs_for((#[trigger] tasks[k])@, id),
    decreases tasks.len(),
{
    if tasks.len() > 0 {
        let init = tasks.drop_last();
        lemma_running_for(init, id);
        if exists|k: int| 0 <= k < init.len() && runs_for((#[trigger] init[k])@, id) {
            let k = choose|k: int| 0 <= k < init.len() && runs_for((#[trigger] init[k])@, id);
            assert(runs_for(tasks[k]@, id));
        }
        if exists|k: int| 0 <= k < tasks.len() && runs_for((#[trigger] tasks[k])@, id) {
            let k = choose|k: int| 0 <= k < tasks.len() && runs_for((#[trigger] tasks[k])@, id);
            if k < init.len() {
                assert(init[k] == tasks[k]);
            }
        }
        assert(tasks[tasks.len() - 1] == tasks.last());
    }
}

/// A service whose labels make a route, with a name and a network, is looked up exactly while
/// some task is its own, is meant to run and runs, whatever other tasks there are; else its host
/// stays known. It is looked up under its own name, for the port that its label writes.
pub proof fn services_are_looked_up_while_a_task_runs(
    service: Service,
    tasks: Seq<Task>,
    default_network: Option<Seq<char>>,
)
    requires
        service.labels is Some,
        metadata(service.labels->0@, default_network) is Ok,
        service.name is Some,
        network_of(service.labels->0@, default_network) is Some || service.networks@.len() == 1,
    ensures
        ({
            let labels = service.labels->0@;
            let outcome = service_outcome_of(service@, tasks, default_network);
            let id = if service.id is Some {
                service.id->0@
            } else {
                Seq::empty()
            };
            let runs = exists|k: int|
                {
                    &&& 0 <= k < tasks.len()
                    &&& (#[trigger] tasks[k]).service_id is Some
                    &&& tasks[k].service_id->0@ == id
                    &&& tasks[k].desired_state == Some(TaskState::Running)
                    &&& tasks[k].state == Some(TaskState::Running)
                };
            let host = crate::routes::normalized(labels["pingate.host"@])->Ok_0;
            &&& outcome is Resolve <==> runs
            &&& outcome is Reserved <==> !runs
            &&& outcome is Resolve ==> {
                &&& outcome->Resolve_host == host
                &&& outcome->service_name == service.name->0@
                &&& crate::text::natural(labels["pingate.port"@]) == Some(outcome->port as nat)
            }
            &&& outcome is Reserved ==> outcome->Reserved_0 == host
        }),
{
    let labels = service.labels->0@;
    metadata_is_what_the_labels_say(labels, default_network);
    let id = service_id(service@);
    lemma_running_for(tasks, id);
    if running_for(tasks, id) > 0 {
        let k = choose|k: int| 0 <= k < tasks.len() && runs_for((#[trigger] tasks[k])@, id);
        assert(tasks[k].service_id is Some && tasks[k].service_id->0@ == id);
    }
    if exists|k: int|
        {
            &&& 0 <= k < tasks.len()
            &&& (#[trigger] tasks[k]).service_id is Some
            &&& tasks[k].service_id->0@ == id
            &&& tasks[k].desired_state == Some(TaskState::Running)
            &&& tasks[k].state == Some(TaskState::Running)
        } {
        let k = choose|k: int|
            {
                &&& 0 <= k < tasks.len()
                &&& (#[trigger] tasks[k]).service_id is Some
                &&& tasks[k].service_id->0@ == id
                &&& tasks[k].desired_state == Some(TaskState::Running)
                &&& tasks[k].state == Some(TaskState::Running)
            };
        assert(runs_for(tasks[k]@, id));
    }
}

/// A service without the enabling label is none of ours. An enabled one is passed over exactly
/// where its labels make no route, it has no network or it has no name, for the first of these.
pub proof fn services_are_passed_over(
    service: Service,
    tasks: Seq<Task>,
    default_network: Option<Seq<char>>,
)
    ensures
        ({
            let labels = service.labels->0@;
            let on = service.labels is Some && enabled(labels);
            let m = metadata(labels, default_network);
            let networked = network_of(labels, default_network) is Some || service.networks@.len()
                == 1;
            let outcome = service_outcome_of(service@, tasks, default_network);
            &&& outcome is Ignored <==> !on
            &&& on && m is Err ==> outcome == ServiceOutcomeModel::Skipped(m->Err_0)
            &&& on && m is Ok && !networked ==> outcome == ServiceOutcomeModel::Skipped(
                DockerErrorModel::MissingNetwork,
            )
            &&& on && m is Ok && networked && service.name is None ==> outcome
                == ServiceOutcomeModel::Skipped(DockerErrorModel::MissingServiceName)
            &&& on && m is Ok && networked && service.name is Some ==> !(outcome is Skipped)
        }),
{
}

/// What services claim: one that was looked up its host and the text of each address found, all
/// of them in order; a reserved one its host alone; every other nothing; one place for each.
pub proof fn services_claim_what_was_found(
    outcomes: Seq<ServiceOutcome>,
    found: Seq<Vec<SocketAddr>>,
    i: int,
)
    requires
        0 <= i < outcomes.len(),
    ensures
        ({
            let claims = service_claims(outcomes, found);
            let outcome = outcomes[i];
            let claim = claims[i];
            &&& claims.len() == outcomes.len()
            &&& outcome is Resolve ==> {
                &&& claim is Some
                &&& claim->0.host == outcome->Resolve_host@
                &&& i < found.len() ==> claim->0.upstreams.len() == found[i]@.len()
                &&& i >= found.len() ==> claim->0.upstreams.len() == 0
                &&& forall|k: int|
                    0 <= k < claim->0.upstreams.len() ==> #[trigger] claim->0.upstreams[k]
                        == found[i]@[k]@.text()
            }
            &&& outcome is Reserved ==> claim is Some && claim->0.host == outcome->Reserved_0@
                && claim->0.upstreams.len() == 0
            &&& outcome is Ignored || outcome is Skipped ==> claim is None
        }),
{
}

// ---------------------------------------------------------------------------------------------
// Laws of outcomes and errors
// ---------------------------------------------------------------------------------------------

/// The contents of an outcome are what it holds.
pub proof fn outcome_contents(c: ContainerOutcome, s: ServiceOutcome)
    ensures
        c is Ignored <==> c@ is Ignored,
        c is Reserved ==> c@ == ContainerOutcomeModel::Reserved(c->Reserved_0@),
        c is Routed ==> c@ == ContainerOutcomeModel::Routed(c->Routed_0@, c->Routed_1.addr@),
        c is Skipped ==> c@ == ContainerOutcomeModel::Skipped(c->Skipped_0@),
        s is Ignored <==> s@ is Ignored,
        s is Reserved ==> s@ == ServiceOutcomeModel::Reserved(s->Reserved_0@),
        s is Resolve ==> s@ == (ServiceOutcomeModel::Resolve {
            host: s->host@,
            service_name: s->service_name@,
            port: s->port,
        }),
        s is Skipped ==> s@ == ServiceOutcomeModel::Skipped(s->Skipped_0@),
{
}

/// The contents of an error are which it is and what it holds.
pub proof fn error_contents(e: DockerRouteError)
    ensures
        e is Disabled <==> e@ is Disabled,
        e is MissingHost <==> e@ is MissingHost,
        e is InvalidHost ==> e@ == DockerErrorModel::InvalidHost(e->InvalidHost_0@),
        e is MissingPort <==> e@ is MissingPort,
        e is InvalidPort ==> e@ == DockerErrorModel::InvalidPort(e->InvalidPort_0@),
        e is MissingNetwork <==> e@ is MissingNetwork,
        e is UnknownNetwork ==> e@ == DockerErrorModel::UnknownNetwork(e->UnknownNetwork_0@),
        e is MissingIp <==> e@ is MissingIp,
        e is MissingServiceName <==> e@ is MissingServiceName,
{
}

/// An error is told in a sentence that holds the port, the network or the host error in full.
pub proof fn errors_hold_their_text(text: Seq<char>, host: RouteErrorModel)
    ensures
        ({
            let port = DockerErrorModel::InvalidPort(text).message();
            &&& port.len() == 47 + text.len()
            &&& port.take(46) == "`pingate.port` must be a valid TCP port, got `"@
            &&& port.subrange(46, 46 + text.len() as int) == text
            &&& port.last() == '`'
        }),
        ({
            let network = DockerErrorModel::UnknownNetwork(text).message();
            &&& network.len() == 42 + text.len()
            &&& network.take(9) == "network `"@
            &&& network.subrange(9, 9 + text.len() as int) == text
            &&& network.skip(9 + text.len() as int) == "` is not attached to the workload"@
        }),
        DockerErrorModel::InvalidHost(host).message() == host.message(),
{
    reveal_strlit("`pingate.port` must be a valid TCP port, got `");
    reveal_strlit("`");
    reveal_strlit("network `");
    reveal_strlit("` is not attached to the workload");
    let port = DockerErrorModel::InvalidPort(text).message();
    assert(port.take(46) =~= "`pingate.port` must be a valid TCP port, got `"@);
    assert(port.subrange(46, 46 + text.len() as int) =~= text);
    let network = DockerErrorModel::UnknownNetwork(text).message();
    assert(network.take(9) =~= "network `"@);
    assert(network.subrange(9, 9 + text.len() as int) =~= text);
    assert(network.skip(9 + text.len() as int) =~= "` is not attached to the workload"@);
}

} // verus!
