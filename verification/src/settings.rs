//! Settings from environment variables.

use vstd::prelude::*;

use crate::docker::contents;
use crate::net::{SocketAddr, SocketModel};
use crate::text::{
    chars_of, has_prefix, join3, lowered, parse_number, pieces, same_text, text_of, trimmed,
};

verus! {

pub const DEFAULT_LISTEN_ADDR: &'static str = "0.0.0.0:6198";

pub const DEFAULT_ADMIN_LISTEN_ADDR: &'static str = "0.0.0.0:6197";

pub const DEFAULT_DOCKER_HOST: &'static str = "unix:///var/run/docker.sock";

/// Where upstreams come from.
#[derive(Debug, Clone, Copy, PartialEq, Eq, Structural)]
pub enum Mode {
    Static,
    Compose,
    Swarm,
}

#[derive(Debug, Clone)]
pub struct Settings {
    pub mode: Mode,
    pub server: ServerConfig,
    pub static_upstreams: StaticConfig,
    pub docker: DockerConfig,
}

#[derive(Debug, Clone)]
pub struct ServerConfig {
    pub listen_addr: SocketAddr,
    pub admin_listen_addr: SocketAddr,
}

#[derive(Debug, Clone)]
pub struct StaticConfig {
    pub addresses: Vec<SocketAddr>,
    pub health_check_interval_seconds: u64,
    pub upstream_tls: bool,
    pub upstream_sni: String,
}

#[derive(Debug, Clone)]
pub struct DockerConfig {
    pub host: String,
    pub reconnect_interval_seconds: u64,
    pub resync_interval_seconds: u64,
    pub default_network: Option<String>,
    pub tls_ca_path: Option<String>,
    pub tls_cert_path: Option<String>,
    pub tls_key_path: Option<String>,
}

/// Why the settings are refused.
#[derive(Debug, Clone, PartialEq, Eq)]
pub struct SettingsError(String);

/// The environment variables that settings are made from, as they were found.
#[derive(Debug, Clone)]
pub struct Environment {
    pub mode: Option<String>,
    pub listen_addr: Option<String>,
    pub admin_listen_addr: Option<String>,
    pub static_upstreams: Option<String>,
    pub health_check_interval: Option<String>,
    pub upstream_tls: Option<String>,
    pub upstream_sni: Option<String>,
    pub docker_host: Option<String>,
    pub reconnect_interval: Option<String>,
    pub resync_interval: Option<String>,
    pub default_network: Option<String>,
    pub tls_ca_path: Option<String>,
    pub tls_cert_path: Option<String>,
    pub tls_key_path: Option<String>,
}

// ---------------------------------------------------------------------------------------------
// Models
// ---------------------------------------------------------------------------------------------

#[verifier::ext_equal]
pub struct EnvironmentModel {
    pub mode: Option<Seq<char>>,
    pub listen_addr: Option<Seq<char>>,
    pub admin_listen_addr: Option<Seq<char>>,
    pub static_upstreams: Option<Seq<char>>,
    pub health_check_interval: Option<Seq<char>>,
    pub upstream_tls: Option<Seq<char>>,
    pub upstream_sni: Option<Seq<char>>,
    pub docker_host: Option<Seq<char>>,
    pub reconnect_interval: Option<Seq<char>>,
    pub resync_interval: Option<Seq<char>>,
    pub default_network: Option<Seq<char>>,
    pub tls_ca_path: Option<Seq<char>>,
    pub tls_cert_path: Option<Seq<char>>,
    pub tls_key_path: Option<Seq<char>>,
}

#[verifier::ext_equal]
pub struct DockerConfigModel {
    pub host: Seq<char>,
    pub reconnect_interval_seconds: u64,
    pub resync_interval_seconds: u64,
    pub default_network: Option<Seq<char>>,
    pub tls_ca_path: Option<Seq<char>>,
    pub tls_cert_path: Option<Seq<char>>,
    pub tls_key_path: Option<Seq<char>>,
}

#[verifier::ext_equal]
pub struct SettingsModel {
    pub mode: Mode,
    pub listen_addr: SocketModel,
    pub admin_listen_addr: SocketModel,
    pub addresses: Seq<SocketModel>,
    pub health_check_interval_seconds: u64,
    pub upstream_tls: bool,
    pub upstream_sni: Seq<char>,
    pub docker: DockerConfigModel,
}

impl View for Environment {
    type V = EnvironmentModel;

    open spec fn view(&self) -> EnvironmentModel {
        EnvironmentModel {
            mode: contents(self.mode),
            listen_addr: contents(self.listen_addr),
            admin_listen_addr: contents(self.admin_listen_addr),
            static_upstreams: contents(self.static_upstreams),
            health_check_interval: contents(self.health_check_interval),
            upstream_tls: contents(self.upstream_tls),
            upstream_sni: contents(self.upstream_sni),
            docker_host: contents(self.docker_host),
            reconnect_interval: contents(self.reconnect_interval),
            resync_interval: contents(self.resync_interval),
            default_network: contents(self.default_network),
            tls_ca_path: contents(self.tls_ca_path),
            tls_cert_path: contents(self.tls_cert_path),
            tls_key_path: contents(self.tls_key_path),
        }
    }
}

impl View for DockerConfig {
    type V = DockerConfigModel;

    open spec fn view(&self) -> DockerConfigModel {
        DockerConfigModel {
            host: self.host@,
            reconnect_interval_seconds: self.reconnect_interval_seconds,
            resync_interval_seconds: self.resync_interval_seconds,
            default_network: contents(self.default_network),
            tls_ca_path: contents(self.tls_ca_path),
            tls_cert_path: contents(self.tls_cert_path),
            tls_key_path: contents(self.tls_key_path),
        }
    }
}

/// The contents of the addresses `v`, in order.
pub open spec fn socket_models(v: Seq<SocketAddr>) -> Seq<SocketModel> {
    Seq::new(v.len(), |i: int| v[i]@)
}

/// The contents of the optional addresses `v`, in order.
pub open spec fn parsed_models(v: Seq<Option<SocketAddr>>) -> Seq<Option<SocketModel>> {
    Seq::new(v.len(), |i: int| contents(v[i]))
}

impl View for Settings {
    type V = SettingsModel;

    open spec fn view(&self) -> SettingsModel {
        SettingsModel {
            mode: self.mode,
            listen_addr: self.server.listen_addr@,
            admin_listen_addr: self.server.admin_listen_addr@,
            addresses: socket_models(self.static_upstreams.addresses@),
            health_check_interval_seconds: self.static_upstreams.health_check_interval_seconds,
            upstream_tls: self.static_upstreams.upstream_tls,
            upstream_sni: self.static_upstreams.upstream_sni@,
            docker: self.docker@,
        }
    }
}

impl View for SettingsError {
    type V = Seq<char>;

    closed spec fn view(&self) -> Seq<char> {
        self.0@
    }
}

impl SettingsError {
    fn new(message: String) -> (r: SettingsError)
        ensures
            r@ == message@,
    {
        SettingsError(message)
    }

    /// The sentence that tells the error.
    pub fn to_string(&self) -> (r: String)
        ensures
            r@ == self@,
    {
        self.0.clone()
    }
}

// ---------------------------------------------------------------------------------------------
// Single settings
// ---------------------------------------------------------------------------------------------

/// The value of a variable, or its default where it is not set.
pub open spec fn value_or(value: Option<Seq<char>>, default: Seq<char>) -> Seq<char> {
    match value {
        Some(v) => v,
        None => default,
    }
}

/// The mode that a small-letter text names.
pub open spec fn mode_named(name: Seq<char>) -> Option<Mode> {
    if name == "static"@ {
        Some(Mode::Static)
    } else if name == "compose"@ {
        Some(Mode::Compose)
    } else if name == "swarm"@ {
        Some(Mode::Swarm)
    } else {
        None
    }
}

/// The mode, which must be given, in any case of letters.
pub open spec fn mode_setting(value: Option<Seq<char>>) -> Result<Mode, Seq<char>> {
    if value is None || crate::text::is_blank(value->0) {
        Err("PINGATE_MODE is required"@)
    } else {
        match mode_named(crate::text::lower(value->0)) {
            Some(mode) => Ok(mode),
            None => Err(
                "PINGATE_MODE must be static, compose, or swarm; got `"@ + crate::text::lower(
                    value->0,
                ) + "`"@,
            ),
        }
    }
}

/// The address that `text` was found to write.
pub open spec fn address_setting(
    key: Seq<char>,
    text: Seq<char>,
    parsed: Option<SocketModel>,
) -> Result<SocketModel, Seq<char>> {
    match parsed {
        Some(addr) => Ok(addr),
        None => Err(key + " must be a socket address, got `"@ + (text + "`"@)),
    }
}

/// The pieces of a comma-separated list that are not blank, each without white space around.
pub open spec fn list_items(pieces: Seq<Seq<char>>) -> Seq<Seq<char>>
    decreases pieces.len(),
{
    if pieces.len() == 0 {
        Seq::empty()
    } else if crate::text::is_blank(pieces.last()) {
        list_items(pieces.drop_last())
    } else {
        list_items(pieces.drop_last()).push(crate::text::trim(pieces.last()))
    }
}

/// The addresses that the static upstreams name, as texts.
pub open spec fn upstream_texts(value: Option<Seq<char>>) -> Seq<Seq<char>> {
    match value {
        Some(v) => list_items(crate::text::split(v, ',')),
        None => Seq::empty(),
    }
}

/// The addresses that `texts` were found to write; the error of the first that writes none.
pub open spec fn addresses_setting(
    texts: Seq<Seq<char>>,
    parsed: Seq<Option<SocketModel>>,
) -> Result<Seq<SocketModel>, Seq<char>>
    decreases texts.len(),
{
    if texts.len() == 0 {
        Ok(Seq::empty())
    } else {
        match addresses_setting(texts.drop_last(), parsed.drop_last()) {
            Err(e) => Err(e),
            Ok(before) => match address_setting(
                "PINGATE_STATIC_UPSTREAMS"@,
                texts.last(),
                parsed.last(),
            ) {
                Err(e) => Err(e),
                Ok(addr) => Ok(before.push(addr)),
            },
        }
    }
}

/// The static upstreams: at least one where they are given, and given in static mode.
pub open spec fn upstreams_setting(
    mode: Mode,
    value: Option<Seq<char>>,
    parsed: Seq<Option<SocketModel>>,
) -> Result<Seq<SocketModel>, Seq<char>> {
    match value {
        Some(_) => match addresses_setting(upstream_texts(value), parsed) {
            Err(e) => Err(e),
            Ok(addresses) => if addresses.len() == 0 {
                Err("PINGATE_STATIC_UPSTREAMS must contain at least one address"@)
            } else {
                Ok(addresses)
            },
        },
        None => if mode == Mode::Static {
            Err("PINGATE_STATIC_UPSTREAMS is required in static mode"@)
        } else {
            Ok(Seq::empty())
        },
    }
}

/// A number of seconds, which must be positive.
pub open spec fn seconds_setting(key: Seq<char>, text: Seq<char>) -> Result<u64, Seq<char>> {
    match crate::text::number_up_to(text, u64::MAX as nat) {
        Some(n) if n > 0 => Ok(n as u64),
        _ => Err(key + " must be a positive integer"@),
    }
}

/// What a small-letter text says, yes or no.
pub open spec fn bool_named(name: Seq<char>) -> Option<bool> {
    if name == "true"@ || name == "1"@ || name == "yes"@ || name == "on"@ {
        Some(true)
    } else if name == "false"@ || name == "0"@ || name == "no"@ || name == "off"@ {
        Some(false)
    } else {
        None
    }
}

/// A switch, in any case of letters.
pub open spec fn bool_setting(key: Seq<char>, text: Seq<char>) -> Result<bool, Seq<char>> {
    match bool_named(crate::text::lower(text)) {
        Some(b) => Ok(b),
        None => Err(key + " must be true or false, got `"@ + (text + "`"@)),
    }
}

/// Whether the Docker endpoint has a scheme that can be used.
pub open spec fn docker_scheme(host: Seq<char>) -> bool {
    ||| crate::text::starts_with(host, "unix://"@)
    ||| crate::text::starts_with(host, "http://"@)
    ||| crate::text::starts_with(host, "https://"@)
}

/// The value of a variable without white space around; nothing where it is blank.
pub open spec fn non_blank(value: Option<Seq<char>>) -> Option<Seq<char>> {
    match value {
        Some(v) if !crate::text::is_blank(v) => Some(crate::text::trim(v)),
        _ => None,
    }
}

fn value_of<'a>(value: &'a Option<String>, default: &'a str) -> (r: &'a str)
    ensures
        r@ == value_or(contents(*value), default@),
{
    match value {
        Some(v) => v.as_str(),
        None => default,
    }
}

fn lower_text(text: &str) -> (r: String)
    ensures
        r@ == crate::text::lower(text@),
{
    text_of(lowered(chars_of(text).as_slice()).as_slice())
}

fn parse_mode(value: &Option<String>) -> (r: Result<Mode, SettingsError>)
    ensures
        match r {
            Ok(mode) => mode_setting(contents(*value)) == Ok::<Mode, Seq<char>>(mode),
            Err(e) => mode_setting(contents(*value)) == Err::<Mode, Seq<char>>(e@),
        },
{
    let value = match value {
        Some(value) => value,
        None => return Err(SettingsError::new("PINGATE_MODE is required".to_owned())),
    };
    if trimmed(chars_of(value.as_str()).as_slice()).len() == 0 {
        return Err(SettingsError::new("PINGATE_MODE is required".to_owned()));
    }
    let name = lower_text(value.as_str());
    if same_text(name.as_str(), "static") {
        Ok(Mode::Static)
    } else if same_text(name.as_str(), "compose") {
        Ok(Mode::Compose)
    } else if same_text(name.as_str(), "swarm") {
        Ok(Mode::Swarm)
    } else {
        Err(
            SettingsError::new(
                join3(
                    "PINGATE_MODE must be static, compose, or swarm; got `",
                    name.as_str(),
                    "`",
                ),
            ),
        )
    }
}

fn parse_socket_addr(key: &str, value: &str, parsed: Option<SocketAddr>) -> (r: Result<
    SocketAddr,
    SettingsError,
>)
    ensures
        match r {
            Ok(addr) => address_setting(key@, value@, contents(parsed)) == Ok::<
                SocketModel,
                Seq<char>,
            >(addr@),
            Err(e) => address_setting(key@, value@, contents(parsed)) == Err::<
                SocketModel,
                Seq<char>,
            >(e@),
        },
{
    match parsed {
        Some(addr) => Ok(addr),
        None => {
            let mut message = key.to_owned();
            message.append(" must be a socket address, got `");
            message.append(value);
            message.append("`");
            assert(message@ =~= key@ + " must be a socket address, got `"@ + (value@ + "`"@));
            Err(SettingsError::new(message))
        },
    }
}

fn parse_positive_u64(key: &str, value: &str) -> (r: Result<u64, SettingsError>)
    ensures
        match r {
            Ok(n) => seconds_setting(key@, value@) == Ok::<u64, Seq<char>>(n),
            Err(e) => seconds_setting(key@, value@) == Err::<u64, Seq<char>>(e@),
        },
{
    match parse_number(chars_of(value).as_slice(), u64::MAX) {
        Some(n) if n > 0 => Ok(n),
        _ => {
            let mut message = key.to_owned();
            message.append(" must be a positive integer");
            Err(SettingsError::new(message))
        },
    }
}

fn parse_bool(key: &str, value: &str) -> (r: Result<bool, SettingsError>)
    ensures
        match r {
            Ok(b) => bool_setting(key@, value@) == Ok::<bool, Seq<char>>(b),
            Err(e) => bool_setting(key@, value@) == Err::<bool, Seq<char>>(e@),
        },
{
    let name = lower_text(value);
    let name = name.as_str();
    if same_text(name, "true") || same_text(name, "1") || same_text(name, "yes") || same_text(
        name,
        "on",
    ) {
        Ok(true)
    } else if same_text(name, "false") || same_text(name, "0") || same_text(name, "no")
        || same_text(name, "off") {
        Ok(false)
    } else {
        let mut message = key.to_owned();
        message.append(" must be true or false, got `");
        message.append(value);
        message.append("`");
        assert(message@ =~= key@ + " must be true or false, got `"@ + (value@ + "`"@));
        Err(SettingsError::new(message))
    }
}

fn non_empty(value: &Option<String>) -> (r: Option<String>)
    ensures
        contents(r) == non_blank(contents(*value)),
{
    match value {
        Some(value) => {
            let all = chars_of(value.as_str());
            let kept = trimmed(all.as_slice());
            if kept.len() == 0 {
                None
            } else {
                Some(text_of(kept))
            }
        },
        None => None,
    }
}

proof fn lemma_addresses_error(
    texts: Seq<Seq<char>>,
    parsed: Seq<Option<SocketModel>>,
    k: int,
)
    requires
        texts.len() == parsed.len(),
        0 <= k <= texts.len(),
        addresses_setting(texts.take(k), parsed.take(k)) is Err,
    ensures
        addresses_setting(texts, parsed) == addresses_setting(texts.take(k), parsed.take(k)),
    decreases texts.len() - k,
{
    if k == texts.len() {
        assert(texts.take(k) =~= texts);
        assert(parsed.take(k) =~= parsed);
    } else {
        assert(texts.take(k + 1).drop_last() =~= texts.take(k));
        assert(parsed.take(k + 1).drop_last() =~= parsed.take(k));
        lemma_addresses_error(texts, parsed, k + 1);
    }
}

fn parse_upstreams(texts: &Vec<String>, parsed: Vec<Option<SocketAddr>>) -> (r: Result<
    Vec<SocketAddr>,
    SettingsError,
>)
    requires
        texts@.len() == parsed@.len(),
    ensures
        ({
            let spec = addresses_setting(
                texts@.map_values(|text: String| text@),
                parsed_models(parsed@),
            );
            match r {
                Ok(addresses) => addresses@.len() > 0 && spec == Ok::<Seq<SocketModel>, Seq<char>>(
                    socket_models(addresses@),
                ),
                Err(e) => if spec is Err {
                    spec == Err::<Seq<SocketModel>, Seq<char>>(e@)
                } else {
                    &&& spec->Ok_0.len() == 0
                    &&& e@ == "PINGATE_STATIC_UPSTREAMS must contain at least one address"@
                },
            }
        }),
{
    let ghost names = texts@.map_values(|text: String| text@);
    let ghost models = parsed_models(parsed@);
    let mut addresses: Vec<SocketAddr> = Vec::new();
    assert(socket_models(addresses@) =~= Seq::empty());
    for addr in it: parsed
        invariant
            it.seq().len() == texts@.len(),
            names == texts@.map_values(|text: String| text@),
            models == parsed_models(it.seq()),
            addresses@.len() == it.index(),
            addresses_setting(names.take(it.index() as int), models.take(it.index() as int))
                == Ok::<Seq<SocketModel>, Seq<char>>(socket_models(addresses@)),
    {
        let n = addresses.len();
        let ghost before = socket_models(addresses@);
        proof {
            assert(names.take(n + 1).drop_last() =~= names.take(n as int));
            assert(models.take(n + 1).drop_last() =~= models.take(n as int));
            assert(names.take(n + 1).last() == texts@[n as int]@);
            assert(models.take(n + 1).last() == contents(addr));
        }
        match parse_socket_addr("PINGATE_STATIC_UPSTREAMS", texts[n].as_str(), addr) {
            Ok(addr) => {
                addresses.push(addr);
                assert(socket_models(addresses@) =~= before.push(addr@));
            },
            Err(e) => {
                proof {
                    lemma_addresses_error(names, models, n + 1);
                }
                return Err(e);
            },
        }
    }
    assert(names.take(names.len() as int) =~= names);
    assert(models.take(models.len() as int) =~= models);
    if addresses.len() == 0 {
        return Err(
            SettingsError::new(
                "PINGATE_STATIC_UPSTREAMS must contain at least one address".to_owned(),
            ),
        );
    }
    Ok(addresses)
}

// ---------------------------------------------------------------------------------------------
// The settings as a whole
// ---------------------------------------------------------------------------------------------

/// The text of the public listener's address.
pub open spec fn listen_text(env: EnvironmentModel) -> Seq<char> {
    value_or(env.listen_addr, DEFAULT_LISTEN_ADDR@)
}

/// The text of the admin listener's address.
pub open spec fn admin_text(env: EnvironmentModel) -> Seq<char> {
    value_or(env.admin_listen_addr, DEFAULT_ADMIN_LISTEN_ADDR@)
}

/// How Docker is reached.
pub open spec fn docker_setting(env: EnvironmentModel) -> Result<DockerConfigModel, Seq<char>> {
    let host = value_or(env.docker_host, DEFAULT_DOCKER_HOST@);
    let reconnect = seconds_setting(
        "PINGATE_DOCKER_RECONNECT_INTERVAL_SECONDS"@,
        value_or(env.reconnect_interval, "2"@),
    );
    let resync = seconds_setting(
        "PINGATE_DOCKER_RESYNC_INTERVAL_SECONDS"@,
        value_or(env.resync_interval, "30"@),
    );
    let ca = non_blank(env.tls_ca_path);
    let cert = non_blank(env.tls_cert_path);
    let key = non_blank(env.tls_key_path);
    if !docker_scheme(host) {
        Err("PINGATE_DOCKER_HOST must use unix://, http://, or https://"@)
    } else if reconnect is Err {
        Err(reconnect->Err_0)
    } else if resync is Err {
        Err(resync->Err_0)
    } else if !((ca is Some) == (cert is Some) && (cert is Some) == (key is Some)) {
        Err(
            "PINGATE_DOCKER_TLS_CA_PATH, PINGATE_DOCKER_TLS_CERT_PATH, and PINGATE_DOCKER_TLS_KEY_PATH must be supplied together"@,
        )
    } else {
        Ok(
            DockerConfigModel {
                host,
                reconnect_interval_seconds: reconnect->Ok_0,
                resync_interval_seconds: resync->Ok_0,
                default_network: non_blank(env.default_network),
                tls_ca_path: ca,
                tls_cert_path: cert,
                tls_key_path: key,
            },
        )
    }
}

/// The settings that the variables `env` make, where the texts of the addresses among them were
/// found to write `listen`, `admin` and `upstreams`. The second case is the sentence that tells
/// the first thing that is wrong.
pub open spec fn settings_of(
    env: EnvironmentModel,
    listen: Option<SocketModel>,
    admin: Option<SocketModel>,
    upstreams: Seq<Option<SocketModel>>,
) -> Result<SettingsModel, Seq<char>> {
    let mode = mode_setting(env.mode);
    let listen_addr = address_setting("PINGATE_LISTEN_ADDR"@, listen_text(env), listen);
    let admin_addr = address_setting("PINGATE_ADMIN_LISTEN_ADDR"@, admin_text(env), admin);
    let addresses = upstreams_setting(mode->Ok_0, env.static_upstreams, upstreams);
    let health = seconds_setting(
        "PINGATE_STATIC_HEALTH_CHECK_INTERVAL_SECONDS"@,
        value_or(env.health_check_interval, "5"@),
    );
    let tls = bool_setting("PINGATE_STATIC_UPSTREAM_TLS"@, value_or(env.upstream_tls, "false"@));
    let docker = docker_setting(env);
    if mode is Err {
        Err(mode->Err_0)
    } else if listen_addr is Err {
        Err(listen_addr->Err_0)
    } else if admin_addr is Err {
        Err(admin_addr->Err_0)
    } else if listen_addr->Ok_0 == admin_addr->Ok_0 {
        Err("PINGATE_LISTEN_ADDR and PINGATE_ADMIN_LISTEN_ADDR must differ"@)
    } else if addresses is Err {
        Err(addresses->Err_0)
    } else if health is Err {
        Err(health->Err_0)
    } else if tls is Err {
        Err(tls->Err_0)
    } else if docker is Err {
        Err(docker->Err_0)
    } else {
        Ok(
            SettingsModel {
                mode: mode->Ok_0,
                listen_addr: listen_addr->Ok_0,
                admin_listen_addr: admin_addr->Ok_0,
                addresses: addresses->Ok_0,
                health_check_interval_seconds: health->Ok_0,
                upstream_tls: tls->Ok_0,
                upstream_sni: value_or(env.upstream_sni, Seq::empty()),
                docker: docker->Ok_0,
            },
        )
    }
}

fn docker_config(env: &Environment) -> (r: Result<DockerConfig, SettingsError>)
    ensures
        match r {
            Ok(config) => docker_setting(env@) == Ok::<DockerConfigModel, Seq<char>>(config@),
            Err(e) => docker_setting(env@) == Err::<DockerConfigModel, Seq<char>>(e@),
        },
{
    let host = value_of(&env.docker_host, DEFAULT_DOCKER_HOST);
    if !has_prefix(host, "unix://") && !has_prefix(host, "http://") && !has_prefix(
        host,
        "https://",
    ) {
        return Err(
            SettingsError::new(
                "PINGATE_DOCKER_HOST must use unix://, http://, or https://".to_owned(),
            ),
        );
    }
    let reconnect_interval_seconds = match parse_positive_u64(
        "PINGATE_DOCKER_RECONNECT_INTERVAL_SECONDS",
        value_of(&env.reconnect_interval, "2"),
    ) {
        Ok(n) => n,
        Err(e) => return Err(e),
    };
    let resync_interval_seconds = match parse_positive_u64(
        "PINGATE_DOCKER_RESYNC_INTERVAL_SECONDS",
        value_of(&env.resync_interval, "30"),
    ) {
        Ok(n) => n,
        Err(e) => return Err(e),
    };
    let default_network = non_empty(&env.default_network);
    let tls_ca_path = non_empty(&env.tls_ca_path);
    let tls_cert_path = non_empty(&env.tls_cert_path);
    let tls_key_path = non_empty(&env.tls_key_path);
    if tls_ca_path.is_some() != tls_cert_path.is_some() || tls_cert_path.is_some()
        != tls_key_path.is_some() {
        return Err(
            SettingsError::new(
                "PINGATE_DOCKER_TLS_CA_PATH, PINGATE_DOCKER_TLS_CERT_PATH, and PINGATE_DOCKER_TLS_KEY_PATH must be supplied together".to_owned(),
            ),
        );
    }
    Ok(
        DockerConfig {
            host: host.to_owned(),
            reconnect_interval_seconds,
            resync_interval_seconds,
            default_network,
            tls_ca_path,
            tls_cert_path,
            tls_key_path,
        },
    )
}

impl Environment {
    /// The text of the public listener's address.
    pub fn listen_text(&self) -> (r: String)
        ensures
            r@ == listen_text(self@),
    {
        value_of(&self.listen_addr, DEFAULT_LISTEN_ADDR).to_owned()
    }

    /// The text of the admin listener's address.
    pub fn admin_text(&self) -> (r: String)
        ensures
            r@ == admin_text(self@),
    {
        value_of(&self.admin_listen_addr, DEFAULT_ADMIN_LISTEN_ADDR).to_owned()
    }

    /// The texts of the static upstreams.
    pub fn upstream_texts(&self) -> (r: Vec<String>)
        ensures
            r@.map_values(|text: String| text@) == upstream_texts(self@.static_upstreams),
    {
        let mut r: Vec<String> = Vec::new();
        let value = match &self.static_upstreams {
            Some(value) => value,
            None => {
                assert(r@.map_values(|text: String| text@) =~= Seq::empty());
                return r;
            },
        };
        let parts = pieces(chars_of(value.as_str()).as_slice(), ',');
        let ghost all = crate::text::split(value@, ',');
        assert(r@.map_values(|text: String| text@) =~= list_items(all.take(0)));
        for i in 0..parts.len()
            invariant
                all == parts@.map_values(|v: Vec<char>| v@),
                r@.map_values(|text: String| text@) == list_items(all.take(i as int)),
        {
            let ghost before = r@.map_values(|text: String| text@);
            proof {
                assert(all.take(i + 1).drop_last() =~= all.take(i as int));
                assert(all.take(i + 1).last() == parts@[i as int]@);
            }
            let part = trimmed(parts[i].as_slice());
            if part.len() > 0 {
                let text = text_of(part);
                r.push(text);
                assert(r@.map_values(|text: String| text@) =~= before.push(text@));
            }
        }
        assert(all.take(all.len() as int) =~= all);
        r
    }
}

impl Settings {
    /// The settings that the variables make, where the texts of the addresses among them were
    /// found to write `listen`, `admin` and `upstreams`.
    pub fn from_environment(
        env: &Environment,
        listen: Option<SocketAddr>,
        admin: Option<SocketAddr>,
        upstreams: Vec<Option<SocketAddr>>,
    ) -> (r: Result<Settings, SettingsError>)
        requires
            upstreams@.len() == upstream_texts(env@.static_upstreams).len(),
        ensures
            ({
                let spec = settings_of(
                    env@,
                    contents(listen),
                    contents(admin),
                    parsed_models(upstreams@),
                );
                match r {
                    Ok(settings) => spec == Ok::<SettingsModel, Seq<char>>(settings@),
                    Err(e) => spec == Err::<SettingsModel, Seq<char>>(e@),
                }
            }),
    {
        let mode = match parse_mode(&env.mode) {
            Ok(mode) => mode,
            Err(e) => return Err(e),
        };
        let listen_addr = match parse_socket_addr(
            "PINGATE_LISTEN_ADDR",
            env.listen_text().as_str(),
            listen,
        ) {
            Ok(addr) => addr,
            Err(e) => return Err(e),
        };
        let admin_listen_addr = match parse_socket_addr(
            "PINGATE_ADMIN_LISTEN_ADDR",
            env.admin_text().as_str(),
            admin,
        ) {
            Ok(addr) => addr,
            Err(e) => return Err(e),
        };
        if listen_addr.same(&admin_listen_addr) {
            return Err(
                SettingsError::new(
                    "PINGATE_LISTEN_ADDR and PINGATE_ADMIN_LISTEN_ADDR must differ".to_owned(),
                ),
            );
        }
        let addresses = if env.static_upstreams.is_some() {
            match parse_upstreams(&env.upstream_texts(), upstreams) {
                Ok(addresses) => addresses,
                Err(e) => return Err(e),
            }
        } else {
            match mode {
                Mode::Static => return Err(
                    SettingsError::new(
                        "PINGATE_STATIC_UPSTREAMS is required in static mode".to_owned(),
                    ),
                ),
                _ => Vec::new(),
            }
        };
        assert(env.static_upstreams is None ==> socket_models(addresses@) =~= Seq::empty());
        let health_check_interval_seconds = match parse_positive_u64(
            "PINGATE_STATIC_HEALTH_CHECK_INTERVAL_SECONDS",
            value_of(&env.health_check_interval, "5"),
        ) {
            Ok(n) => n,
            Err(e) => return Err(e),
        };
        let upstream_tls = match parse_bool(
            "PINGATE_STATIC_UPSTREAM_TLS",
            value_of(&env.upstream_tls, "false"),
        ) {
            Ok(b) => b,
            Err(e) => return Err(e),
        };
        let upstream_sni = match &env.upstream_sni {
            Some(sni) => sni.clone(),
            None => String::new(),
        };
        let docker = match docker_config(env) {
            Ok(docker) => docker,
            Err(e) => return Err(e),
        };
        Ok(
            Settings {
                mode,
                server: ServerConfig { listen_addr, admin_listen_addr },
                static_upstreams: StaticConfig {
                    addresses,
                    health_check_interval_seconds,
                    upstream_tls,
                    upstream_sni,
                },
                docker,
            },
        )
    }
}

// ---------------------------------------------------------------------------------------------
// Reading the variables
// ---------------------------------------------------------------------------------------------

/// An environment: the value of each variable that is set.
pub type Variables = spec_fn(Seq<char>) -> Option<Seq<char>>;

/// What texts write as socket addresses.
pub type AddressSyntax = spec_fn(Seq<char>) -> Option<SocketModel>;

/// Whether `lookup` answers each variable as `vars` has it.
pub open spec fn looks_up<F: Fn(&str) -> Option<String>>(lookup: F, vars: Variables) -> bool {
    forall|key: &str, value: Option<String>| #[trigger]
        call_ensures(lookup, (key,), value) ==> contents(value) == vars(key@)
}

/// Whether `parse` reads each text as `syntax` has it.
pub open spec fn reads<P: Fn(&str) -> Option<SocketAddr>>(parse: P, syntax: AddressSyntax) -> bool {
    forall|text: &str, addr: Option<SocketAddr>| #[trigger]
        call_ensures(parse, (text,), addr) ==> contents(addr) == syntax(text@)
}

/// The variables that settings are made from.
pub open spec fn environment_of(vars: Variables) -> EnvironmentModel {
    EnvironmentModel {
        mode: vars("PINGATE_MODE"@),
        listen_addr: vars("PINGATE_LISTEN_ADDR"@),
        admin_listen_addr: vars("PINGATE_ADMIN_LISTEN_ADDR"@),
        static_upstreams: vars("PINGATE_STATIC_UPSTREAMS"@),
        health_check_interval: vars("PINGATE_STATIC_HEALTH_CHECK_INTERVAL_SECONDS"@),
        upstream_tls: vars("PINGATE_STATIC_UPSTREAM_TLS"@),
        upstream_sni: vars("PINGATE_STATIC_UPSTREAM_SNI"@),
        docker_host: vars("PINGATE_DOCKER_HOST"@),
        reconnect_interval: vars("PINGATE_DOCKER_RECONNECT_INTERVAL_SECONDS"@),
        resync_interval: vars("PINGATE_DOCKER_RESYNC_INTERVAL_SECONDS"@),
        default_network: vars("PINGATE_DOCKER_DEFAULT_NETWORK"@),
        tls_ca_path: vars("PINGATE_DOCKER_TLS_CA_PATH"@),
        tls_cert_path: vars("PINGATE_DOCKER_TLS_CERT_PATH"@),
        tls_key_path: vars("PINGATE_DOCKER_TLS_KEY_PATH"@),
    }
}

/// The settings that an environment makes, where addresses are written by `syntax`.
pub open spec fn settings_in(vars: Variables, syntax: AddressSyntax) -> Result<
    SettingsModel,
    Seq<char>,
> {
    let env = environment_of(vars);
    settings_of(
        env,
        syntax(listen_text(env)),
        syntax(admin_text(env)),
        upstream_texts(env.static_upstreams).map_values(syntax),
    )
}

impl Environment {
    /// The variables that `lookup` finds.
    pub fn read<F: Fn(&str) -> Option<String>>(lookup: &F) -> (r: Environment)
        requires
            forall|key: &str| #[trigger] call_requires(*lookup, (key,)),
        ensures
            forall|vars: Variables| #[trigger]
                looks_up(*lookup, vars) ==> r@ == environment_of(vars),
    {
        Environment {
            mode: lookup("PINGATE_MODE"),
            listen_addr: lookup("PINGATE_LISTEN_ADDR"),
            admin_listen_addr: lookup("PINGATE_ADMIN_LISTEN_ADDR"),
            static_upstreams: lookup("PINGATE_STATIC_UPSTREAMS"),
            health_check_interval: lookup("PINGATE_STATIC_HEALTH_CHECK_INTERVAL_SECONDS"),
            upstream_tls: lookup("PINGATE_STATIC_UPSTREAM_TLS"),
            upstream_sni: lookup("PINGATE_STATIC_UPSTREAM_SNI"),
            docker_host: lookup("PINGATE_DOCKER_HOST"),
            reconnect_interval: lookup("PINGATE_DOCKER_RECONNECT_INTERVAL_SECONDS"),
            resync_interval: lookup("PINGATE_DOCKER_RESYNC_INTERVAL_SECONDS"),
            default_network: lookup("PINGATE_DOCKER_DEFAULT_NETWORK"),
            tls_ca_path: lookup("PINGATE_DOCKER_TLS_CA_PATH"),
            tls_cert_path: lookup("PINGATE_DOCKER_TLS_CERT_PATH"),
            tls_key_path: lookup("PINGATE_DOCKER_TLS_KEY_PATH"),
        }
    }
}

impl Settings {
    /// The settings that the variables make which `lookup` finds. `parse_addr` tells which socket
    /// address a text writes, if any.
    pub fn from_lookup<F, P>(lookup: F, parse_addr: P) -> (r: Result<Settings, SettingsError>) where
        F: Fn(&str) -> Option<String>,
        P: Fn(&str) -> Option<SocketAddr>,

        requires
            forall|key: &str| #[trigger] call_requires(lookup, (key,)),
            forall|text: &str| #[trigger] call_requires(parse_addr, (text,)),
        ensures
            forall|vars: Variables, syntax: AddressSyntax|
                #![trigger looks_up(lookup, vars), reads(parse_addr, syntax)]
                looks_up(lookup, vars) && reads(parse_addr, syntax) ==> match r {
                    Ok(settings) => settings_in(vars, syntax) == Ok::<SettingsModel, Seq<char>>(
                        settings@,
                    ),
                    Err(e) => settings_in(vars, syntax) == Err::<SettingsModel, Seq<char>>(e@),
                },
    {
        let env = Environment::read(&lookup);
        let listen = parse_addr(env.listen_text().as_str());
        let admin = parse_addr(env.admin_text().as_str());
        let texts = env.upstream_texts();
        let ghost names = texts@.map_values(|text: String| text@);
        let mut upstreams: Vec<Option<SocketAddr>> = Vec::new();
        for i in 0..texts.len()
            invariant
                forall|text: &str| #[trigger] call_requires(parse_addr, (text,)),
                upstreams@.len() == i,
                forall|syntax: AddressSyntax, j: int|
                    #![trigger reads(parse_addr, syntax), upstreams@[j]]
                    0 <= j < i && reads(parse_addr, syntax) ==> contents(upstreams@[j]) == syntax(
                        texts@[j]@,
                    ),
        {
            upstreams.push(parse_addr(texts[i].as_str()));
        }
        proof {
            assert(names.len() == texts@.len());
            assert forall|vars: Variables, syntax: AddressSyntax|
                looks_up(lookup, vars) && reads(parse_addr, syntax) implies parsed_models(
                upstreams@,
            ) == upstream_texts(environment_of(vars).static_upstreams).map_values(syntax) by {
                assert(parsed_models(upstreams@) =~= names.map_values(syntax));
            }
        }
        Settings::from_environment(&env, listen, admin, upstreams)
    }
}

// ---------------------------------------------------------------------------------------------
// Laws
// ---------------------------------------------------------------------------------------------

proof fn lemma_addresses_len(texts: Seq<Seq<char>>, parsed: Seq<Option<SocketModel>>)
    requires
        addresses_setting(texts, parsed) is Ok,
    ensures
        addresses_setting(texts, parsed)->Ok_0.len() == texts.len(),
    decreases texts.len(),
{
    if texts.len() > 0 {
        lemma_addresses_len(texts.drop_last(), parsed.drop_last());
    }
}

/// Settings that are accepted can be used: the listeners differ, static mode has an upstream,
/// every interval is positive, the Docker endpoint has a scheme that can be used, and the three
/// TLS paths are given together or not at all.
pub proof fn accepted_settings_are_usable(
    env: EnvironmentModel,
    listen: Option<SocketModel>,
    admin: Option<SocketModel>,
    upstreams: Seq<Option<SocketModel>>,
    settings: SettingsModel,
)
    requires
        settings_of(env, listen, admin, upstreams) == Ok::<SettingsModel, Seq<char>>(settings),
    ensures
        settings.listen_addr != settings.admin_listen_addr,
        settings.mode == Mode::Static ==> settings.addresses.len() > 0,
        env.static_upstreams is Some ==> settings.addresses.len() == upstream_texts(
            env.static_upstreams,
        ).len(),
        settings.health_check_interval_seconds > 0,
        settings.docker.reconnect_interval_seconds > 0,
        settings.docker.resync_interval_seconds > 0,
        docker_scheme(settings.docker.host),
        settings.docker.tls_ca_path is Some <==> settings.docker.tls_cert_path is Some,
        settings.docker.tls_cert_path is Some <==> settings.docker.tls_key_path is Some,
{
    if env.static_upstreams is Some {
        lemma_addresses_len(upstream_texts(env.static_upstreams), upstreams);
    }
}

/// An optional setting is absent exactly where its variable is not set or blank, and is else the
/// value without white space around, which is not empty.
pub proof fn non_blank_is_trimmed(value: Option<Seq<char>>)
    ensures
        non_blank(value) is None <==> value is None || crate::text::is_blank(value->0),
        non_blank(value) is Some ==> non_blank(value)->0 == crate::text::trim(value->0)
            && non_blank(value)->0.len() > 0,
{
}

/// Reading an optional setting again changes nothing.
pub proof fn non_blank_is_final(value: Option<Seq<char>>)
    ensures
        non_blank(non_blank(value)) == non_blank(value),
{
    if value is Some {
        crate::text::trim_is_final(value->0);
    }
}

/// The mode is read in any case of letters.
pub proof fn mode_ignores_case(a: Seq<char>, b: Seq<char>)
    requires
        crate::text::lower(a) == crate::text::lower(b),
    ensures
        mode_setting(Some(a)) == mode_setting(Some(b)),
{
    crate::text::lemma_trim_lower(a);
    crate::text::lemma_trim_lower(b);
    assert(crate::text::lower(crate::text::trim(a)).len() == crate::text::trim(a).len());
    assert(crate::text::lower(crate::text::trim(b)).len() == crate::text::trim(b).len());
}

// ---------------------------------------------------------------------------------------------
// Laws of lists
// ---------------------------------------------------------------------------------------------

proof fn lemma_list_items_join(a: Seq<Seq<char>>, b: Seq<Seq<char>>)
    ensures
        list_items(a + b) == list_items(a) + list_items(b),
    decreases b.len(),
{
    if b.len() == 0 {
        assert(a + b =~= a);
        assert(list_items(a) + list_items(b) =~= list_items(a));
    } else {
        let init = b.drop_last();
        lemma_list_items_join(a, init);
        assert((a + b).drop_last() =~= a + init);
        assert((a + b).last() == b.last());
        if !crate::text::is_blank(b.last()) {
            let item = crate::text::trim(b.last());
            assert((list_items(a) + list_items(init)).push(item) =~= list_items(a) + list_items(
                init,
            ).push(item));
        }
    }
}

/// The items of two lists with a comma between them are the items of the one and then those of
/// the other, all of them.
pub proof fn lists_join(a: Seq<char>, b: Seq<char>)
    ensures
        upstream_texts(Some(a + seq![','] + b)) == upstream_texts(Some(a)) + upstream_texts(Some(b)),
{
    crate::text::split_joins(a, ',', b);
    lemma_list_items_join(crate::text::split(a, ','), crate::text::split(b, ','));
}

/// A list without commas has one item, its text without white space around, or none where it is
/// blank. A list that is not given has none.
pub proof fn lists_of_one_item(value: Seq<char>)
    requires
        !value.contains(','),
    ensures
        crate::text::is_blank(value) ==> upstream_texts(Some(value)).len() == 0,
        !crate::text::is_blank(value) ==> upstream_texts(Some(value)) == seq![
            crate::text::trim(value),
        ],
        upstream_texts(None).len() == 0,
{
    crate::text::split_of_one_piece(value, ',');
    let one = seq![value];
    assert(one.last() == value);
    assert(one.drop_last() =~= Seq::<Seq<char>>::empty());
    assert(list_items(Seq::<Seq<char>>::empty()) =~= Seq::<Seq<char>>::empty());
    if !crate::text::is_blank(value) {
        assert(list_items(one) =~= seq![crate::text::trim(value)]);
    }
}

/// A list has as many items as pieces that are not blank.
pub proof fn lists_count_their_pieces(pieces: Seq<Seq<char>>)
    ensures
        list_items(pieces).len() == pieces.filter(|p: Seq<char>| !crate::text::is_blank(p)).len(),
    decreases pieces.len(),
{
    reveal(Seq::filter);
    if pieces.len() > 0 {
        lists_count_their_pieces(pieces.drop_last());
    }
}

/// Every piece of a list that is not blank is an item of it, without white space around.
pub proof fn lists_hold_every_piece(pieces: Seq<Seq<char>>, k: int)
    requires
        0 <= k < pieces.len(),
        !crate::text::is_blank(pieces[k]),
    ensures
        list_items(pieces).contains(crate::text::trim(pieces[k])),
    decreases pieces.len(),
{
    let init = pieces.drop_last();
    let before = list_items(init);
    let items = list_items(pieces);
    if k < init.len() {
        assert(init[k] == pieces[k]);
        lists_hold_every_piece(init, k);
        let i = before.index_of(crate::text::trim(pieces[k]));
        assert(items[i] == before[i]);
    } else {
        assert(items[items.len() - 1] == crate::text::trim(pieces[k]));
    }
}

/// Every item of a list is a piece of it that is not blank, without white space around.
pub proof fn lists_hold_only_pieces(pieces: Seq<Seq<char>>, i: int) -> (k: int)
    requires
        0 <= i < list_items(pieces).len(),
    ensures
        0 <= k < pieces.len(),
        !crate::text::is_blank(pieces[k]),
        list_items(pieces)[i] == crate::text::trim(pieces[k]),
    decreases pieces.len(),
{
    let init = pieces.drop_last();
    if i < list_items(init).len() {
        let k = lists_hold_only_pieces(init, i);
        assert(init[k] == pieces[k]);
        k
    } else {
        pieces.len() - 1
    }
}

/// A list of addresses is accepted exactly where each text writes an address, and is then those
/// addresses, all of them in order.
pub proof fn lists_of_addresses(texts: Seq<Seq<char>>, parsed: Seq<Option<SocketModel>>)
    requires
        texts.len() == parsed.len(),
    ensures
        addresses_setting(texts, parsed) is Ok <==> forall|i: int|
            0 <= i < parsed.len() ==> (#[trigger] parsed[i]) is Some,
        addresses_setting(texts, parsed) is Ok ==> {
            let addresses = addresses_setting(texts, parsed)->Ok_0;
            &&& addresses.len() == parsed.len()
            &&& forall|i: int|
                0 <= i < parsed.len() ==> Some(#[trigger] addresses[i]) == parsed[i]
        },
    decreases texts.len(),
{
    if texts.len() > 0 {
        let init = parsed.drop_last();
        lists_of_addresses(texts.drop_last(), init);
        assert(forall|i: int| 0 <= i < init.len() ==> #[trigger] init[i] == parsed[i]);
        assert(parsed[parsed.len() - 1] == parsed.last());
        if forall|i: int| 0 <= i < parsed.len() ==> (#[trigger] parsed[i]) is Some {
            assert forall|i: int| 0 <= i < init.len() implies (#[trigger] init[i]) is Some by {
                assert(parsed[i] is Some);
            }
        }
        if addresses_setting(texts, parsed) is Ok {
            let before = addresses_setting(texts.drop_last(), init)->Ok_0;
            let addresses = addresses_setting(texts, parsed)->Ok_0;
            assert forall|i: int| 0 <= i < parsed.len() implies Some(#[trigger] addresses[i])
                == parsed[i] by {
                if i < init.len() {
                    assert(addresses[i] == before[i]);
                    assert(init[i] == parsed[i]);
                }
            }
            assert forall|i: int| 0 <= i < parsed.len() implies (#[trigger] parsed[i]) is Some by {
                assert(Some(addresses[i]) == parsed[i]);
            }
        }
    }
}

/// A list of addresses is refused for the first text that writes none, which is told in full.
pub proof fn lists_tell_the_first_fault(
    texts: Seq<Seq<char>>,
    parsed: Seq<Option<SocketModel>>,
    i: int,
)
    requires
        texts.len() == parsed.len(),
        0 <= i < parsed.len(),
        parsed[i] is None,
        forall|j: int| 0 <= j < i ==> (#[trigger] parsed[j]) is Some,
    ensures
        addresses_setting(texts, parsed) == Err::<Seq<SocketModel>, Seq<char>>(
            "PINGATE_STATIC_UPSTREAMS"@ + " must be a socket address, got `"@ + (texts[i] + "`"@),
        ),
{
    let before = parsed.take(i);
    assert forall|j: int| 0 <= j < before.len() implies (#[trigger] before[j]) is Some by {
        assert(before[j] == parsed[j]);
    }
    lists_of_addresses(texts.take(i), before);
    assert(texts.take(i + 1).drop_last() =~= texts.take(i));
    assert(parsed.take(i + 1).drop_last() =~= before);
    assert(texts.take(i + 1).last() == texts[i]);
    assert(parsed.take(i + 1).last() == parsed[i]);
    lemma_addresses_error(texts, parsed, i + 1);
}

// ---------------------------------------------------------------------------------------------
// Laws of single settings
// ---------------------------------------------------------------------------------------------

/// A mode is accepted exactly where its text in small letters is one of the three names, and is
/// then the one named; else it is told back, in small letters and in full.
pub proof fn modes_by_name(value: Seq<char>)
    ensures
        ({
            let name = crate::text::lower(value);
            let mode = mode_setting(Some(value));
            &&& mode == Ok::<Mode, Seq<char>>(Mode::Static) <==> name == "static"@
            &&& mode == Ok::<Mode, Seq<char>>(Mode::Compose) <==> name == "compose"@
            &&& mode == Ok::<Mode, Seq<char>>(Mode::Swarm) <==> name == "swarm"@
            &&& crate::text::is_blank(value) ==> mode == Err::<Mode, Seq<char>>(
                "PINGATE_MODE is required"@,
            )
            &&& mode is Err && !crate::text::is_blank(value) ==> mode->Err_0
                == "PINGATE_MODE must be static, compose, or swarm; got `"@ + name + "`"@
        }),
        mode_setting(None) == Err::<Mode, Seq<char>>("PINGATE_MODE is required"@),
{
    reveal_strlit("static");
    reveal_strlit("compose");
    reveal_strlit("swarm");
    let name = crate::text::lower(value);
    assert("static"@.len() == 6 && "compose"@.len() == 7 && "swarm"@.len() == 5);
    if name == "static"@ || name == "compose"@ || name == "swarm"@ {
        assert(name[0] == 's' || name[0] == 'c');
        crate::text::lemma_lower_keeps(value[0]);
        assert(!crate::text::is_white(value[0]));
        crate::text::blank_texts(value);
    }
}

/// An interval is accepted exactly where its text writes a number from 1 on that fits in 64 bits,
/// and is then that number.
pub proof fn intervals_are_the_numbers_written(key: Seq<char>, text: Seq<char>, n: u64)
    ensures
        seconds_setting(key, text) == Ok::<u64, Seq<char>>(n) <==> crate::text::natural(text)
            == Some(n as nat) && n >= 1,
        seconds_setting(key, text) is Err <==> {
            ||| crate::text::natural(text) is None
            ||| crate::text::natural(text)->0 == 0
            ||| crate::text::natural(text)->0 > 18446744073709551615
        },
        seconds_setting(key, text) is Err ==> seconds_setting(key, text)->Err_0 == key
            + " must be a positive integer"@,
{
}

/// A switch is on for four words and off for four others, in any case of letters, and else its
/// text is told back in full.
pub proof fn switches_by_word(key: Seq<char>, text: Seq<char>)
    ensures
        ({
            let word = crate::text::lower(text);
            let on = word == "true"@ || word == "1"@ || word == "yes"@ || word == "on"@;
            let off = word == "false"@ || word == "0"@ || word == "no"@ || word == "off"@;
            let r = bool_setting(key, text);
            &&& !(on && off)
            &&& r == Ok::<bool, Seq<char>>(true) <==> on
            &&& r == Ok::<bool, Seq<char>>(false) <==> off
            &&& r is Err ==> r->Err_0 == key + " must be true or false, got `"@ + (text + "`"@)
        }),
{
    reveal_strlit("true");
    reveal_strlit("1");
    reveal_strlit("yes");
    reveal_strlit("on");
    reveal_strlit("false");
    reveal_strlit("0");
    reveal_strlit("no");
    reveal_strlit("off");
    assert("true"@[0] == 't' && "1"@[0] == '1' && "yes"@[0] == 'y' && "on"@.len() == 2 && "on"@[0]
        == 'o');
    assert("false"@[0] == 'f' && "0"@[0] == '0' && "no"@[0] == 'n' && "off"@.len() == 3);
}

/// A Docker endpoint is accepted exactly where it is one of the three schemes with something or
/// nothing behind it.
pub proof fn docker_endpoints_by_scheme(host: Seq<char>)
    ensures
        docker_scheme(host) <==> {
            ||| exists|rest: Seq<char>| host == #[trigger] ("unix://"@ + rest)
            ||| exists|rest: Seq<char>| host == #[trigger] ("http://"@ + rest)
            ||| exists|rest: Seq<char>| host == #[trigger] ("https://"@ + rest)
        },
{
    crate::text::prefixes(host, "unix://"@);
    crate::text::prefixes(host, "http://"@);
    crate::text::prefixes(host, "https://"@);
}

/// A variable that is set gives its value, and one that is not set its default.
pub proof fn defaults_stand_in(env: EnvironmentModel, value: Option<Seq<char>>, default: Seq<char>)
    ensures
        value is Some ==> value_or(value, default) == value->0,
        value is None ==> value_or(value, default) == default,
        env.listen_addr is Some ==> listen_text(env) == env.listen_addr->0,
        env.listen_addr is None ==> listen_text(env) == "0.0.0.0:6198"@,
        env.admin_listen_addr is Some ==> admin_text(env) == env.admin_listen_addr->0,
        env.admin_listen_addr is None ==> admin_text(env) == "0.0.0.0:6197"@,
{
}

/// A text that writes no address is told back in full, with the name of its variable.
pub proof fn address_faults_tell_the_text(
    key: Seq<char>,
    text: Seq<char>,
    parsed: Option<SocketModel>,
)
    ensures
        parsed is Some ==> address_setting(key, text, parsed) == Ok::<SocketModel, Seq<char>>(
            parsed->0,
        ),
        parsed is None ==> address_setting(key, text, parsed) == Err::<SocketModel, Seq<char>>(
            key + " must be a socket address, got `"@ + (text + "`"@),
        ),
{
}

// ---------------------------------------------------------------------------------------------
// Laws of the settings as a whole
// ---------------------------------------------------------------------------------------------

/// Upstreams are accepted in static mode exactly where they are given, and in the other modes
/// also where they are not; given, there is at least one and each text writes an address.
pub proof fn upstreams_are_given_in_static_mode(
    mode: Mode,
    value: Option<Seq<char>>,
    parsed: Seq<Option<SocketModel>>,
)
    requires
        parsed.len() == upstream_texts(value).len(),
    ensures
        ({
            let r = upstreams_setting(mode, value, parsed);
            let all = forall|i: int| 0 <= i < parsed.len() ==> (#[trigger] parsed[i]) is Some;
            &&& value is Some ==> (r is Ok <==> all && parsed.len() > 0)
            &&& value is None ==> (r is Ok <==> mode != Mode::Static)
            &&& r is Ok ==> r->Ok_0.len() == parsed.len()
            &&& r is Ok ==> forall|i: int|
                0 <= i < parsed.len() ==> Some(#[trigger] r->Ok_0[i]) == parsed[i]
            &&& value is None && r is Err ==> r->Err_0
                == "PINGATE_STATIC_UPSTREAMS is required in static mode"@
            &&& value is Some && parsed.len() == 0 ==> r is Err && r->Err_0
                == "PINGATE_STATIC_UPSTREAMS must contain at least one address"@
            &&& value is Some && r is Err && parsed.len() > 0 ==> r == addresses_setting(
                upstream_texts(value),
                parsed,
            )
        }),
{
    lists_of_addresses(upstream_texts(value), parsed);
}

/// Settings are accepted exactly where each variable is: the mode, both listeners, which differ,
/// the upstreams, the three intervals, the switch, the Docker endpoint, and the TLS paths, of
/// which all three are given or none.
pub proof fn settings_are_accepted(
    env: EnvironmentModel,
    listen: Option<SocketModel>,
    admin: Option<SocketModel>,
    upstreams: Seq<Option<SocketModel>>,
)
    ensures
        settings_of(env, listen, admin, upstreams) is Ok <==> {
            let ca = env.tls_ca_path is Some && !crate::text::is_blank(env.tls_ca_path->0);
            let cert = env.tls_cert_path is Some && !crate::text::is_blank(env.tls_cert_path->0);
            let key = env.tls_key_path is Some && !crate::text::is_blank(env.tls_key_path->0);
            &&& mode_setting(env.mode) is Ok
            &&& listen is Some
            &&& admin is Some
            &&& listen != admin
            &&& upstreams_setting(
                mode_setting(env.mode)->Ok_0,
                env.static_upstreams,
                upstreams,
            ) is Ok
            &&& interval_fits(env.health_check_interval)
            &&& env.upstream_tls is None || bool_setting(Seq::empty(), env.upstream_tls->0) is Ok
            &&& env.docker_host is None || docker_scheme(env.docker_host->0)
            &&& interval_fits(env.reconnect_interval)
            &&& interval_fits(env.resync_interval)
            &&& ca && cert && key || !ca && !cert && !key
        },
{
    lemma_defaults_fit();
    switches_by_word(Seq::empty(), env.upstream_tls->0);
}

/// Whether an interval is left to its default or writes a positive number of 64 bits.
pub open spec fn interval_fits(value: Option<Seq<char>>) -> bool {
    value is None || {
        &&& crate::text::natural(value->0) is Some
        &&& 1 <= crate::text::natural(value->0)->0 <= 18446744073709551615
    }
}

proof fn lemma_defaults_fit()
    ensures
        crate::text::natural("5"@) == Some(5nat),
        crate::text::natural("2"@) == Some(2nat),
        crate::text::natural("30"@) == Some(30nat),
        bool_named(crate::text::lower("false"@)) == Some(false),
        docker_scheme(DEFAULT_DOCKER_HOST@),
{
    reveal_strlit("5");
    reveal_strlit("2");
    reveal_strlit("30");
    reveal_strlit("false");
    reveal_strlit("unix://");
    reveal_strlit("unix:///var/run/docker.sock");
    reveal_with_fuel(crate::text::decimal, 2);
    crate::text::decimal_reads_back(5);
    crate::text::decimal_reads_back(2);
    crate::text::decimal_reads_back(30);
    assert("5"@ =~= crate::text::decimal(5));
    assert("2"@ =~= crate::text::decimal(2));
    assert("30"@ =~= crate::text::decimal(30));
    assert(crate::text::lower("false"@) =~= "false"@);
    switches_by_word(Seq::empty(), "false"@);
    assert("unix:///var/run/docker.sock"@.take(7) =~= "unix://"@);
}

/// Accepted settings hold what the variables say: each value as it is read, and the default of
/// each variable that is not set.
pub proof fn settings_hold_what_is_set(
    env: EnvironmentModel,
    listen: Option<SocketModel>,
    admin: Option<SocketModel>,
    upstreams: Seq<Option<SocketModel>>,
    settings: SettingsModel,
)
    requires
        settings_of(env, listen, admin, upstreams) == Ok::<SettingsModel, Seq<char>>(settings),
        upstreams.len() == upstream_texts(env.static_upstreams).len(),
    ensures
        mode_setting(env.mode) == Ok::<Mode, Seq<char>>(settings.mode),
        Some(settings.listen_addr) == listen,
        Some(settings.admin_listen_addr) == admin,
        settings.addresses.len() == upstreams.len(),
        forall|i: int|
            0 <= i < upstreams.len() ==> Some(#[trigger] settings.addresses[i]) == upstreams[i],
        env.health_check_interval is None ==> settings.health_check_interval_seconds == 5,
        env.health_check_interval is Some ==> crate::text::natural(env.health_check_interval->0)
            == Some(settings.health_check_interval_seconds as nat),
        env.upstream_tls is None ==> !settings.upstream_tls,
        env.upstream_tls is Some ==> bool_setting(Seq::empty(), env.upstream_tls->0) == Ok::<
            bool,
            Seq<char>,
        >(settings.upstream_tls),
        env.upstream_sni is None ==> settings.upstream_sni.len() == 0,
        env.upstream_sni is Some ==> settings.upstream_sni == env.upstream_sni->0,
        env.docker_host is None ==> settings.docker.host == "unix:///var/run/docker.sock"@,
        env.docker_host is Some ==> settings.docker.host == env.docker_host->0,
        env.reconnect_interval is None ==> settings.docker.reconnect_interval_seconds == 2,
        env.reconnect_interval is Some ==> crate::text::natural(env.reconnect_interval->0) == Some(
            settings.docker.reconnect_interval_seconds as nat,
        ),
        env.resync_interval is None ==> settings.docker.resync_interval_seconds == 30,
        env.resync_interval is Some ==> crate::text::natural(env.resync_interval->0) == Some(
            settings.docker.resync_interval_seconds as nat,
        ),
        settings.docker.default_network == non_blank(env.default_network),
        settings.docker.tls_ca_path == non_blank(env.tls_ca_path),
        settings.docker.tls_cert_path == non_blank(env.tls_cert_path),
        settings.docker.tls_key_path == non_blank(env.tls_key_path),
{
    lemma_defaults_fit();
    upstreams_are_given_in_static_mode(settings.mode, env.static_upstreams, upstreams);
    if env.upstream_tls is Some {
        switches_by_word(Seq::empty(), env.upstream_tls->0);
        switches_by_word("PINGATE_STATIC_UPSTREAM_TLS"@, env.upstream_tls->0);
    }
}

/// Settings are refused for the first variable that is not accepted, in this order: the mode, the
/// public listener, the admin listener, both listeners, the upstreams, the health check interval,
/// the switch for TLS, the Docker endpoint, the reconnect interval, the resync interval, the TLS
/// paths.
pub proof fn settings_tell_the_first_fault(
    env: EnvironmentModel,
    listen: Option<SocketModel>,
    admin: Option<SocketModel>,
    upstreams: Seq<Option<SocketModel>>,
)
    requires
        settings_of(env, listen, admin, upstreams) is Err,
    ensures
        ({
            let fault = settings_of(env, listen, admin, upstreams)->Err_0;
            let mode = mode_setting(env.mode);
            let list = upstreams_setting(mode->Ok_0, env.static_upstreams, upstreams);
            let listeners = mode is Ok && listen is Some && admin is Some;
            let listed = listeners && listen != admin && list is Ok;
            let timed = listed && interval_fits(env.health_check_interval);
            let secured = timed && (env.upstream_tls is None || bool_setting(
                Seq::empty(),
                env.upstream_tls->0,
            ) is Ok);
            let reached = secured && (env.docker_host is None || docker_scheme(env.docker_host->0));
            &&& mode is Err ==> fault == mode->Err_0
            &&& mode is Ok && listen is None ==> fault
                == "PINGATE_LISTEN_ADDR"@ + " must be a socket address, got `"@ + (listen_text(env)
                + "`"@)
            &&& mode is Ok && listen is Some && admin is None ==> fault
                == "PINGATE_ADMIN_LISTEN_ADDR"@ + " must be a socket address, got `"@ + (admin_text(
                env,
            ) + "`"@)
            &&& listeners && listen == admin ==> fault
                == "PINGATE_LISTEN_ADDR and PINGATE_ADMIN_LISTEN_ADDR must differ"@
            &&& listeners && listen != admin && list is Err ==> fault == list->Err_0
            &&& listed && !interval_fits(env.health_check_interval) ==> fault
                == "PINGATE_STATIC_HEALTH_CHECK_INTERVAL_SECONDS"@ + " must be a positive integer"@
            &&& timed && !secured ==> fault
                == "PINGATE_STATIC_UPSTREAM_TLS"@ + " must be true or false, got `"@ + (
            env.upstream_tls->0 + "`"@)
            &&& secured && !reached ==> fault
                == "PINGATE_DOCKER_HOST must use unix://, http://, or https://"@
            &&& reached && !interval_fits(env.reconnect_interval) ==> fault
                == "PINGATE_DOCKER_RECONNECT_INTERVAL_SECONDS"@ + " must be a positive integer"@
            &&& reached && interval_fits(env.reconnect_interval) && !interval_fits(
                env.resync_interval,
            ) ==> fault
                == "PINGATE_DOCKER_RESYNC_INTERVAL_SECONDS"@ + " must be a positive integer"@
            &&& reached && interval_fits(env.reconnect_interval) && interval_fits(
                env.resync_interval,
            ) ==> fault
                == "PINGATE_DOCKER_TLS_CA_PATH, PINGATE_DOCKER_TLS_CERT_PATH, and PINGATE_DOCKER_TLS_KEY_PATH must be supplied together"@
        }),
{
    lemma_defaults_fit();
    if env.upstream_tls is Some {
        switches_by_word(Seq::empty(), env.upstream_tls->0);
        switches_by_word("PINGATE_STATIC_UPSTREAM_TLS"@, env.upstream_tls->0);
    }
}

/// Each variable is read under its own name.
pub proof fn variables_by_name(vars: Variables)
    ensures
        environment_of(vars).mode == vars("PINGATE_MODE"@),
        environment_of(vars).listen_addr == vars("PINGATE_LISTEN_ADDR"@),
        environment_of(vars).admin_listen_addr == vars("PINGATE_ADMIN_LISTEN_ADDR"@),
        environment_of(vars).static_upstreams == vars("PINGATE_STATIC_UPSTREAMS"@),
        environment_of(vars).health_check_interval == vars("PINGATE_STATIC_HEALTH_CHECK_INTERVAL_SECONDS"@),
        environment_of(vars).upstream_tls == vars("PINGATE_STATIC_UPSTREAM_TLS"@),
        environment_of(vars).upstream_sni == vars("PINGATE_STATIC_UPSTREAM_SNI"@),
        environment_of(vars).docker_host == vars("PINGATE_DOCKER_HOST"@),
        environment_of(vars).reconnect_interval == vars("PINGATE_DOCKER_RECONNECT_INTERVAL_SECONDS"@),
        environment_of(vars).resync_interval == vars("PINGATE_DOCKER_RESYNC_INTERVAL_SECONDS"@),
        environment_of(vars).default_network == vars("PINGATE_DOCKER_DEFAULT_NETWORK"@),
        environment_of(vars).tls_ca_path == vars("PINGATE_DOCKER_TLS_CA_PATH"@),
        environment_of(vars).tls_cert_path == vars("PINGATE_DOCKER_TLS_CERT_PATH"@),
        environment_of(vars).tls_key_path == vars("PINGATE_DOCKER_TLS_KEY_PATH"@),
{
}

/// The settings of an environment are those of its variables, with each address read from the
/// text that the variable or its default gives.
pub proof fn addresses_are_read_from_their_texts(vars: Variables, syntax: AddressSyntax)
    ensures
        ({
            let env = environment_of(vars);
            let texts = upstream_texts(env.static_upstreams);
            forall|upstreams: Seq<Option<SocketModel>>|
                #![trigger settings_of(env, syntax(listen_text(env)), syntax(admin_text(env)), upstreams)]
                upstreams.len() == texts.len() && (forall|i: int|
                    0 <= i < texts.len() ==> #[trigger] upstreams[i] == syntax(texts[i]))
                    ==> settings_in(vars, syntax) == settings_of(
                    env,
                    syntax(listen_text(env)),
                    syntax(admin_text(env)),
                    upstreams,
                )
        }),
{
    let env = environment_of(vars);
    let texts = upstream_texts(env.static_upstreams);
    assert forall|upstreams: Seq<Option<SocketModel>>|
        #![trigger settings_of(env, syntax(listen_text(env)), syntax(admin_text(env)), upstreams)]
        upstreams.len() == texts.len() && (forall|i: int|
            0 <= i < texts.len() ==> #[trigger] upstreams[i] == syntax(texts[i]))
        implies settings_in(vars, syntax) == settings_of(
        env,
        syntax(listen_text(env)),
        syntax(admin_text(env)),
        upstreams,
    ) by {
        assert(upstreams =~= texts.map_values(syntax));
    }
}

/// What is known of the variables is their values.
pub proof fn environment_contents(env: Environment)
    ensures
        env@.mode is Some <==> env.mode is Some,
        env.mode is Some ==> env@.mode->0 == env.mode->0@,
        env@.listen_addr is Some <==> env.listen_addr is Some,
        env.listen_addr is Some ==> env@.listen_addr->0 == env.listen_addr->0@,
        env@.admin_listen_addr is Some <==> env.admin_listen_addr is Some,
        env.admin_listen_addr is Some ==> env@.admin_listen_addr->0 == env.admin_listen_addr->0@,
        env@.static_upstreams is Some <==> env.static_upstreams is Some,
        env.static_upstreams is Some ==> env@.static_upstreams->0 == env.static_upstreams->0@,
        env@.health_check_interval is Some <==> env.health_check_interval is Some,
        env.health_check_interval is Some ==> env@.health_check_interval->0 == env.health_check_interval->0@,
        env@.upstream_tls is Some <==> env.upstream_tls is Some,
        env.upstream_tls is Some ==> env@.upstream_tls->0 == env.upstream_tls->0@,
        env@.upstream_sni is Some <==> env.upstream_sni is Some,
        env.upstream_sni is Some ==> env@.upstream_sni->0 == env.upstream_sni->0@,
        env@.docker_host is Some <==> env.docker_host is Some,
        env.docker_host is Some ==> env@.docker_host->0 == env.docker_host->0@,
        env@.reconnect_interval is Some <==> env.reconnect_interval is Some,
        env.reconnect_interval is Some ==> env@.reconnect_interval->0 == env.reconnect_interval->0@,
        env@.resync_interval is Some <==> env.resync_interval is Some,
        env.resync_interval is Some ==> env@.resync_interval->0 == env.resync_interval->0@,
        env@.default_network is Some <==> env.default_network is Some,
        env.default_network is Some ==> env@.default_network->0 == env.default_network->0@,
        env@.tls_ca_path is Some <==> env.tls_ca_path is Some,
        env.tls_ca_path is Some ==> env@.tls_ca_path->0 == env.tls_ca_path->0@,
        env@.tls_cert_path is Some <==> env.tls_cert_path is Some,
        env.tls_cert_path is Some ==> env@.tls_cert_path->0 == env.tls_cert_path->0@,
        env@.tls_key_path is Some <==> env.tls_key_path is Some,
        env.tls_key_path is Some ==> env@.tls_key_path->0 == env.tls_key_path->0@,
{
}

/// What is known of the settings is each of their fields; of the upstreams all, in order.
pub proof fn settings_contents(settings: Settings, config: DockerConfig)
    ensures
        settings@.mode == settings.mode,
        settings@.listen_addr == settings.server.listen_addr@,
        settings@.admin_listen_addr == settings.server.admin_listen_addr@,
        settings@.addresses.len() == settings.static_upstreams.addresses@.len(),
        forall|i: int|
            0 <= i < settings.static_upstreams.addresses@.len() ==> #[trigger] settings@.addresses[i]
                == settings.static_upstreams.addresses@[i]@,
        settings@.health_check_interval_seconds
            == settings.static_upstreams.health_check_interval_seconds,
        settings@.upstream_tls == settings.static_upstreams.upstream_tls,
        settings@.upstream_sni == settings.static_upstreams.upstream_sni@,
        settings@.docker == settings.docker@,
        config@.host == config.host@,
        config@.reconnect_interval_seconds == config.reconnect_interval_seconds,
        config@.resync_interval_seconds == config.resync_interval_seconds,
        config@.default_network is Some <==> config.default_network is Some,
        config.default_network is Some ==> config@.default_network->0 == config.default_network->0@,
        config@.tls_ca_path is Some <==> config.tls_ca_path is Some,
        config.tls_ca_path is Some ==> config@.tls_ca_path->0 == config.tls_ca_path->0@,
        config@.tls_cert_path is Some <==> config.tls_cert_path is Some,
        config.tls_cert_path is Some ==> config@.tls_cert_path->0 == config.tls_cert_path->0@,
        config@.tls_key_path is Some <==> config.tls_key_path is Some,
        config.tls_key_path is Some ==> config@.tls_key_path->0 == config.tls_key_path->0@,
{
}

/// The addresses handed over are known by their contents, all of them in order.
pub proof fn parsed_contents(parsed: Seq<Option<SocketAddr>>, i: int)
    requires
        0 <= i < parsed.len(),
    ensures
        parsed_models(parsed).len() == parsed.len(),
        parsed_models(parsed)[i] is Some <==> parsed[i] is Some,
        parsed[i] is Some ==> parsed_models(parsed)[i]->0 == parsed[i]->0@,
{
}

} // verus!
