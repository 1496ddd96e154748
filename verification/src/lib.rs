//! Host-based routing for a reverse proxy whose backends are found through Docker.
//!
//! The library holds the decisions of the proxy: which settings are accepted, which workloads
//! become routes, which upstream found through Docker answers a request, what the health
//! endpoints reply, and when route discovery reconnects. Sockets, timers, the reading of address
//! texts, the balancing of fixed upstreams, the Docker connection and the HTTP server are left to
//! the program that uses it.

pub mod admin;
pub mod discovery;
pub mod docker;
pub mod groups;
pub mod names;
pub mod net;
pub mod proxy;
pub mod routes;
pub mod settings;
pub mod text;
