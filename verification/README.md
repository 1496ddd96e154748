# Pingate

A reverse proxy that is configured by environment variables and sends each request to an upstream
by its `Host` header. Upstreams are a fixed list, or are found through Docker: the labeled
containers of one host, or the services of a Swarm.

`src/` holds the decisions of the proxy, verified with Verus. Two are made elsewhere: which fixed
upstream is healthy and has its turn is up to Pingora's load balancer, and which address a text
writes is up to the standard library.

| Module | What it decides |
|---|---|
| `text` | case, white space, splitting, decimal numbers and order of text |
| `routes` | which hosts are valid, and which upstream has its turn |
| `net` | how addresses are written, and how a listener is reached from its own machine |
| `names` | values by name, as Docker reports labels and networks |
| `groups` | how the claims of workloads on hosts become ordered routes |
| `docker` | which containers and services become routes, and why others do not |
| `settings` | which environments are accepted |
| `proxy` | the verdict on a request, and whether a probe succeeded |
| `admin` | the answers of the health endpoints |
| `discovery` | when to connect, refresh and wait, and what a refresh changes |

`app/` is the program around it: the HTTP server on Pingora, the Docker connection, timers,
sockets, DNS and logging. `tests/` runs the library.

A Swarm service needs a network as a container does: its `pingate.network` label, the default
network, or the only network that its tasks are attached to.
