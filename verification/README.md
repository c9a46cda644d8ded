# Basilisk

Basilisk is a programmable reverse proxy: services register themselves and their
path prefixes, requests are balanced over the healthy instances, services talk
over a TCP service bus, and Lua scripts configure the gateway and take part in
every request.

`src/` is the library, verified with Verus: the registry, the caches, the
balancer, the rules of forwarding, the service bus and what scripts may set up.
`app/` is the program around it: listeners, sockets, the Lua virtual machine, the
wire formats and whatever is computed in floating point. `tests/` run the library
from outside.

| Module | What it holds |
| --- | --- |
| `registry` | services, instances, path prefixes, health, upkeep |
| `cache` | values with a time to live, namespaces, the rules of a shared store |
| `gateway` | load balancing, routes, targets and headers of forwarded requests |
| `service_bus` | connections, subscriptions, sessions, forwards with replies |
| `lua` | matchers, middleware chains, rules, settings, static forwards |
| `net` | addresses, subnets, authorities, self-routing |
| `headers` | header maps, names and values |
| `observability` | latencies, distributions, static forward health |
| `models`, `dto`, `config` | the data that the modules share |
| `text`, `string_map`, `table`, `sorted`, `json`, `clock`, `retry` | the ground they stand on |

The contracts speak of models: `RegistryModel`, `BusModel`, `GatewayCacheModel`
and the like. Laws that relate several functions are public proof functions, most
of them in the `laws` module of their part.
