# Rusty Mesh

An in-memory service registry for microservices: services register by name,
semantic version, address and port, keep their lease alive with heartbeats,
and are discovered through semantic-version requirements with sorted
round-robin load balancing. Registry routes are protected by a shared mesh
token.

## Layout

- `src/` is the library, verified with Verus.
  - `registry.rs`: the store (`RegistryStore`), its mathematical model
    (`RegistryView`) and the relations each operation establishes between the
    state before and after it.
  - `laws.rs`: properties that span several operations (what a registration
    makes discoverable, what a heartbeat refreshes, what an unregistration
    removes, how round-robin advances, what expiry hides).
  - `controllers.rs`: what each HTTP endpoint answers, as plain values.
  - `auth.rs`, `config.rs`, `docker.rs`, `client.rs`: the mesh-token check,
    start-up validation, reading Docker-published ports out of an inspect
    response, and the settings a registering service derives.
  - `instance.rs`, `ordering.rs`, `responses.rs`, `text.rs`, `versioning.rs`:
    data types, the listing order, reply shapes, text helpers and the
    `semver` boundary.
- `app/` is the server around it: configuration loading, the axum router and
  middleware, JSON shapes, and the Docker socket.
- `tests/` exercises the library on concrete values.
