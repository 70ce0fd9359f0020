# inmemory_cluster

A node of a distributed in-memory key-value store. Nodes find one another,
replicate every write to their peers over a small line protocol on TCP, and
also answer a subset of the Redis protocol (`PING`, `ECHO`, `SET`, `GET`,
`FLUSHALL`, the `CLIENT` setup commands). An HTTP API adds and reads values
and shows the cluster.

## Layout

- `src/` is the library, verified with Verus:
  - `store.rs`: the database (keys in arrival order) and the peer list
    (sorted by name), modelled as maps;
  - `messages.rs`: the commands a node sends (`ADD`, `COPY`, `FLUSHALL`,
    `IDENTIFICATION`, `DISCONNECT`, `STATS`) and its answer to an
    identification;
  - `internal.rs`: how a node reads those commands and what it does with them;
  - `peer_answer.rs`: how a node records the peers named in an answer;
  - `resp.rs`: the Redis subset;
  - `dispatch.rs`: what a node does with each message it receives;
  - `html.rs`, `env.rs`, `timing.rs`, `clock.rs`, `text.rs`, `order.rs`:
    table rows, configuration, latency counters, dates (through `chrono`),
    text and its order;
  - `laws.rs`: what one node reads back of what another writes, and what its
    tables become.
- `tests/` runs the library on concrete values.
- `app/` is the program: sockets, threads, the HTTP server, Kubernetes
  discovery, signals, and the figures that need floating point.

## Environment variables

- `ENV`: `production` or `development`
- `HOSTNAME`: the name of this instance
- `PORT_HTTP`: the port of the HTTP API
- `PORT_TCP`: the port of the cluster protocol and of the Redis API
