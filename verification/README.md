# lldp_neighbors

Verified core of LLDP neighbor reporting.

- `src/types.rs`: the report data (interfaces, neighbors, stored rows) and
  their views.
- `src/neighbor_set.rs`: the server side. Which neighbors a report asks to
  store, whether they differ from the stored rows (keyed by local MAC,
  order- and timestamp-independent), and the rows that replace them.
- `src/report.rs`: the agent side. The cache that sends a snapshot only when
  it is non-empty and differs from the last one sent successfully.
- `app/`: database access, the gRPC handler and the agent's send loop, which
  call the library for every decision.
