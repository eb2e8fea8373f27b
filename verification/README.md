# jackfield

A read-mostly NMOS controller's picture of the network: Nodes discovered over
multicast DNS, their IS-04 resource trees, the IS-05 transports of their
Senders and Receivers, and the connection graph across every Node known.

The library under `src/` is verified with Verus:

- `nmos/` — the resource model (identifiers, versions, media types, formats,
  Nodes, Devices, Senders, Receivers, Flows, Sources), the Connection API's
  transports, and what the two HTTP clients decide: where to ask, what a
  status means, how a failure reads.
- `discovery/` — TXT records, version counters, endpoints, advertisements and
  the tracker that turns raw reports into appear / change / depart events.
- `identity.rs` — a Node is keyed by the identifier it reports, not by where
  it answers; provisional keys settle and merge.
- `inventory/` — the Nodes held, their resolved contents, and the connection
  graph, paired on both ends.
- `engine.rs` — what the event loop decides: what each event, finished fetch
  and command changes, and which unit of work comes next.
- `connector.rs` — what a change to a device says, and how its answer is held
  to what was asked.
- `base/` — ordered tables, text and decimal helpers the rest is built on.

`app/` holds what Verus does not see: the serde documents, the HTTP requests,
the multicast DNS browse and the asynchronous loop that drives the engine.
