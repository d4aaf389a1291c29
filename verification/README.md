# executive

The decision core of an agent executive, verified with Verus.

- `src/` is the verified library: Agent admission and its leases, budget
  reservations, capability permits, supervision and restart decisions, tool
  approvals, Agent control authority (parents, senders, sibling routes,
  broadcasts, the live subtree a cancellation stops, what a failed spawn or
  start undoes, how an ended run is classified and settled), background resources
  of live runs, bounded prompt context (history, injected fragments,
  recalled memory, skills, core memory, recall queries), tool-pair
  normalization, the canonical session history (item checks, journal and
  message projections, fork inheritance), what a conscious processor is
  shown of a broadcast and how its reply is judged, the steps of a
  conscious cycle, derived name-based ids, metrics counters, status
  codecs and text bounding. Every public function
  states its result in `ensures`, except the failure reason `write_failed`
  copies from an `anyhow::Error`, which is opaque here; the `law_*` proof functions state
  properties that span calls.
- `app/` is the runtime shell around it: tokio-based waiting and sharing,
  the delivery of approval decisions over one-shot channels, and the
  floating-point inputs (prices, priorities, modulation levels).
- `tests/` exercises the library on concrete values.
