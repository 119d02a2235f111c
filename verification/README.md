# astrolabe

A verified model of the Astrolabe attestation registry: a schema registry and an
attestation registry, written in Verus.

- `src/` is the library. `types`, `table` and `xdr` hold plain values, a keyed
  table and the XDR layout of the values that make up a uid; `host` holds the
  trusted calls into the Soroban host (SHA-256, `ToXdr`, the ledger clock,
  the host vector that holds a subject index);
  `schema_registry` and `attestation` are the two registries, each a state
  machine whose operations are proved equal to a spec function on its state
  model; `laws` proves what holds across operations.
- `app/` holds the two Soroban contracts. Each call authorises the caller,
  loads the storage entries the operation reads into the model, calls it,
  writes back what changed, publishes the recorded events and extends TTLs.
- `tests/` runs the registries against the real host.
