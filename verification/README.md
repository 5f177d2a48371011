# mcpg-cluster-api

The trait surface of the cluster backbone: four orthogonal coordination
primitives and the backend that bundles them, with contracts proved in Verus.

- `src/` is the verified library. `kv_model` says what a key/value store does and
  `kv_laws` what follows for its callers; `lease`, `pub_sub` and `watch` hold the
  other primitives; `backend` the coordinator; `error` the failures. `log` and
  `rfc3339` hold what the contracts of the others are stated in. `test_suite` is a battery that any store can be run against, with a proof that a store that
  keeps the contract, and whose operations do not fail, passes it.
- `app/` holds the asynchronous traits, the serialised forms of the types and the
  driver of the battery.
- `tests/` runs the library on concrete values, the battery on sound and faulty
  stores among them.

No backend lives here, and nothing here opens a connection.
