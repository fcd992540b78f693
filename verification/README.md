# apexchainx_calculator

Support library of the SLA calculator contract, verified with Verus.

- `src/error_responses.rs`: the contract's error codes and one predicate per code.
- `src/json_text.rs`: decimal rendering of integers, JSON string escaping and its
  decoding model, text comparison.
- `src/trace.rs`: the debug-trace log (record, reset, query by name, JSON-lines dump)
  and the typed helpers that record each contract transition.
- `src/symbols.rs`: symbols built through `soroban_sdk`.
- `app/lib.rs`: the per-thread trace log that test harnesses use.
