# Lungyam

Lungyam is an edge API proxy with a small server-rendered admin plane.
This crate holds its logic with machine-checked contracts (Verus): the
configuration model and its validation rules, route matching and the
evaluation order shared by the proxy and the admin simulator, configuration
diffs, runtime status, revision bookkeeping, and every admin-plane decision
from a submitted form to the candidate configuration and the answer shown.

Layout:

- `src/config.rs`: configuration types and `Config::validate`.
- `src/routing.rs`: evaluation order, matching, and the agreement between the
  simulator and the data plane.
- `src/config_diff.rs`: differences between two configurations.
- `src/runtime.rs`: the active snapshot and endpoint health.
- `src/revision.rs`, `src/revision_state.rs`, `src/lifecycle.rs`: revision
  numbering, history order, and the staging and activation decisions.
- `src/proxy.rs`: request filtering, rate-limit windows, retries, header
  rewriting.
- `src/admin/`: forms, candidate configurations, staging plans, CSRF tokens,
  the rule that decides whether admin writes are open,
  and page views.
- `src/ordered.rs`, `src/text.rs`: ordered maps and text helpers.
- `app/`: the executable: YAML files, the revision store on disk, the axum
  admin server and the Pingora proxy.
