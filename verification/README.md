# kanidm_provision

Verified core of a Kanidm provisioning tool and its Kubernetes sidecar.

The sidecar watches labelled ConfigMaps, merges the JSON provisioning
documents they carry into one desired state, publishes the credentials of
confidential OAuth2 clients as Kubernetes secrets, fetches client icons and
hands the state to the provisioning step.

- `src/` is checked by Verus:
  - `json.rs`: the JSON document type, its mathematical view and the deep merge;
    `json_laws.rs`: what the merge keeps (lookup by name, idempotence,
    absorption, well-formedness);
  - `order.rs`, `sources.rs`, `documents.rs`, `merged.rs`: ordering
    ConfigMaps by name (a stable sort, proved sorted, a permutation and
    stable), parsing their JSON documents (through `serde_json`) and reading
    their target namespace, tagging OAuth2 clients with it, and merging
    everything over the empty state; `merged_laws.rs`: the merged state does
    not depend on the listing order, and any number of entries that are neither
    documents nor the target namespace (or documents that do not parse),
    added to any ConfigMap, change nothing;
  - `secrets.rs`, `icons.rs`, `endpoints.rs`: which secrets and icons the
    state asks for, and the URLs and names involved;
  - `watch.rs`: the decisions of the readiness wait and of the debounced
    watch loop, with the debounce law;
  - `state.rs`: the desired-state model.
- `app/` holds the command lines, the Kubernetes, HTTP and file calls, and
  the serde forms of the state types.
- `tests/` runs the library on concrete inputs.
