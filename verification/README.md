# intent_runtime

The runtime of a network-intent system: controller, witness and apply agents
that agree on signed plans, observe devices, and apply configuration changes
under a confirmation protocol. The library in `src/` is verified with Verus;
every public function states its behaviour in `requires`/`ensures` and the
library's laws are proof functions.

## Layout

- `src/` — the verified library.
  - `text`, `net`, `json`, `protocol`, `state`: strings, addresses, the
    canonical encodings, message envelopes and configuration models.
  - `identity`, `pki`: SPIFFE identities, DSSE envelopes (signed with Ed25519
    through `ring`, encoded with `base64`, digested with `sha2`), certificate
    lifetimes and the renewal message.
  - `assurance`, `check`, `graph`, `evidence`, `attestation`: assurance plans,
    probe validation, dependency graphs and the binding of signed assignments
    and evidence.
  - `health`, `monitor`, `ingress`, `storage`, `authorization`: the
    controller's health state machine, monitor, evidence ingress, message
    store and request screening.
  - `admission`: the controller's revision admission, which judges the
    intent compiler's reply, generates coverage claims and checks the
    assurance plan before a revision is promoted.
  - `planner`, `confirmation`, `journal`: apply planning, deployment
    confirmations and the deployment journal with its backend protocol.
  - `adapters`, `local`, `witness`, `dns`, `execution`, `queue`: the
    witness's device-local observation over read-only ubus, probe judgement
    (ICMP, HTTP, DNS through `hickory-proto`), evidence signing and its work
    queue.
- `tests/` — tests of the library, run against the compiled crate.
- `app/` — the host around the library: wire formats (serde), network probes
  (tokio, reqwest, socket2), the intent compiler process, and submission
  handling.

The stores (`Store`, `MonitorStore`, `WitnessQueue`, `DeploymentJournal`)
hold their state in memory; persisting it is the host's concern.
