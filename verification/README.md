# bastion_runtime

The core of a personal agent, verified with Verus: what may leave the machine, which tool may run,
which approval it needs, how a task goes on after each observation, and what a turn answers.

- `src/` is the library. Every decision is a function with a contract; what holds of several
  functions together is stated in public proof functions beside them.
- `app/` is the host: SQLite, async ports, tracing, spans, prices. It carries out what the library
  decides.
- `tests/` runs the library on concrete values.

| Module | What it decides |
| --- | --- |
| `hooks` | input screening, privacy egress, approval words, contested beliefs |
| `capability` | the registry, the approval and permission queues, one run per approval |
| `agent` | turns, the tool loop, prompts, compaction, prices, backends, delegated tasks |
| `task` | cases, their status machine, the store, the adaptive cycle, child tasks |
| `provider`, `provider_auth`, `provider_conformance` | retries, credentials, conformance checks |
| `json`, `unicode`, `text`, `table` | what the above stand on |

What is believed and not proved: what `serde_json` does with values, texts and maps (`json`), the
Unicode classes and lower case of the standard library (`unicode`), and SHA-256
(`capability::approval`). Each such item says what it claims. Of a port (a provider, an executor,
a host) nothing is believed: its implementor says in `may_…` what a call may come to, and the
contracts say which calls are made, in which order, and that no others are.
