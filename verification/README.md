# Concord

Concord is the authority path of a kernel for coherent scientific campaigns: it activates a
compiled Epact program image for a campaign, accepts the runtime facts that advance it, grants
bounded dispatch authority against budgets, recovers from interrupted dispatches, keeps a
hash-chained receipt of every step, and lets anyone replay and verify the result.

The library is written in Verus: its functions carry `requires`/`ensures` contracts that
Verus proves; the few calls into outside crates (SHA-256, the clock, random tokens, JSON parsing) stand behind
small trusted wrappers whose contracts say what those crates promise.

## Layout

- `src/epact.rs`, `src/epact_eval.rs`, `src/epact_runtime.rs`: the Epact image, runtime events,
  replay and eligibility, each specified by a projection over plain values.
- `src/kernel.rs`, `src/reference.rs`: the reference kernel: campaigns, budgets in whole
  micro-dollars, dispatch permits and their lifecycle, hash-chained kernel events, snapshots and
  independent verification.
- `src/kernel_laws.rs`, `src/verifiability.rs`: laws proved of the kernel, among them that every
  operation keeps a campaign independently verifiable and keeps a campaign blocked while one of
  its dispatches stays interrupted.
- `src/allocator.rs`: a checked allocation facade over any kernel's dispatch operations.
- `src/openai_compatible.rs`: adapters that render a canonical model request as an
  OpenAI-compatible chat payload and normalize a provider's chat response into the canonical
  response.
- `src/store.rs`, `src/notes.rs`, `src/records.rs`, `src/packages.rs`, `src/store_laws.rs`: the workspace store
  (capabilities, runs, metrics, semantic objects, notes, events, project inputs) and its laws;
  `src/workspaces.rs` and `src/capabilities.rs` list a campaign's workspace records and the
  capability-package registry, whose qualification history must form one hash chain;
  `src/operational.rs` refuses or writes operational imports (no scientific endpoints,
  executable capabilities or secrets; one content per import identifier; newer than the
  stream's latest import), and `src/snapshot.rs` lists the workspace in view order.
- `src/text.rs`, `src/order.rs`, `src/search.rs`, `src/sorting.rs`, `src/canonical.rs`,
  `src/clock.rs`: text, ordering, canonical JSON and time helpers.
- `app/`: the `concord` command line, SQLite persistence of the kernel's tables, and the JSON
  forms of the library's types.
- `tests/`: tests of the library through its public interface.
