# maestro-llamacpp

A model router for llama.cpp servers: it reads a catalog of models, starts a
`llama-server` child per model on demand, keeps what is loaded within a memory
budget and an idle window, and relays requests to the child that answers them.

## Layout

- `src/` is the library, verified with Verus. What the router decides is
  stated there as contracts and proved: reading the catalog text (the TOML
  parse itself is the `toml` crate's, called from `catalog/toml_text.rs`)
  and checking its entries, deriving memory estimates from GGUF metadata,
  discovering model files, admission under a budget (what to unload, coldest
  first; what to refuse), the idle window, what each round of waiting for a
  child to become ready leads to, reading request heads and answering them,
  the refusals and their statuses, the JSON bodies the router writes, what
  `check` says of a catalog, the command line a child is started with, and
  the figures the machine's tools print. The laws that hold across calls are
  public proof functions in `admission/laws.rs`, `catalog/laws.rs`,
  `catalog/estimate.rs`, `idle.rs` and `bench.rs`.
- `app/` is the `model-router` program around it: arguments, the
  environment, files, sockets, threads, locks and child processes. It reads
  values from the machine, catalog text among them, and hands them to the
  library. What it holds itself, unproved, is the plumbing: the per-entry
  slot locks and when a slot is taken, the order of the steps of an
  admission, the loops that poll, sweep and relay bytes, and the benchmark's
  floating-point rates.
- `tests/` exercises the library from outside.

## Commands

```sh
model-router check <catalog>
model-router bench <catalog> [model]
model-router launch <catalog> <model>
model-router serve <catalog> [address]
```

The models root is `MAESTRO_MODELS_ROOT`, or `models` under the home
directory. `MAESTRO_MEMORY_BUDGET_MIB`, `MAESTRO_IDLE_UNLOAD_SECONDS` and
`MAESTRO_ADMISSION_WAIT_SECONDS` set the budget, the idle window and how long a
request waits for room held by a busy model.
