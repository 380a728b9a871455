# evo_wasm

A distributed artificial-life simulation in which every organism is a
WebAssembly module compiled from an evolvable intermediate representation.
Workers run "island" simulations of a toroidal grid world; a central server
hands out jobs, keeps a genome bank and breeds new genomes from the best
lineages.

The library in `src/` holds the project's logic, verified with Verus:

- `types`, `config`, `fitness`, `arith`, `error`: positions on the torus,
  tiles, identifiers, configuration, fitness metrics and Pareto dominance.
- `ir`: the genome instruction set, programs, validation, the compiler to
  WebAssembly (through `wasm-encoder`) and the mutation and crossover
  operators. Each random operator has a counterpart that takes the values
  drawn (`instruction_from_draws`, `point_mutate_with`, `crossover_with`,
  `mutate_block_with`, `mutate_function_with`, `mutate_with`) and whose
  result the contracts give exactly; mutation keeps a valid program valid.
- `world`: the grid, organisms and the simulation engine: moves, eating,
  attacks, reproduction, hazards, deaths and results, with the invariant that
  every organism is recorded on its own cell, and, as long as newborn
  identifiers are fresh, every record is of an organism standing there
  (`world::occupancy`).
- `runtime`: what each host import answers to an organism.
- `rng`: the seeded ChaCha8 generator.
- `server`: job bookkeeping, selection and breeding, checkpoint file names and
  the API's answers.

`app/` is the program around it: the server (HTTP API, SQLite storage,
checkpoints) and the worker (job polling, running organisms on `wasmtime`),
the floating-point parts (resource regrowth, scalar fitness and lineage
averages) and the serde forms of the library's types.

Run the server with `server` (the default) and a worker with `worker`; both
read their settings from the environment (`BIND_ADDRESS`, `PORT`,
`DATABASE_PATH`, `CHECKPOINT_DIR`, `CHECKPOINT_INTERVAL_SECS`, `SERVER_URL`,
`WORKER_ID`, `MAX_CONCURRENT_JOBS`, `POLL_INTERVAL_MS`, `OTEL_ENDPOINT`).
