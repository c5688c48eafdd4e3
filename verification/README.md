# mad_dog_sim

The combinatorial core of an emergent-geometry simulator, written in Verus:
every function under `src/` carries a contract that Verus proves.

## Layout

- `src/rng.rs` — the Mulberry32 generator, stated against its 32-bit recurrence.
- `src/perm.rs`, `src/heap.rs` — qubit labelings: identity, seeded shuffle,
  inverse, Hamming distance, reflection equivalence on a chain, relabeling of
  basis states, and Heap's method, proved to list every permutation once.
- `src/lattice.rs` — graph distances on chains, grids, tori and cubes, layout
  diameter and support span, and the eight symmetries of a square grid.
- `src/pauli.rs`, `src/stabilizer.rs` — Pauli-string commutation, candidate
  strings on a window, the greedy commuting generator set, code distance and
  `[[n,k,d]]` parameters.
- `src/sites.rs` — excitation windows, evenly spaced mass sites, clock sites
  and the defect site of a cube.
- `src/factorization.rs` — search options, two-body couplings placed on a
  layout, annealing budget.
- `src/holdout.rs`, `src/refinement.rs`, `src/battery.rs` — hold-out grids of
  the falsification battery, their verdict bookkeeping and labels, refinement
  thresholds and timing, battery tallies.
- `src/text.rs` — decimal and fixed-point rendering used by the labels.

`tests/` runs the library on concrete values; the hold-out tests simulate the
quenches in floating point and hand the verdicts to the library.

`app/` is the WebAssembly-facing shell: JSON shapes of the library's records,
the floating-point quenches behind the hold-out verdicts, and the exported
functions.
