# qlang_hybrid

A verified library for a hybrid answering system.

- An organism asks small specialists first, and a large core model where none of them is sure
  enough (`hybrid`, `specialist`, `core_llm`, `stats`).
- An engine learns tasks one after the other. It keeps one ternary memory for each task and a
  consensus over all of them, and routes a sample to the task it resembles most (`tci`,
  `consensus`).
- A daemon evolves a population of specialists for each task and merges the fittest back into the
  memory of the task (`daemon`, `pool`, `evolution`). What holds after any number of steps, and
  that evolution can be repeated, is proved in `history` and `replay`.
- Engine and daemon are kept as bytes between sessions (`persistence`, `daemon_state`).
- A classifier reads spike counts with a small trainable network (`spiking`, `readout`).

Scores, weights and rates are single-precision numbers. The library holds them by their bit
pattern and computes with them itself: `scalar` gives their exact values and order, `rounding`,
`arith` and `counts` give correctly rounded arithmetic, and `ranking` says which of several scores
is taken.

`src/` is the library, verified with Verus. `tests/` runs it. `app/` is ordinary Rust around it:
files, environment, time, threads, the transcendental functions, and the components that train
brains, compare signatures and run graphs.
