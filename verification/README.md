# sparrow (verified decision core)

A Verus library holding the decision logic of a strip- and bin-packing
optimizer, with its contracts proved:

- `src/util/order_key.rs`: total-order keys for single-precision bit patterns.
- `src/util/rank.rs`: stable sorts (from `itertools` and `std`, behind
  trusted wrappers), first-minimum and last-maximum selections, and the
  uniqueness of stable sorts.
- `src/optimizer/bpp/lbf.rs`: construction order, candidate bins, the
  per-item placement state machine and its errors.
- `src/optimizer/bpp/explore.rs`: the bin-removal exploration state machine.
- `src/optimizer/bpp/separator.rs`: strike/stall control of separation,
  collision-tracker bookkeeping after a restore, sweep candidates.
- `src/util/listener.rs`, `src/util/svg_exporter.rs`: report types, solution
  listeners, names and destinations of exported SVG files.
- `src/util/io.rs`: input sniffing, command-line time budgets, output paths,
  log clock.

`app/` holds the program around it: command line, logging, file I/O, and the
geometry-driven loops that run the library's state machines.
