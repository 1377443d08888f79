# kfuzz_uring

A fuzzer for KFuzzTest targets of the Linux kernel, built as a Verus-verified
library (`src/`) and a thin binary around it (`app/`).

The library holds the fuzzer's logic with its contracts:

- `blob_mutator`: the four byte-level edits (bit flip, byte overwrite, block
  insertion, block erasure) as exact functions of their parameters, the
  seeded `NaiveMutator` that draws one to five of them and applies them, and laws on them (a flip undone by a second flip, an insertion
  undone by an erasure, bounded length change). The corpus's next input
  comes from `input_from_draws`, exact in the drawn choice, picks and cuts.
- `kfuzz_target`: corpus entries and their energy, the `Corpus` with its
  energy-weighted pick and splicing, fuzz targets, and the parser of a KUnit
  suite's `fuzz` listing (`id: name` per line).
- `kfuzz_manager`: the global coverage map, the recording of a run (new
  program counters, corpus growth), and the coverage log format.
- `kcov`: reading the kcov trace buffer; `kfuzz_executor`: the run request
  code; `kfuzz_stats`: the counters shared with the monitor.
- `random` and `text`: the calls into `rand`, and Unicode trimming and
  `u32` parsing over characters.

The binary in `app/` discovers the targets in debugfs, drives kcov and the
target ioctls, runs the loop, writes `coverage.out` and prints statistics.
