# oxide_train

The integer side of a set of training kernels for tensor-core GPUs, verified
with Verus: which block does what, in which order, from which element to which.

- `src/flash` is attention: how work items, key tiles and query tiles are
  enumerated, how the load, score and accumulate rings are recycled, how
  operands are staged and laid out, how launches are shaped, and how the probes'
  counters are published.
- `src/gemm` is the matrix products: the register-tiled product, the tensor-core
  launches and their tensor maps, the deferred drain, and what the measuring
  harnesses compute from what the device reports.
- `src/bf16.rs`, `src/float_order.rs`, `src/tally.rs`, `src/launch.rs` and
  `src/profile.rs` are shared: bf16 rounding and packing on bit patterns, the
  order of fp32 bit patterns, mismatch tallies, launch shapes and kernel budgets.

Floating-point values appear in the library as their bit patterns. The
arithmetic on them, the device kernels, the CUDA driver and cuBLASLt are in
`app/`. Its kernels take their work items, schedule steps and output indices from
the library, and so do its harnesses take launches, tensor maps and the verdicts
on integers and bit patterns. Its double-precision references walk their own
matrices and its tolerance checks on floats are its own. cuBLASLt is linked only
in a build with `--cfg cublas`; without it the harnesses time the kernels alone.

Properties that span several functions are public proof functions whose names
start with `law_`.
