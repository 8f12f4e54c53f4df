# hologram_exec

Verified kernels of a tensor executor: the shape arithmetic, index maps, byte layouts,
integer casts, quantised-block decoding, KV-cache bookkeeping and planning decisions
behind float kernels, each with a Verus contract.

- `src/` — the library, verified by Verus. One module per concern (`shape`, `layout`,
  `tensor_ops`, `select`, `cast`, `spatial`, `pool`, `conv`, `matmul`, `attention`,
  `dequant`, `half`, `kv`, `kv_plan`, `kv_dispatch`, `kv_wht`, `quantize`, `q16`,
  `patch_prune`, `store`, `constants`, `bytes`, `radix`, `reduce`, `error`).
  The one trusted item is the alignment probe in `tensor_ops` (a call of
  `bytemuck::try_cast_slice`).
- `tests/` — tests of the library.
- `app/` — the float kernels and runtime state built on the library (elementwise maps,
  normalisations, pooling, convolution, matrix products, attention, KV-cache
  quantisation, LUT-GEMM, patch pruning, custom-op registry).
