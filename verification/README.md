# rlnc-simdx

Random Linear Network Coding over GF(2^8), verified with Verus.

Source data is cut into generations of `k` symbols of `n` bytes.  The
`Encoder` emits coded packets (a coefficient vector and the matching
combination of the symbols), the `Recoder` mixes coded packets into new
ones, and the `Decoder` keeps the innovative packets in echelon form and
recovers the symbols once it holds `k` of them.

## Layout

- `src/field/`: GF(2^8) arithmetic (`algebra` states the field operations
  and proves the field laws, `tables` holds the logarithm and exponent
  tables with their proofs, `gf8` is the `Gf8` element type).
- `src/linear.rs`, `src/span.rs`: byte vectors over the field, linear
  combinations, spans and echelon form.
- `src/kernel/`: the vector kernels (AXPY, scaling, multi-source AXPY, dot
  product) over byte slices.
- `src/aligned.rs`: 64-byte aligned byte buffers.
- `src/encoder.rs`, `src/recoder.rs`, `src/decoder.rs`: the coder.
- `src/matrix.rs`: a row-major matrix with padded rows and in-place
  Gaussian elimination to reduced row echelon form.
- `src/error.rs`, `src/text.rs`, `src/report.rs`, `src/tuning.rs`: error
  messages, number formatting, and the helpers of the benchmark report.
- `src/slices.rs`: copying and exchanging byte slices.
- `src/std_ops.rs`: the few standard-library calls whose behaviour is
  trusted rather than proved.
- `app/main.rs`: a multithreaded throughput benchmark (Rayon, timing).

## Main guarantees

- `Decoder::receive` returns `Ok(true)` exactly when the packet's
  coefficient vector is not a combination of those received before.
- `Decoder::decode` returns, once the rank is `k`, the only source that
  explains every received packet.
- A recoded packet is explained by every source that explains its inputs.
- `GfMatrix::gaussian_elimination` leaves a reduced row echelon form with
  the same row space and returns its rank.
