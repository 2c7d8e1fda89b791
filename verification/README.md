# iqdb-quantize

Vector quantization for iQDB: scalar (SQ8), binary (BQ) and product (PQ)
quantizers behind one `Quantizer` trait.

## Layout

- `src/` is the verified library, checked by Verus. It holds everything
  that does not compute with floating point:
  - `rng` — the seeded SplitMix64 generator, with its draws stated as
    spec functions and the laws that follow (determinism, distinct seeds
    never agree, `next_below` terminates and stays in range);
  - `code` — the code types (`Sq8Code`, `BqCode`, `PqCode`) with their
    layout invariants (zero padding of packed bits, one byte per
    subvector);
  - `binary` — Hamming distance on packed words, proved equal to the
    number of differing dimensions;
  - `product` — PQ configuration and layout checks, code encoding,
    centroid gathering and distance-table entry selection;
  - `validate`, `error`, `metric` — the input rules every quantizer
    applies, and the error and metric vocabulary.
- `app/` is ordinary Rust around the library: the quantizer structs, the
  `Quantizer` trait, the floating-point calibration, k-means training and
  distance tables, conversion to `iqdb-types` errors and metrics, and
  tracing.
- `tests/` exercises the library through its public API.
