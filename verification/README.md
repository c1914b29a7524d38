# mclib

A toolkit for discrete-time motion control, split in two:

- `src/` — the verified library. Its functions carry `requires`/`ensures`
  contracts that Verus proves:
  - `math`: binomial coefficients, factorials, permutations (exact `u64`
    arithmetic, with the overflow conditions stated), polynomial sum, product
    and scaling with coefficients aligned by degree;
  - `signal::Delayer`: a ring-buffer delay line (its output stream is the input
    stream delayed by the fixed number of samples);
  - `discretize::bilinear_transform::DiscretizedSystem`: the difference
    equation of a discrete transfer function;
  - `system`: transfer functions, the shape check of state-space models, and
    the pairing step of pole-zero cancellation;
  - `status`, `analysis`, `trajectory`, `logger`: value types and the record
    counting of the CSV logger.
- `app/` — the parts that compute in floating point or do I/O: Bode and
  Nyquist plots, FFT and Welch spectra, bilinear and exact discretization,
  polynomial root finding, system identification, trajectory generators and the
  CSV logger. They call the verified library for the decisions it makes.

`tests/` exercises the library on concrete values.
