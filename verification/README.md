# lau-control-theory

Classical and modern control theory — transfer functions, state-space models,
Routh–Hurwitz and Lyapunov stability, PID design, root locus, Bode and Nyquist
analysis, and agent feedback control.

## Layout

- `src/` — the verified library (Verus). It holds the parts of the theory that
  are exact: the shape rules of state-space models and the dual system, matrix
  transposition, flattening and block concatenation, the layout of Routh,
  Hurwitz and companion matrices, trimming and aligning coefficient vectors,
  counting sign changes and drawing the Routh–Hurwitz and Nyquist conclusions,
  locating the rise window and settling point of a step response, and the
  escalation and stability assessment of agent behaviour. Matrix and vector
  functions are generic over the entry type, so they apply to `f64` unchanged.
- `app/` — the numerical layer in ordinary Rust: everything that computes on
  `f64` or complex values (evaluation of transfer functions, root finding,
  eigenvalues, Leverrier's recursion, Lyapunov solves, PID simulation,
  frequency responses), built on `nalgebra` and `num-complex`, with `serde`
  on the data types.
- `tests/` — tests of the verified library.
