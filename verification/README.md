# fx_strategy

Trading strategies for foreign exchange that learn a Q-function online and choose actions by
sampling it, as a library verified with Verus.

- `src/` is the library. Every number is a `Scalar`, an IEEE 754 double in integer arithmetic
  (`scalar`, `rounding`), so that contracts say what is computed to the last bit; `order` relates
  it to the numbers it stands for.
- `bayesian_lr`, `mc_eval` and `change_point` learn, evaluate and notice change; `extractor`,
  `features`, `rolling` and `execution_stats` turn events into features; `regime` keeps track of
  the market regime; `decision`, `strategy_a`, `strategy_b`, `strategy_c` and `thompson_sampling`
  decide; `q_state` holds what is learnt in a form to store.
- The modules that end in `_laws` state and prove what holds of several functions together.
- `tests/` runs the library, against the machine's floats and nalgebra where they overlap.
- `app/` supplies what lies outside the library: exponentials and logarithms, random numbers,
  Cholesky factors, the ONNX regime model and snapshot files.
