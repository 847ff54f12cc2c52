# crabbymetrics

Econometric estimators for Python, with everything that can be decided without
floating point arithmetic verified in Verus.

Numbers enter the library as the bit patterns of IEEE-754 doubles. On those
patterns the library validates inputs, compares and orders values, lays out
designs, parameters and results, plans folds, resamples and regressions, steers
the solvers, and keeps the state of fitted models. Every public function states
what it returns and when it refuses.

- `src/` is the verified library, one module for each family of estimators and
  for each shared structure (`matrix`, `order`, `folds`, `sampling`,
  `panel_tables`, `union_find`, `float_bits`).
- `tests/` runs the library on concrete values.
- `app/` is the Python module: conversions, and the floating point arithmetic
  between the library's decisions.
  `argmin-math` stands in `Cargo.toml` as the array backend of `argmin`'s
  solvers; nothing calls it by name.
